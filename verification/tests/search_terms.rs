use flequit_ui::search::due::{DueKeyword, DueName, DueSpec};
use flequit_ui::search::lexer::{read_term, tokenize, RawTerm, TokenKind};
use flequit_ui::search::normalize::{fold, quote_if_needed};
use flequit_ui::search::vocabulary::{Lang, RefKind, StatusKey, TextField, UnitStatus};
use flequit_ui::settings::model::{CustomDueFilter, CustomDueUnit};

fn kinds(text: &str) -> Vec<(TokenKind, &str)> {
    tokenize(text)
        .into_iter()
        .map(|token| (token.kind, &text[token.span]))
        .collect()
}

#[test]
fn full_width_and_case_fold_together() {
    assert_eq!(fold("ＷＯＲＫ"), "work");
    assert_eq!(fold("ｼｺﾞﾄ"), "シゴト");
}

#[test]
fn a_plain_name_is_left_alone_and_a_tricky_one_is_quoted() {
    assert_eq!(quote_if_needed("仕事"), "仕事");
    assert_eq!(quote_if_needed("My Project"), "\"My Project\"");
    assert_eq!(quote_if_needed("v1.2"), "\"v1.2\"");
    assert_eq!(quote_if_needed("say \"hi\""), "\"say \\\"hi\\\"\"");
    assert_eq!(quote_if_needed("OR"), "\"OR\"");
}

#[test]
fn operators_groups_and_words_are_told_apart() {
    assert_eq!(
        kinds("(@今日 | @期限切れ) -#保留 AND 牛乳 OR x NOT y"),
        vec![
            (TokenKind::LParen, "("),
            (TokenKind::Word, "@今日"),
            (TokenKind::Or, "|"),
            (TokenKind::Word, "@期限切れ"),
            (TokenKind::RParen, ")"),
            (TokenKind::Not, "-"),
            (TokenKind::Word, "#保留"),
            (TokenKind::And, "AND"),
            (TokenKind::Word, "牛乳"),
            (TokenKind::Or, "OR"),
            (TokenKind::Word, "x"),
            (TokenKind::Not, "NOT"),
            (TokenKind::Word, "y"),
        ]
    );
}

#[test]
fn full_width_symbols_and_spaces_work_like_ascii() {
    assert_eq!(
        kinds("（＠今日｜＃仕事）　牛乳"),
        vec![
            (TokenKind::LParen, "（"),
            (TokenKind::Word, "＠今日"),
            (TokenKind::Or, "｜"),
            (TokenKind::Word, "＃仕事"),
            (TokenKind::RParen, "）"),
            (TokenKind::Word, "牛乳"),
        ]
    );
}

#[test]
fn quotes_keep_spaces_and_symbols_inside_one_word() {
    assert_eq!(
        kinds(r#"@"My (old) Project".Inbox "a | b""#),
        vec![
            (TokenKind::Word, r#"@"My (old) Project".Inbox"#),
            (TokenKind::Word, r#""a | b""#),
        ]
    );
}

#[test]
fn a_lone_or_trailing_minus_is_dropped_and_lowercase_words_are_text() {
    assert_eq!(kinds("- a -"), vec![(TokenKind::Word, "a")]);
    assert_eq!(
        kinds("a or b"),
        vec![
            (TokenKind::Word, "a"),
            (TokenKind::Word, "or"),
            (TokenKind::Word, "b")
        ]
    );
}

#[test]
fn at_words_split_into_kind_parts_and_flags() {
    let RawTerm::At(word) = read_term(r#"@プロジェクト:"v1.2""#) else {
        panic!("an @ word");
    };
    assert_eq!(word.kind, Some(RefKind::Project));
    assert_eq!(word.parts, vec!["v1.2".to_string()]);
    assert!(word.quoted);

    let RawTerm::At(word) = read_term("@仕事.今週やる") else {
        panic!("an @ word");
    };
    assert_eq!(word.kind, None);
    assert_eq!(word.parts, vec!["仕事".to_string(), "今週やる".to_string()]);

    let RawTerm::At(word) = read_term("@project:*仕*") else {
        panic!("an @ word");
    };
    assert!(word.wildcard);

    let RawTerm::At(word) = read_term("@list:{abc}") else {
        panic!("an @ word");
    };
    assert_eq!(word.id.as_deref(), Some("abc"));
}

#[test]
fn fields_tags_and_text_are_folded() {
    assert_eq!(
        read_term("@note:ＭＩＬＫ"),
        RawTerm::Field(TextField::Note, "milk".into())
    );
    assert_eq!(read_term("#Shop"), RawTerm::Tag("shop".into()));
    assert_eq!(
        read_term(r#""Two Words""#),
        RawTerm::Text("two words".into())
    );
    assert_eq!(read_term("@"), RawTerm::Ignore);
    assert_eq!(read_term("#"), RawTerm::Ignore);
    assert_eq!(read_term("@user:"), RawTerm::Ignore);
}

#[test]
fn a_spec_round_trips_through_its_key_and_every_spelling() {
    let specs = DueName::all()
        .into_iter()
        .map(DueSpec::Named)
        .chain([
            DueSpec::Days(3),
            DueSpec::Minutes(10),
            DueSpec::Minutes(120),
        ]);
    for spec in specs {
        assert_eq!(
            DueSpec::from_key(&spec.key()),
            Some(spec),
            "key of {spec:?}"
        );
        for lang in [Lang::En, Lang::Ja] {
            assert_eq!(
                DueSpec::parse(&spec.spell(lang)),
                Some(spec),
                "{lang:?} {spec:?}"
            );
        }
    }
}

#[test]
fn a_named_keyword_keeps_its_name_when_written_back() {
    assert_eq!(
        DueSpec::parse("今年度").map(|spec| spec.spell(Lang::En)),
        Some("fiscalyear".into())
    );
    assert_eq!(
        DueSpec::parse("today").map(|spec| spec.spell(Lang::Ja)),
        Some("今日".into())
    );
    assert_eq!(
        DueSpec::parse("10minutes").map(|spec| spec.spell(Lang::Ja)),
        Some("10分".into())
    );
}

#[test]
fn japanese_and_english_spellings_agree() {
    assert_eq!(DueKeyword::parse("今日"), DueKeyword::parse("today"));
    assert_eq!(DueKeyword::parse("期限切れ"), Some(DueKeyword::Overdue));
    assert_eq!(
        DueKeyword::parse("今週"),
        Some(DueKeyword::Within { days: 7 })
    );
}

#[test]
fn the_filter_buttons_all_map_to_a_keyword() {
    for query in [
        "overdue",
        "today",
        "tomorrow",
        "3days",
        "week",
        "month",
        "quarter",
        "year",
        "fiscalyear",
    ] {
        assert!(
            DueKeyword::parse(query).is_some(),
            "the sidebar button `@{query}` has no matching keyword"
        );
    }
}

#[test]
fn a_custom_filter_button_maps_to_a_keyword() {
    for (filter, expected) in [
        (
            CustomDueFilter::new(10, CustomDueUnit::Minute),
            DueKeyword::WithinMinutes { minutes: 10 },
        ),
        (
            CustomDueFilter::new(1, CustomDueUnit::Hour),
            DueKeyword::WithinMinutes { minutes: 60 },
        ),
        (
            CustomDueFilter::new(5, CustomDueUnit::Day),
            DueKeyword::Within { days: 5 },
        ),
    ] {
        let query = filter.query();
        assert_eq!(
            DueKeyword::parse(query.trim_start_matches('@')),
            Some(expected),
            "the custom filter `{query}` has no matching keyword"
        );
    }
}

#[test]
fn a_counted_keyword_includes_today() {
    assert_eq!(
        DueKeyword::parse("3日"),
        Some(DueKeyword::Within { days: 3 })
    );
    assert_eq!(DueKeyword::parse("2日"), DueKeyword::parse("明日"));
    assert_eq!(
        DueKeyword::parse("2か月"),
        Some(DueKeyword::Within { days: 60 })
    );
}

#[test]
fn an_unknown_keyword_is_rejected() {
    assert_eq!(DueKeyword::parse("someone"), None);
    assert_eq!(DueKeyword::parse("10"), None);
    assert_eq!(DueKeyword::parse(""), None);
}

#[test]
fn every_status_and_kind_has_a_spelling_in_every_language() {
    for lang in Lang::all() {
        for status in StatusKey::all() {
            let word = status.spell(lang);
            assert_eq!(StatusKey::parse(word), Some(status), "{lang:?} {status:?}");
            assert_eq!(StatusKey::parse(status.key()), Some(status));
        }
        for kind in RefKind::all() {
            let word = kind.spell(lang);
            assert_eq!(RefKind::parse(word), Some(kind), "{lang:?} {kind:?}");
        }
    }
}

#[test]
fn open_excludes_finished_and_cancelled_work() {
    assert!(StatusKey::Open.matches(UnitStatus::Waiting));
    assert!(!StatusKey::Open.matches(UnitStatus::Completed));
    assert!(!StatusKey::Open.matches(UnitStatus::Cancelled));
}

#[test]
fn the_ui_locale_picks_the_vocabulary() {
    assert_eq!(Lang::from_locale("ja"), Lang::Ja);
    assert_eq!(Lang::from_locale("en"), Lang::En);
    assert_eq!(Lang::from_locale("de"), Lang::En);
}

#[test]
fn a_name_with_curly_or_wide_quotes_reads_back_whole() {
    for name in ["say “hi”", "a＂b", "”", "back\\slash \"x\""] {
        let written = quote_if_needed(name);
        match read_term(&format!("@{}", written)) {
            RawTerm::At(word) => {
                assert_eq!(word.parts, vec![name.to_string()]);
                assert!(word.quoted);
                assert!(!word.wildcard);
                assert_eq!(word.kind, None);
            }
            other => panic!("unexpected term {:?}", other),
        }
    }
    assert_eq!(quote_if_needed("say “hi”"), "\"say \\“hi\\”\"");
}

#[test]
fn a_plain_name_is_written_and_read_back_as_it_is() {
    let written = quote_if_needed("groceries");
    assert_eq!(written, "groceries");
    match read_term("@groceries") {
        RawTerm::At(word) => {
            assert_eq!(word.parts, vec!["groceries".to_string()]);
            assert!(!word.quoted);
        }
        other => panic!("unexpected term {:?}", other),
    }
}

#[test]
fn whitespace_is_what_char_is_whitespace_says() {
    for code in 0..=0x10FFFFu32 {
        if let Some(c) = char::from_u32(code) {
            assert_eq!(flequit_ui::text::is_whitespace(c), c.is_whitespace(), "{:?}", c);
        }
    }
}
