use flequit_ui::search::document::QueryDocument;
use flequit_ui::search::resolve::{ListEntry, NameIndex, ProjectEntry, Reference, UserEntry};
use flequit_ui::search::suggestion::{
    active_token, candidates, suggestions, ActiveToken, SuggestionKind, SuggestionTarget,
};
use flequit_ui::search::vocabulary::{Lang, RefKind};

fn project(id: &str, name: &str) -> ProjectEntry {
    ProjectEntry {
        id: id.into(),
        name: name.into(),
        color: String::new(),
        list_count: 0,
        archived: false,
    }
}

fn list(id: &str, project_id: &str, name: &str) -> ListEntry {
    ListEntry {
        id: id.into(),
        project_id: project_id.into(),
        name: name.into(),
    }
}

fn index() -> NameIndex {
    NameIndex::new(
        vec![
            project("p-work", "仕事"),
            project("p-work2", "仕事"),
            project("p-home", "Home"),
            project("p-today", "今日"),
            project("p-yamada", "山田"),
            project("p-ver", "v1.2"),
        ],
        vec![
            list("l-inbox", "p-home", "Inbox"),
            list("l-week", "p-work", "今週やる"),
            list("l-inbox2", "p-work", "Inbox"),
            list("l-bug", "p-ver", "バグ"),
        ],
        vec![UserEntry {
            id: "u-yamada".into(),
            display_name: "山田".into(),
            handle: "yamada".into(),
        }],
    )
}

fn labels(typed: &str) -> Vec<String> {
    let token = ActiveToken {
        span: 0..typed.len(),
        text: typed.into(),
    };
    suggestions(
        &token,
        &index(),
        &["Shopping".into(), "shop".into(), "Work".into()],
        Lang::Ja,
    )
    .into_iter()
    .map(|suggestion| suggestion.label)
    .collect()
}

#[test]
fn at_offers_every_kind_narrowed_by_partial_match() {
    // Due keywords first, then the project called 今日, then the list.
    assert_eq!(
        labels("@今"),
        [
            "@今日",
            "@今週",
            "@今月",
            "@今期",
            "@今年",
            "@今年度",
            "@今日",
            "@仕事.今週やる"
        ]
    );
    assert_eq!(labels("@yama"), vec!["@山田".to_string()]);
    assert_eq!(labels("@未完"), vec!["@未完了".to_string()]);
}

#[test]
fn a_kind_prefix_or_a_dot_narrows_what_is_offered() {
    assert_eq!(labels("@user:"), vec!["@山田".to_string()]);
    assert_eq!(labels("@Home."), vec!["@Home.Inbox".to_string()]);
    assert_eq!(labels("@仕事.in"), vec!["@仕事.Inbox".to_string()]);
}

#[test]
fn a_count_being_typed_is_offered_as_a_due_keyword() {
    assert_eq!(labels("@10分").first().map(String::as_str), Some("@10分"));
}

#[test]
fn tags_are_matched_by_prefix_and_listed_once() {
    assert_eq!(
        labels("#sh"),
        vec!["#shop".to_string(), "#Shopping".to_string()]
    );
}

#[test]
fn the_word_ending_at_the_edit_is_the_active_one() {
    let document = QueryDocument::from_text("milk @to #x");
    assert_eq!(
        active_token(&document, 8).map(|token| token.text),
        Some("@to".to_string())
    );
    assert_eq!(active_token(&document, 4), None);
    assert_eq!(
        active_token(&document, 11).map(|token| token.text),
        Some("#x".into())
    );
}

#[test]
fn the_active_word_keeps_its_byte_range() {
    let document = QueryDocument::from_text("牛乳 @今");
    let token = active_token(&document, 10).expect("an active word");
    assert_eq!(token.span, 7..11);
    assert_eq!(token.text, "@今");
}

#[test]
fn a_typed_kind_prefix_is_recognised() {
    let token = ActiveToken {
        span: 0..9,
        text: "@user:yam".into(),
    };
    assert_eq!(token.kind(), Some(RefKind::User));
    let token = ActiveToken {
        span: 0..4,
        text: "@yam".into(),
    };
    assert_eq!(token.kind(), None);
    let token = ActiveToken {
        span: 0..3,
        text: "@x:".into(),
    };
    assert_eq!(token.kind(), None);
}

#[test]
fn ambiguous_candidates_describe_each_target() {
    let found = candidates(
        &[
            Reference::Project("p-yamada".into()),
            Reference::User("u-yamada".into()),
            Reference::Project("p-gone".into()),
        ],
        &index(),
        Lang::Ja,
    );
    assert_eq!(found.len(), 2);
    assert_eq!(found[0].label, "@山田");
    assert_eq!(found[0].kind, SuggestionKind::Project);
    assert_eq!(found[1].kind, SuggestionKind::User);
    assert_eq!(found[1].detail, "@yamada");
    assert_eq!(
        found[1].target,
        SuggestionTarget::Ref(Reference::User("u-yamada".into()))
    );
}

#[test]
fn a_list_suggestion_names_its_project() {
    let found = candidates(&[Reference::List("l-week".into())], &index(), Lang::Ja);
    assert_eq!(found[0].label, "@仕事.今週やる");
    assert_eq!(found[0].kind, SuggestionKind::TaskList);
    assert_eq!(found[0].detail, "仕事");
}

#[test]
fn a_word_without_a_sigil_gets_nothing() {
    assert!(labels("milk").is_empty());
    assert!(labels("").is_empty());
}

#[test]
fn a_tag_suggestion_targets_the_tag_as_written() {
    let token = ActiveToken {
        span: 0..3,
        text: "#wo".into(),
    };
    let found = suggestions(&token, &index(), &["Work".into()], Lang::En);
    assert_eq!(found.len(), 1);
    assert_eq!(found[0].label, "#Work");
    assert_eq!(found[0].kind, SuggestionKind::Tag);
    assert_eq!(found[0].target, SuggestionTarget::Tag("Work".into()));
}
