use flequit_ui::search::due::{DueName, DueSpec};
use flequit_ui::search::lexer::{read_term, RawTerm};
use flequit_ui::search::resolve::{glob, is_explicit, ListEntry, NameIndex, ProjectEntry, Reference, UserEntry};
use flequit_ui::search::vocabulary::{Lang, StatusKey};

fn project(id: &str, name: &str) -> ProjectEntry {
    ProjectEntry {
        id: id.into(),
        name: name.into(),
        color: String::new(),
        list_count: 0,
        archived: false,
    }
}

fn list(id: &str, project_id: &str, name: &str) -> ListEntry {
    ListEntry {
        id: id.into(),
        project_id: project_id.into(),
        name: name.into(),
    }
}

fn index() -> NameIndex {
    NameIndex::new(
        vec![
            project("p-work", "仕事"),
            project("p-work2", "仕事"),
            project("p-home", "Home"),
            project("p-today", "今日"),
            project("p-yamada", "山田"),
            project("p-ver", "v1.2"),
        ],
        vec![
            list("l-inbox", "p-home", "Inbox"),
            list("l-week", "p-work", "今週やる"),
            list("l-inbox2", "p-work", "Inbox"),
            list("l-bug", "p-ver", "バグ"),
        ],
        vec![UserEntry {
            id: "u-yamada".into(),
            display_name: "山田".into(),
            handle: "yamada".into(),
        }],
    )
}

fn resolve(text: &str) -> Vec<Reference> {
    match read_term(text) {
        RawTerm::At(word) => index().resolve(&word),
        other => panic!("not an @ word: {other:?}"),
    }
}

#[test]
fn a_name_can_fit_several_kinds_and_is_offered_in_order() {
    assert_eq!(
        resolve("@山田"),
        vec![
            Reference::Project("p-yamada".into()),
            Reference::User("u-yamada".into())
        ]
    );
    assert_eq!(
        resolve("@今日"),
        vec![
            Reference::Due(DueSpec::Named(DueName::Today)),
            Reference::Project("p-today".into())
        ]
    );
}

#[test]
fn a_kind_prefix_narrows_the_lookup() {
    assert_eq!(
        resolve("@user:yamada"),
        vec![Reference::User("u-yamada".into())]
    );
    assert_eq!(
        resolve("@プロジェクト:今日"),
        vec![Reference::Project("p-today".into())]
    );
    assert_eq!(
        resolve(r#"@"今日""#),
        vec![Reference::Project("p-today".into())]
    );
}

#[test]
fn same_named_projects_are_all_candidates() {
    assert_eq!(
        resolve("@仕事"),
        vec![
            Reference::Project("p-work".into()),
            Reference::Project("p-work2".into())
        ]
    );
}

#[test]
fn a_dotted_name_is_tried_whole_before_it_is_split() {
    assert_eq!(resolve("@v1.2"), vec![Reference::Project("p-ver".into())]);
    assert_eq!(
        resolve("@仕事.inbox"),
        vec![Reference::List("l-inbox2".into())]
    );
    assert_eq!(
        resolve(r#"@"v1.2"."バグ""#),
        vec![Reference::List("l-bug".into())]
    );
}

#[test]
fn names_are_matched_exactly_unless_a_wildcard_is_used() {
    assert!(resolve("@仕").is_empty());
    assert_eq!(
        resolve("@project:仕*"),
        vec![
            Reference::Project("p-work".into()),
            Reference::Project("p-work2".into())
        ]
    );
    assert_eq!(
        resolve("@list:*box"),
        vec![
            Reference::List("l-inbox".into()),
            Reference::List("l-inbox2".into())
        ]
    );
}

#[test]
fn a_reference_renders_to_a_name_that_resolves_back_to_it() {
    let index = index();
    for reference in [
        Reference::Due(DueSpec::Named(DueName::Today)),
        Reference::Status(StatusKey::Open),
        Reference::Project("p-home".into()),
        Reference::List("l-week".into()),
        Reference::List("l-bug".into()),
        Reference::User("u-yamada".into()),
    ] {
        for lang in Lang::all() {
            for explicit in [false, true] {
                let text = index.render(&reference, lang, explicit).expect("rendered");
                assert!(
                    index.describes(&text, &reference),
                    "{text} -> {reference:?}"
                );
            }
        }
    }
    assert_eq!(
        index
            .render(&Reference::List("l-bug".into()), Lang::Ja, false)
            .as_deref(),
        Some(r#"@"v1.2".バグ"#)
    );
}

#[test]
fn an_id_token_resolves_only_while_its_target_exists() {
    assert_eq!(
        resolve("@project:{p-home}"),
        vec![Reference::Project("p-home".into())]
    );
    assert!(resolve("@project:{gone}").is_empty());
}

#[test]
fn a_glob_matches_runs_of_characters() {
    assert!(glob("a*c", "abc"));
    assert!(glob("*", ""));
    assert!(glob("a*", "a"));
    assert!(!glob("a*c", "abd"));
    assert!(glob("*b*", "abc"));
    assert!(!glob("abc", "abcd"));
}

#[test]
fn canonical_tokens_keep_the_target_rather_than_the_name() {
    assert_eq!(
        Reference::Due(DueSpec::Named(DueName::Today)).canonical(),
        "@due:today"
    );
    assert_eq!(Reference::Status(StatusKey::Open).canonical(), "@status:open");
    assert_eq!(Reference::Project("p-home".into()).canonical(), "@project:{p-home}");
    assert_eq!(Reference::Due(DueSpec::Days(3)).canonical(), "@due:3d");
}

#[test]
fn an_explicit_prefix_is_recognised() {
    assert!(is_explicit("@project:Home"));
    assert!(!is_explicit("@Home"));
    assert!(!is_explicit("Home"));
}

#[test]
fn a_deleted_target_renders_to_nothing_and_no_longer_exists() {
    let index = index();
    assert_eq!(index.render(&Reference::Project("gone".into()), Lang::En, false), None);
    assert!(!index.still_exists(&Reference::List("gone".into())));
    assert!(index.still_exists(&Reference::User("u-yamada".into())));
    assert_eq!(
        index.render(&Reference::Project("p-home".into()), Lang::En, true).as_deref(),
        Some("@project:Home")
    );
}

#[test]
fn a_glob_star_matches_across_the_whole_text() {
    assert!(glob("a*b*c", "aXbYc"));
    assert!(!glob("a*b*c", "aXcYb"));
    assert!(glob("**", "anything"));
    assert!(!glob("", "x"));
}
