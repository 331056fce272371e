use flequit_ui::search::document::Segment;
use flequit_ui::search::eval::Prepared;
use flequit_ui::search::resolve::{ListEntry, NameIndex, ProjectEntry, Reference, UserEntry};
use flequit_ui::search::session::{SearchSession, SearchView};
use flequit_ui::search::sidebar::{Highlight, ItemKey, QueryEdit};
use flequit_ui::search::vocabulary::Lang;

fn project(id: &str, name: &str) -> ProjectEntry {
    ProjectEntry {
        id: id.into(),
        name: name.into(),
        color: String::new(),
        list_count: 0,
        archived: false,
    }
}

fn list(id: &str, project_id: &str, name: &str) -> ListEntry {
    ListEntry {
        id: id.into(),
        project_id: project_id.into(),
        name: name.into(),
    }
}

fn index() -> NameIndex {
    NameIndex::new(
        vec![
            project("p-work", "仕事"),
            project("p-work2", "仕事"),
            project("p-home", "Home"),
            project("p-today", "今日"),
            project("p-yamada", "山田"),
            project("p-ver", "v1.2"),
        ],
        vec![
            list("l-inbox", "p-home", "Inbox"),
            list("l-week", "p-work", "今週やる"),
            list("l-inbox2", "p-work", "Inbox"),
            list("l-bug", "p-ver", "バグ"),
        ],
        vec![UserEntry {
            id: "u-yamada".into(),
            display_name: "山田".into(),
            handle: "yamada".into(),
        }],
    )
}

fn typed(session: &mut SearchSession, text: &str) {
    // A text field reports every intermediate state.
    for end in text.char_indices().map(|(index, ch)| index + ch.len_utf8()) {
        session.edit(&text[..end], &index());
    }
}

#[test]
fn typing_past_an_ambiguous_word_opens_its_candidates() {
    let mut session = SearchSession::default();
    typed(&mut session, "@山田 ");
    let view = session.view(&index(), &[], Lang::Ja);
    assert_eq!(view.candidates.len(), 2);
    assert_eq!(view.ambiguous, vec!["@山田".to_string()]);

    assert!(session.choose_candidate(1));
    assert_eq!(session.canonical(), "@user:{u-yamada} ");
    assert!(session.view(&index(), &[], Lang::Ja).candidates.is_empty());
}

#[test]
fn dismissing_leaves_the_word_ambiguous_until_it_is_reopened() {
    let mut session = SearchSession::default();
    typed(&mut session, "@山田");
    session.commit(&index());
    session.dismiss_candidates();
    assert!(session.view(&index(), &[], Lang::Ja).candidates.is_empty());
    session.reopen_candidates();
    assert_eq!(session.view(&index(), &[], Lang::Ja).candidates.len(), 2);
}

#[test]
fn a_picked_suggestion_is_confirmed_in_place() {
    let mut session = SearchSession::default();
    typed(&mut session, "milk @hom");
    let view = session.view(&index(), &[], Lang::En);
    assert_eq!(view.suggestions[0].label, "@Home");

    assert!(session.choose_suggestion(0, &index(), &[], Lang::En));
    assert_eq!(session.text(), "milk @Home");
    assert_eq!(session.canonical(), "milk @project:{p-home}");
}

#[test]
fn the_word_being_typed_narrows_only_once_it_names_something() {
    let mut session = SearchSession::default();
    typed(&mut session, "@Hom");
    let view = session.view(&index(), &[], Lang::En);
    assert!(view.prepared.is_empty());
    assert!(view.unresolved.is_empty());

    typed(&mut session, "@Home");
    assert!(!session.view(&index(), &[], Lang::En).prepared.is_empty());
}

#[test]
fn an_unknown_word_is_reported_once_it_is_left_behind() {
    let mut session = SearchSession::default();
    typed(&mut session, "@nobody x");
    assert_eq!(
        session.view(&index(), &[], Lang::En).unresolved,
        vec!["@nobody".to_string()]
    );
}

#[test]
fn a_sidebar_item_confirms_what_was_typed_first() {
    let mut session = SearchSession::default();
    typed(&mut session, "@Home");
    let reference = Reference::Project("p-work".into());
    let item = Segment::Bound {
        text: "@仕事".into(),
        reference: reference.clone(),
    };
    session.apply_item(
        &ItemKey::Ref(reference),
        item,
        QueryEdit::ToggleOr,
        &index(),
    );
    assert_eq!(session.canonical(), "@project:{p-home} | @project:{p-work}");
}

#[test]
fn a_stored_query_is_restored_and_cleared() {
    let mut session = SearchSession::default();
    session.restore("@due:today milk", &index(), Lang::Ja);
    assert_eq!(session.text(), "@今日 milk");
    assert!(!session.is_empty());
    session.clear();
    assert!(session.is_empty());
    assert_eq!(session.text(), "");
}

#[test]
fn strong_references_are_the_and_terms() {
    let mut session = SearchSession::default();
    session.restore("@project:{p-home} @list:{l-inbox} -@project:{p-work}", &index(), Lang::En);
    assert_eq!(
        session.strong_references(),
        vec![
            Reference::Project("p-home".into()),
            Reference::List("l-inbox".into())
        ]
    );
    assert!(session
        .highlights()
        .contains(&(ItemKey::Ref(Reference::Project("p-work".into())), Highlight::Excluded)));
}

#[test]
fn a_tag_suggestion_is_written_as_text() {
    let mut session = SearchSession::default();
    typed(&mut session, "#sh");
    let tags = ["Shopping".to_string()];
    let view = session.view(&index(), &tags, Lang::En);
    assert_eq!(view.suggestions[0].label, "#Shopping");
    assert!(session.choose_suggestion(0, &index(), &tags, Lang::En));
    assert_eq!(session.text(), "#Shopping");
    assert!(!session.choose_suggestion(0, &index(), &tags, Lang::En));
}

#[test]
fn a_rename_is_followed_and_a_stray_paren_reported() {
    let mut session = SearchSession::default();
    typed(&mut session, "@Home )");
    let view = session.view(&index(), &[], Lang::En);
    assert!(view.syntax_issue);
    let renamed = NameIndex::new(vec![project("p-home", "House")], vec![], vec![]);
    session.refresh(&renamed, Lang::En, false);
    assert_eq!(session.text(), "@House )");
    let prepared: Prepared = session.prepared(&renamed);
    assert!(!prepared.is_empty());
    let empty = SearchView::default();
    assert!(empty.suggestions.is_empty());
}

#[test]
fn a_single_reference_query_is_not_empty() {
    assert!(!Prepared::single(Reference::Project("p-home".into())).is_empty());
    assert!(Prepared::default().is_empty());
}

#[test]
fn a_restored_query_keeps_nothing_of_what_was_being_typed() {
    let mut session = SearchSession::default();
    typed(&mut session, "@山田 @in");
    session.restore("@project:{p-home} ", &index(), Lang::Ja);

    let expected =
        flequit_ui::search::document::QueryDocument::from_canonical("@project:{p-home} ", &index(), Lang::Ja);
    assert_eq!(session.text(), expected.text());
    assert_eq!(session.canonical(), "@project:{p-home} ");
    assert!(!session.choose_candidate(0));
    assert!(!session.choose_suggestion(0, &index(), &[], Lang::Ja));
    assert_eq!(session.text(), expected.text());
}
