use flequit_ui::search::document::{QueryDocument, Segment};
use flequit_ui::search::due::{DueName, DueSpec};
use flequit_ui::search::resolve::{ListEntry, NameIndex, ProjectEntry, Reference, UserEntry};
use flequit_ui::search::vocabulary::Lang;

fn project(id: &str, name: &str) -> ProjectEntry {
    ProjectEntry {
        id: id.into(),
        name: name.into(),
        color: String::new(),
        list_count: 0,
        archived: false,
    }
}

fn list(id: &str, project_id: &str, name: &str) -> ListEntry {
    ListEntry {
        id: id.into(),
        project_id: project_id.into(),
        name: name.into(),
    }
}

fn index() -> NameIndex {
    NameIndex::new(
        vec![
            project("p-work", "仕事"),
            project("p-work2", "仕事"),
            project("p-home", "Home"),
            project("p-today", "今日"),
            project("p-yamada", "山田"),
            project("p-ver", "v1.2"),
        ],
        vec![
            list("l-inbox", "p-home", "Inbox"),
            list("l-week", "p-work", "今週やる"),
            list("l-inbox2", "p-work", "Inbox"),
            list("l-bug", "p-ver", "バグ"),
        ],
        vec![UserEntry {
            id: "u-yamada".into(),
            display_name: "山田".into(),
            handle: "yamada".into(),
        }],
    )
}

fn bound(text: &str, reference: Reference) -> Segment {
    Segment::Bound {
        text: text.into(),
        reference,
    }
}

fn today() -> Reference {
    Reference::Due(DueSpec::Named(DueName::Today))
}

#[test]
fn a_finished_word_is_confirmed_and_the_word_being_typed_is_not() {
    let index = index();
    let mut document = QueryDocument::from_text("@Home @今週");
    let active = document.text().len();
    document.commit(&index, Some(active));

    assert_eq!(
        document.segments(),
        [
            bound("@Home", Reference::Project("p-home".into())),
            Segment::Text(" @今週".into()),
        ]
    );
}

#[test]
fn a_word_naming_several_targets_becomes_ambiguous() {
    let index = index();
    let mut document = QueryDocument::from_text("x @山田");
    let first = document.commit(&index, None);

    assert_eq!(first, Some(2));
    assert_eq!(
        document.ambiguous_at(2),
        Some(
            [
                Reference::Project("p-yamada".into()),
                Reference::User("u-yamada".into())
            ]
            .as_slice()
        )
    );
    assert!(document.choose_reference(2, Reference::User("u-yamada".into())));
    assert_eq!(
        document.segments()[1],
        bound("@山田", Reference::User("u-yamada".into()))
    );
}

#[test]
fn edits_elsewhere_keep_a_token_confirmed() {
    let mut document = QueryDocument::from_segments(vec![
        bound("@今日", today()),
        Segment::Text(" milk".into()),
    ]);

    let active = document.apply_edit("@今日 milks");
    assert_eq!(active, "@今日 milks".len());
    assert_eq!(document.segments()[0], bound("@今日", today()));

    document.apply_edit("x @今日 milks");
    assert_eq!(document.segments()[1], bound("@今日", today()));
}

#[test]
fn editing_inside_or_against_a_token_unbinds_it() {
    let mut document = QueryDocument::from_segments(vec![bound("@今日", today())]);
    document.apply_edit("@今日x");
    assert_eq!(document.segments(), [Segment::Text("@今日x".into())]);

    let mut document =
        QueryDocument::from_segments(vec![bound("@今日", today()), Segment::Text(" x".into())]);
    document.apply_edit("@今日x");
    assert_eq!(document.segments(), [Segment::Text("@今日x".into())]);

    let mut document = QueryDocument::from_segments(vec![bound("@今日", today())]);
    document.apply_edit("@今");
    assert_eq!(document.segments(), [Segment::Text("@今".into())]);
}

#[test]
fn a_token_can_be_negated_or_grouped_without_unbinding() {
    // Typed one character at a time, as a text field reports it.
    let mut document = QueryDocument::from_segments(vec![bound("@今日", today())]);
    for step in ["(@今日", "(-@今日", "(-@今日)"] {
        document.apply_edit(step);
    }
    assert_eq!(document.segments()[1], bound("@今日", today()));
}

#[test]
fn the_internal_query_round_trips_and_is_shown_in_the_ui_language() {
    let index = index();
    let document = QueryDocument::from_segments(vec![
        Segment::Text("(".into()),
        bound("@today", today()),
        Segment::Text(" | ".into()),
        bound("@Home", Reference::Project("p-home".into())),
        Segment::Text(") -#保留 牛乳".into()),
    ]);
    let canonical = document.canonical();
    assert_eq!(canonical, "(@due:today | @project:{p-home}) -#保留 牛乳");

    let restored = QueryDocument::from_canonical(&canonical, &index, Lang::Ja);
    assert_eq!(restored.text(), "(@今日 | @Home) -#保留 牛乳");
    assert_eq!(restored.canonical(), canonical);
}

#[test]
fn a_rename_rewrites_the_token_and_a_deletion_breaks_it() {
    let mut document = QueryDocument::from_segments(vec![bound(
        "@OldName",
        Reference::Project("p-home".into()),
    )]);
    document.refresh(&index(), Lang::En, false);
    assert_eq!(document.text(), "@Home");

    let mut document =
        QueryDocument::from_segments(vec![bound("@Gone", Reference::Project("p-gone".into()))]);
    document.refresh(&index(), Lang::En, false);
    assert_eq!(document.segments(), [Segment::Broken("@Gone".into())]);
}

#[test]
fn switching_language_rewrites_keywords_but_keeps_names_as_typed() {
    let mut document = QueryDocument::from_segments(vec![
        bound("@today", today()),
        Segment::Text(" ".into()),
        bound("@home", Reference::Project("p-home".into())),
    ]);
    document.refresh(&index(), Lang::Ja, true);
    assert_eq!(document.text(), "@今日 @home");
}

#[test]
fn replacing_a_range_splits_the_text_around_it() {
    let mut document = QueryDocument::from_text("a @to b");
    document.replace_range(2..5, bound("@today", today()));
    assert_eq!(
        document.segments(),
        [
            Segment::Text("a ".into()),
            bound("@today", today()),
            Segment::Text(" b".into()),
        ]
    );
}

#[test]
fn an_empty_document_has_no_text_and_no_spans() {
    let document = QueryDocument::from_text("");
    assert!(document.is_empty());
    assert_eq!(document.text(), "");
    assert!(document.spans().is_empty());
    assert_eq!(document.canonical(), "");
}

#[test]
fn a_document_of_blanks_counts_as_empty() {
    let document = QueryDocument::from_text("   ");
    assert!(document.is_empty());
    let document = QueryDocument::from_text(" x ");
    assert!(!document.is_empty());
}

#[test]
fn spans_cover_each_segment_in_bytes() {
    let document = QueryDocument::from_segments(vec![
        Segment::Text("a ".into()),
        bound("@今日", today()),
        Segment::Text(" b".into()),
    ]);
    assert_eq!(document.spans(), vec![0..2, 2..9, 9..11]);
}

#[test]
fn choosing_a_target_that_was_not_offered_is_refused() {
    let index = index();
    let mut document = QueryDocument::from_text("@山田 ");
    assert_eq!(document.commit(&index, None), Some(0));
    assert!(!document.choose_reference(0, Reference::Project("p-home".into())));
    assert!(!document.choose_reference(5, Reference::User("u-yamada".into())));
    assert_eq!(document.first_ambiguous(), Some(0));
}

#[test]
fn a_word_naming_nothing_stays_text() {
    let index = index();
    let mut document = QueryDocument::from_text("@nothing ");
    assert_eq!(document.commit(&index, None), None);
    assert_eq!(document.segments(), [Segment::Text("@nothing ".into())]);
}
