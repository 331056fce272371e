use flequit_ui::search::document::{QueryDocument, Segment};
use flequit_ui::search::due::{DueName, DueSpec};
use flequit_ui::search::parser::parse;
use flequit_ui::search::resolve::Reference;
use flequit_ui::search::sidebar::{apply, highlights, tag_key, Highlight, ItemKey, QueryEdit};

fn due(name: DueName, text: &str) -> (ItemKey, Segment) {
    let reference = Reference::Due(DueSpec::Named(name));
    (
        ItemKey::Ref(reference.clone()),
        Segment::Bound {
            text: text.into(),
            reference,
        },
    )
}

fn work() -> (ItemKey, Segment) {
    let reference = Reference::Project("p-work".into());
    (
        ItemKey::Ref(reference.clone()),
        Segment::Bound {
            text: "@仕事".into(),
            reference,
        },
    )
}

fn run(start: QueryDocument, item: &(ItemKey, Segment), edit: QueryEdit) -> QueryDocument {
    apply(&start, &item.0, item.1.clone(), edit)
}

fn today_or_overdue() -> QueryDocument {
    let today = due(DueName::Today, "@今日");
    let overdue = due(DueName::Overdue, "@期限切れ");
    run(
        QueryDocument::from_segments(vec![today.1]),
        &overdue,
        QueryEdit::ToggleOr,
    )
}

#[test]
fn click_replaces_and_a_second_click_clears() {
    let item = work();
    let once = run(QueryDocument::from_text("milk"), &item, QueryEdit::Click);
    assert_eq!(once.text(), "@仕事");
    assert!(run(once, &item, QueryEdit::Click).is_empty());
}

#[test]
fn adding_with_and_groups_an_existing_or() {
    let query = today_or_overdue();
    assert_eq!(query.text(), "@今日 | @期限切れ");
    assert_eq!(
        run(query.clone(), &work(), QueryEdit::ToggleAnd).text(),
        "(@今日 | @期限切れ) @仕事"
    );
    assert_eq!(
        run(query.clone(), &work(), QueryEdit::ToggleOr).text(),
        "@今日 | @期限切れ | @仕事"
    );
    assert_eq!(
        run(query, &work(), QueryEdit::Exclude).text(),
        "(@今日 | @期限切れ) -@仕事"
    );
}

#[test]
fn toggling_takes_a_term_back_out() {
    let with_work = run(
        QueryDocument::from_text("milk"),
        &work(),
        QueryEdit::ToggleAnd,
    );
    assert_eq!(with_work.text(), "milk @仕事");
    assert_eq!(run(with_work, &work(), QueryEdit::ToggleAnd).text(), "milk");

    let today = due(DueName::Today, "@今日");
    let either = today_or_overdue();
    assert_eq!(run(either, &today, QueryEdit::ToggleOr).text(), "@期限切れ");
}

#[test]
fn remove_finds_the_item_in_and_or_and_negated_terms() {
    let excluded = run(
        QueryDocument::from_text("milk"),
        &work(),
        QueryEdit::Exclude,
    );
    assert_eq!(excluded.text(), "milk -@仕事");
    assert_eq!(run(excluded, &work(), QueryEdit::Remove).text(), "milk");
}

#[test]
fn a_confirmed_token_survives_the_rewrite() {
    let query = run(QueryDocument::from_text("a | b"), &work(), QueryEdit::And);
    assert!(
        query
            .segments()
            .iter()
            .any(|segment| matches!(segment, Segment::Bound { .. }))
    );
}

#[test]
fn highlights_follow_the_top_level_shape() {
    let (today_key, _) = due(DueName::Today, "@今日");
    let (work_key, _) = work();

    let and = run(QueryDocument::from_text("milk"), &work(), QueryEdit::And);
    let and = run(and, &due(DueName::Today, "@今日"), QueryEdit::Exclude);
    let found = highlights(&parse(&and));
    assert!(found.contains(&(work_key.clone(), Highlight::Strong)));
    assert!(found.contains(&(today_key.clone(), Highlight::Excluded)));

    let or = today_or_overdue();
    assert!(highlights(&parse(&or)).contains(&(today_key.clone(), Highlight::Weak)));

    // "(@今日 | @期限切れ) @仕事": the grouped terms are not lit.
    let grouped = run(today_or_overdue(), &work(), QueryEdit::And);
    let found = highlights(&parse(&grouped));
    assert_eq!(found, vec![(work_key, Highlight::Strong)]);
    assert!(!found.iter().any(|(key, _)| *key == today_key));
}

#[test]
fn a_pinned_tag_is_matched_by_name() {
    let tag = (tag_key("Shop"), Segment::Text("#Shop".into()));
    let query = run(QueryDocument::from_text("milk"), &tag, QueryEdit::ToggleAnd);
    assert_eq!(query.text(), "milk #Shop");
    assert_eq!(
        highlights(&parse(&query)).last(),
        Some(&(tag_key("shop"), Highlight::Strong))
    );
    assert_eq!(run(query, &tag, QueryEdit::ToggleAnd).text(), "milk");
}

#[test]
fn replace_shows_only_the_item_and_remove_on_a_lone_item_clears() {
    let query = run(QueryDocument::from_text("a | b"), &work(), QueryEdit::Replace);
    assert_eq!(query.text(), "@仕事");
    assert!(run(query, &work(), QueryEdit::Remove).is_empty());
}

#[test]
fn or_into_an_and_groups_nothing_but_adds_a_branch() {
    let query = run(QueryDocument::from_text("a b"), &work(), QueryEdit::Or);
    assert_eq!(query.text(), "a b | @仕事");
    let query = run(QueryDocument::from_text("a | b"), &work(), QueryEdit::And);
    assert_eq!(query.text(), "(a | b) @仕事");
}

#[test]
fn a_negated_group_keeps_its_parentheses() {
    let query = run(QueryDocument::from_text("NOT (a | b)"), &work(), QueryEdit::And);
    assert_eq!(query.text(), "-(a | b) @仕事");
    assert_eq!(Highlight::default(), Highlight::Plain);
}

#[test]
fn a_query_with_no_sidebar_item_lights_nothing() {
    assert!(highlights(&parse(&QueryDocument::from_text("milk | bread"))).is_empty());
    assert!(highlights(&parse(&QueryDocument::from_text(""))).is_empty());
}
