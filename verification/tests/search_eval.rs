use chrono::{DateTime, Days, TimeZone, Utc};
use flequit_ui::search::document::QueryDocument;
use flequit_ui::search::due::DueKeyword;
use flequit_ui::search::eval::{EvalContext, Prepared, SearchUnit, UnitText};
use flequit_ui::search::parser::parse;
use flequit_ui::search::resolve::{ListEntry, NameIndex, ProjectEntry, UserEntry};
use flequit_ui::search::vocabulary::UnitStatus;

fn project(id: &str, name: &str) -> ProjectEntry {
    ProjectEntry {
        id: id.into(),
        name: name.into(),
        color: String::new(),
        list_count: 0,
        archived: false,
    }
}

fn list(id: &str, project_id: &str, name: &str) -> ListEntry {
    ListEntry {
        id: id.into(),
        project_id: project_id.into(),
        name: name.into(),
    }
}

fn index() -> NameIndex {
    NameIndex::new(
        vec![
            project("p-work", "仕事"),
            project("p-work2", "仕事"),
            project("p-home", "Home"),
            project("p-today", "今日"),
            project("p-yamada", "山田"),
            project("p-ver", "v1.2"),
        ],
        vec![
            list("l-inbox", "p-home", "Inbox"),
            list("l-week", "p-work", "今週やる"),
            list("l-inbox2", "p-work", "Inbox"),
            list("l-bug", "p-ver", "バグ"),
        ],
        vec![UserEntry {
            id: "u-yamada".into(),
            display_name: "山田".into(),
            handle: "yamada".into(),
        }],
    )
}

/// An instant as nanoseconds since the Unix epoch.
fn ns(t: &DateTime<Utc>) -> i128 {
    t.timestamp() as i128 * 1_000_000_000 + t.timestamp_subsec_nanos() as i128
}

fn utc(year: i32, month: u32, day: u32, hour: u32) -> DateTime<Utc> {
    Utc.with_ymd_and_hms(year, month, day, hour, 0, 0).unwrap()
}

/// Where a horizon ends in UTC: 23:59:59 of the last day, or now plus the minutes.
fn horizon_end(keyword: DueKeyword, now: &DateTime<Utc>) -> Option<i128> {
    match keyword {
        DueKeyword::Within { days } => {
            let day = now
                .date_naive()
                .checked_add_days(Days::new(days.saturating_sub(1)))
                .expect("a near day");
            Some(ns(&day.and_hms_opt(23, 59, 59).expect("a valid time").and_utc()))
        }
        DueKeyword::WithinMinutes { minutes } => Some(ns(now) + minutes as i128 * 60_000_000_000),
        DueKeyword::Overdue => None,
    }
}

fn now() -> DateTime<Utc> {
    Utc.with_ymd_and_hms(2026, 3, 1, 9, 0, 0).unwrap()
}

fn context(prepared: &Prepared) -> EvalContext {
    let now = now();
    EvalContext {
        now: ns(&now),
        horizons: prepared
            .due_keywords()
            .into_iter()
            .map(|keyword| (keyword, horizon_end(keyword, &now)))
            .collect(),
    }
}

fn due_tomorrow() -> i128 {
    ns(&Utc.with_ymd_and_hms(2026, 3, 2, 15, 0, 0).unwrap())
}

const CHILDREN: &[UnitText<'static>] = &[UnitText {
    title: "Check the fridge",
    notes: Some("bottom shelf"),
}];

fn task<'a>(due: Option<i128>, assignees: &'a [String]) -> SearchUnit<'a> {
    SearchUnit {
        project_id: "p-home",
        list_id: "l-inbox",
        title: "Buy milk",
        notes: Some("Semi-skimmed"),
        parent: None,
        children: CHILDREN,
        due,
        status: UnitStatus::NotStarted,
        assignees,
        tags: &["Shopping"],
    }
}

fn subtask<'a>(due: Option<i128>, assignees: &'a [String]) -> SearchUnit<'a> {
    SearchUnit {
        project_id: "p-home",
        list_id: "l-inbox",
        title: "Check the fridge",
        notes: Some("bottom shelf"),
        parent: Some(UnitText {
            title: "Buy milk",
            notes: Some("Semi-skimmed"),
        }),
        children: &[],
        due,
        status: UnitStatus::Completed,
        assignees,
        tags: &["Shopping"],
    }
}

fn matches(query: &str, unit: &SearchUnit<'_>) -> bool {
    let document = QueryDocument::from_text(query);
    let prepared = Prepared::new(&parse(&document), &index(), None);
    prepared.matches(unit, &context(&prepared))
}

#[test]
fn an_empty_or_half_typed_query_matches_everything() {
    let unit = task(None, &[]);
    for query in ["", "  ", "@", "#", "-", "@unknown", "(", "@to"] {
        assert!(matches(query, &unit), "{query:?}");
    }
}

#[test]
fn free_text_is_folded_and_reaches_the_notes() {
    let unit = task(None, &[]);
    assert!(matches("MILK", &unit));
    assert!(matches("ＳＫＩＭ", &unit));
    assert!(!matches("bread", &unit));
}

#[test]
fn and_or_not_and_groups_combine() {
    let unit = task(Some(due_tomorrow()), &[]);
    assert!(matches("@tomorrow milk", &unit));
    assert!(!matches("@today milk", &unit));
    assert!(matches("@today | milk", &unit));
    assert!(!matches("-milk", &unit));
    assert!(matches("(@today | @明日) -#work", &unit));
    assert!(!matches("(@today | bread) milk", &unit));
}

#[test]
fn an_unresolved_name_does_not_widen_an_or() {
    let unit = task(None, &[]);
    assert!(!matches("@nobody | bread", &unit));
}

#[test]
fn places_states_and_assignees_narrow_by_reference() {
    let assignees = ["u-yamada".to_string()];
    let unit = task(None, &assignees);
    assert!(matches("@Home", &unit));
    assert!(matches("@Home.Inbox", &unit));
    assert!(matches("@user:yamada", &unit));
    assert!(matches("@未完了", &unit));
    assert!(!matches("@完了", &unit));
    assert!(!matches("@仕事", &unit));
}

#[test]
fn fields_search_their_own_text() {
    let unit = task(None, &[]);
    assert!(matches("@task:milk", &unit));
    assert!(!matches("@note:milk", &unit));
    assert!(matches("@subtask:fridge", &unit));
    assert!(matches("@subtasknote:shelf", &unit));
    assert!(
        !matches("fridge", &unit),
        "a task no longer reaches into its subtasks"
    );
}

#[test]
fn a_subtask_inherits_place_tags_and_text_but_not_due_state_or_assignees() {
    let parent = task(Some(due_tomorrow()), &[]);
    let child = subtask(None, &[]);

    assert!(matches("@Home #shop milk fridge", &child));
    assert!(matches("@task:milk @subtask:fridge", &child));
    assert!(matches("@tomorrow", &parent));
    assert!(!matches("@tomorrow", &child));
    assert!(matches("@完了", &child));
    assert!(!matches("@完了", &parent));
}

#[test]
fn all_conditions_must_hold_within_one_unit() {
    let assignees = ["u-yamada".to_string()];
    let parent = task(Some(due_tomorrow()), &[]);
    let child = subtask(None, &assignees);

    assert!(!matches("@user:yamada @tomorrow", &parent));
    assert!(!matches("@user:yamada @tomorrow", &child));
}

#[test]
fn a_wildcard_matches_every_target_it_names() {
    let unit = task(None, &[]);
    assert!(matches("@project:h*", &unit));
    assert!(
        !matches("@project:仕*", &unit),
        "names only the 仕事 projects"
    );

    // A pattern naming nothing is ignored and reported, like any `@` word
    // naming nothing.
    let document = QueryDocument::from_text("@project:x* milk");
    let prepared = Prepared::new(&parse(&document), &index(), None);
    assert!(prepared.matches(&unit, &context(&prepared)));
    assert_eq!(prepared.unresolved, vec!["@project:x*".to_string()]);
}

#[test]
fn a_sub_day_keyword_is_measured_from_now() {
    assert_eq!(
        DueKeyword::parse("10分"),
        Some(DueKeyword::WithinMinutes { minutes: 10 })
    );
    assert_eq!(DueKeyword::parse("10minutes"), DueKeyword::parse("10分"));
    assert_eq!(
        DueKeyword::parse("1時間"),
        Some(DueKeyword::WithinMinutes { minutes: 60 })
    );
    assert_eq!(DueKeyword::parse("2hours"), DueKeyword::parse("120min"));

    // The boundary is exactly now plus the horizon, not the end of the day.
    let now = utc(2026, 3, 1, 9);
    let keyword = DueKeyword::parse("1hour").expect("`1hour` is a keyword");
    for (due, expected) in [
        (Utc.with_ymd_and_hms(2026, 3, 1, 9, 59, 0).unwrap(), true),
        (Utc.with_ymd_and_hms(2026, 3, 1, 10, 1, 0).unwrap(), false),
    ] {
        assert_eq!(
            keyword.matches(Some(ns(&due)), false, ns(&now), horizon_end(keyword, &now)),
            expected,
            "due {due} against now {now}"
        );
    }
}

#[test]
fn today_covers_the_whole_local_day_but_not_the_next() {
    let now = utc(2026, 3, 1, 9);
    let keyword = DueKeyword::parse("today").expect("`today` is a keyword");

    for (due, expected) in [
        (utc(2026, 3, 1, 23), true),
        (utc(2026, 2, 28, 8), true),
        (utc(2026, 3, 2, 0), false),
    ] {
        assert_eq!(
            keyword.matches(Some(ns(&due)), false, ns(&now), horizon_end(keyword, &now)),
            expected,
            "due {due} against now {now}"
        );
    }
}

#[test]
fn a_finished_task_is_never_overdue() {
    let now = ns(&utc(2026, 3, 1, 9));
    let due = ns(&utc(2026, 2, 1, 9));

    assert!(DueKeyword::Overdue.matches(Some(due), false, now, None));
    assert!(!DueKeyword::Overdue.matches(Some(due), true, now, None));
}

#[test]
fn a_task_without_a_due_date_matches_no_filter() {
    let now = utc(2026, 3, 1, 9);

    for keyword in [DueKeyword::Overdue, DueKeyword::Within { days: 365 }] {
        assert!(!keyword.matches(None, false, ns(&now), horizon_end(keyword, &now)));
    }
}

#[test]
fn the_horizons_asked_for_are_those_of_the_query() {
    let document = QueryDocument::from_text("(@today | @期限切れ) @10分 -@week");
    let prepared = Prepared::new(&parse(&document), &index(), None);
    assert_eq!(
        prepared.due_keywords(),
        vec![
            DueKeyword::Within { days: 1 },
            DueKeyword::WithinMinutes { minutes: 10 },
            DueKeyword::Within { days: 7 },
        ]
    );
}

#[test]
fn a_horizon_missing_from_the_context_matches_nothing() {
    let unit = task(Some(due_tomorrow()), &[]);
    let document = QueryDocument::from_text("@tomorrow");
    let prepared = Prepared::new(&parse(&document), &index(), None);
    let empty = EvalContext {
        now: ns(&now()),
        horizons: Vec::new(),
    };
    assert!(!prepared.matches(&unit, &empty));
    assert!(prepared.matches(&unit, &context(&prepared)));
}
