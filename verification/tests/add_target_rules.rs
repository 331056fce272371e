use flequit_ui::search::eval::Prepared;
use flequit_ui::search::resolve::Reference;
use flequit_ui::search::vocabulary::StatusKey;
use flequit_ui::search::session::SearchSession;
use flequit_ui::search::vocabulary::Lang;
use flequit_ui::adapters::project::to_project_item;
use flequit_ui::adapters::tag::Tag;
use flequit_ui::viewmodels::app::query::{
    add_target_items, build_index, default_add_target, live_tasks, note_task_added,
    count_listed, evaluate_units, project_of_subtask, tag_names, task_with_project, reminder_specs_from_trees, row_listing, settle_add_target, subtask_status,
    tag_in_project, tag_names_of, unit_status, new_task_plan, AddTargetState, ListInfo, ProjectInfo, RowListing,
    TaskInfo,
};
use flequit_ui::search::eval::{EvalContext, SearchUnit, UnitText};
use flequit_ui::viewmodels::runtime_store::TaskStatus;

fn new_id() -> String {
    uuid::Uuid::new_v4().to_string()
}

fn task_named(title: &str) -> TaskInfo {
    TaskInfo {
        id: new_id(),
        title: title.to_string(),
        deleted: false,
        is_archived: false,
        reminders: Vec::new(),
        tag_ids: Vec::new(),
        subtask_ids: Vec::new(),
    }
}

fn list_named(name: &str, tasks: Vec<TaskInfo>) -> ListInfo {
    ListInfo {
        id: new_id(),
        project_id: String::new(),
        name: name.to_string(),
        deleted: false,
        is_archived: false,
        tasks,
    }
}

fn project_named(name: &str, lists: Vec<ListInfo>) -> ProjectInfo {
    let id = new_id();
    ProjectInfo {
        lists: lists
            .into_iter()
            .map(|list| ListInfo {
                project_id: id.clone(),
                ..list
            })
            .collect(),
        id,
        name: name.to_string(),
        color: None,
        deleted: false,
        is_archived: false,
    }
}

/// Work (Inbox, Later) and Home (Errands), with list ids pointing back at
/// their projects as loaded data does.
fn trees() -> Vec<ProjectInfo> {
    vec![
        project_named(
            "Work",
            vec![
                list_named("Inbox", vec![task_named("Buy milk")]),
                list_named("Later", vec![]),
            ],
        ),
        project_named("Home", vec![list_named("Errands", vec![])]),
    ]
}

fn list_id(trees: &[ProjectInfo], name: &str) -> String {
    trees
        .iter()
        .flat_map(|tree| tree.lists.iter())
        .find(|list| list.name == name)
        .map(|list| list.id.clone())
        .expect("the list exists")
}

fn search(trees: &Vec<ProjectInfo>, canonical: &str) -> SearchSession {
    let index = build_index(trees, Vec::new());
    let mut session = SearchSession::default();
    session.restore(canonical, &index, Lang::En);
    session
}

fn default_for(trees: &Vec<ProjectInfo>, session: &SearchSession, recent: &Vec<String>) -> Option<String> {
    default_add_target(&session.strong_references(), trees, false, recent)
}

#[test]
fn the_destination_follows_what_the_query_narrows_to() {
    let trees = trees();
    let later = list_id(&trees, "Later");
    let errands = list_id(&trees, "Errands");
    let inbox = list_id(&trees, "Inbox");
    let mut recent: Vec<String> = Vec::new();

    let session = search(&trees, &format!("@list:{{{later}}} milk"));
    assert_eq!(default_for(&trees, &session, &recent), Some(later.clone()));

    let home = trees[1].id.clone();
    let session = search(&trees, &format!("@project:{{{home}}}"));
    assert_eq!(default_for(&trees, &session, &recent), Some(errands.clone()));

    // Two lists OR-ed together narrow to neither.
    let session = search(&trees, &format!("@list:{{{later}}} | @list:{{{errands}}}"));
    recent = vec![errands.clone()];
    assert_eq!(default_for(&trees, &session, &recent), Some(errands));

    recent.clear();
    assert_eq!(default_for(&trees, &session, &recent), Some(inbox));
}

#[test]
fn a_hand_picked_destination_lasts_until_the_query_moves_the_default() {
    let trees = trees();
    let later = list_id(&trees, "Later");
    let errands = list_id(&trees, "Errands");
    let mut state = AddTargetState::default();

    let session = SearchSession::default();
    let default = default_for(&trees, &session, &state.recent_add_targets);
    state.add_target_override = Some((errands.clone(), default));
    settle_add_target(&mut state, &session.strong_references(), &trees, false, "");
    assert_eq!(state.add_target.as_deref(), Some(errands.as_str()));

    let session = search(&trees, &format!("@list:{{{later}}}"));
    settle_add_target(&mut state, &session.strong_references(), &trees, false, "");
    assert_eq!(state.add_target.as_deref(), Some(later.as_str()));
    assert!(state.add_target_override.is_none());
    assert_eq!(state.context_project_id, trees[0].id);
}

#[test]
fn the_tag_manager_follows_the_selected_task_without_a_query() {
    let trees = trees();
    let task = trees[0].lists[0].tasks[0].id.clone();
    let mut state = AddTargetState::default();

    settle_add_target(&mut state, &Vec::new(), &trees, false, &task);
    assert_eq!(state.context_project_id, trees[0].id);
    // With nothing picked and nothing recent, the first list is the destination.
    assert_eq!(state.add_target, Some(list_id(&trees, "Inbox")));
}

#[test]
fn an_added_task_moves_its_list_to_the_front_of_the_recent_ones() {
    let mut recent = vec!["a".to_string(), "b".to_string(), "c".to_string()];

    note_task_added(&mut recent, "c", 3);
    assert_eq!(recent, ["c", "a", "b"]);

    note_task_added(&mut recent, "d", 3);
    assert_eq!(recent, ["d", "c", "a"]);

    note_task_added(&mut recent, "a", 2);
    assert_eq!(recent, ["a", "d"]);
}

#[test]
fn archived_and_deleted_lists_take_no_tasks() {
    let mut trees = trees();
    trees[0].lists[0].is_archived = true;
    trees[0].lists[1].deleted = true;

    let session = search(&trees, "");
    assert_eq!(
        default_for(&trees, &session, &Vec::new()),
        Some(list_id(&trees, "Errands"))
    );

    trees[1].is_archived = true;
    assert_eq!(default_for(&trees, &session, &Vec::new()), None);
    assert_eq!(
        default_add_target(&Vec::new(), &trees, true, &Vec::new()),
        Some(list_id(&trees, "Errands"))
    );
}

#[test]
fn the_picker_lists_recent_destinations_first_and_filters_by_name() {
    let mut trees = trees();
    trees[1].color = Some("#40c057".to_string());
    let errands = list_id(&trees, "Errands");
    let recent = vec![errands.clone(), "gone".to_string()];

    let items = add_target_items(&trees, false, &recent, "");
    let names: Vec<(&str, bool)> = items
        .iter()
        .map(|item| (item.list_name.as_str(), item.recent))
        .collect();
    assert_eq!(names, [("Errands", true), ("Inbox", false), ("Later", false)]);
    assert!(items[0].has_color);
    assert_eq!(items[0].color_brush.green, 0xc0);
    assert!(!items[1].has_color);

    let items = add_target_items(&trees, false, &recent, "ＷＯＲＫ");
    let names: Vec<&str> = items.iter().map(|item| item.list_name.as_str()).collect();
    assert_eq!(names, ["Inbox", "Later"]);
}

#[test]
fn the_index_holds_every_project_but_only_lists_that_take_tasks() {
    let mut trees = trees();
    trees[0].lists[1].is_archived = true;
    trees[1].deleted = true;

    let index = build_index(&trees, Vec::new());
    let session = {
        let mut session = SearchSession::default();
        session.restore(&format!("@project:{{{}}}", trees[0].id), &index, Lang::En);
        session
    };
    assert_eq!(session.canonical(), format!("@project:{{{}}}", trees[0].id));
}

fn tag(name: &str, deleted: bool) -> Tag {
    Tag {
        id: new_id(),
        name: name.to_string(),
        color: None,
        order_index: Some(0),
        created_at: 0,
        updated_at: 0,
        deleted,
        updated_by: new_id(),
    }
}

#[test]
fn tag_ids_the_cache_does_not_know_are_dropped_rather_than_shown() {
    let known = tag("home", false);
    let unknown = new_id();
    let names = vec![(known.id.clone(), known.name.clone())];

    let task_tags = vec![known.id.clone(), unknown];

    // The cache is filled by the same load that produces the rows, so a
    // missing name means the id is stale, not that the label is blank.
    assert_eq!(tag_names_of(&names, &task_tags), ["home"]);
}

#[test]
fn a_tag_is_only_found_in_the_project_that_owns_it() {
    let owner = new_id();
    let other = new_id();
    let home = tag("home", false);
    let tags_by_project = vec![(owner.clone(), vec![home.clone()])];

    assert_eq!(
        tag_in_project(&tags_by_project, &owner, &home.id).map(|tag| tag.id.clone()),
        Some(home.id.clone())
    );
    assert!(tag_in_project(&tags_by_project, &other, &home.id).is_none());
}

#[test]
fn a_deleted_tag_is_not_writable() {
    let project_id = new_id();
    let gone = tag("home", true);
    let tags_by_project = vec![(project_id.clone(), vec![gone.clone()])];

    assert!(tag_in_project(&tags_by_project, &project_id, &gone.id).is_none());
}

#[test]
fn every_live_task_is_a_candidate_and_hidden_ones_are_not() {
    let mut project = project_named(
        "Work",
        vec![
            list_named(
                "Inbox",
                vec![
                    task_named("Buy milk"),
                    TaskInfo {
                        deleted: true,
                        ..task_named("Deleted")
                    },
                    TaskInfo {
                        is_archived: true,
                        ..task_named("Archived")
                    },
                ],
            ),
            list_named("Later", vec![task_named("Someday")]),
        ],
    );
    project.lists[1].is_archived = true;
    let mut archived = project_named("Old", vec![list_named("Errands", vec![task_named("Shelved")])]);
    archived.is_archived = true;
    let other = project_named("Home", vec![list_named("Errands", vec![task_named("Milk")])]);

    let trees = vec![project, archived, other];
    let titles = |show: bool| -> Vec<String> {
        live_tasks(&trees, show)
            .into_iter()
            .map(|(p, l, t)| trees[p].lists[l].tasks[t].title.clone())
            .collect()
    };

    // The query decides what is listed; only deleted or archived rows are
    // out of reach, and archived projects only while they are hidden.
    assert_eq!(titles(false), ["Buy milk", "Milk"]);
    assert_eq!(titles(true), ["Buy milk", "Shelved", "Milk"]);
}

#[test]
fn reminders_are_only_collected_from_rows_that_still_exist() {
    let due = chrono::Utc::now().timestamp() as i128 * 1_000_000_000;
    let live = TaskInfo {
        reminders: vec![due],
        ..task_named("Call the dentist")
    };
    let live_id = live.id.clone();
    let removed = TaskInfo {
        deleted: true,
        reminders: vec![due],
        ..task_named("Cancelled")
    };
    let hidden_list = ListInfo {
        deleted: true,
        ..list_named(
            "Gone",
            vec![TaskInfo {
                reminders: vec![due],
                ..task_named("In a deleted list")
            }],
        )
    };
    let trees = vec![project_named(
        "Work",
        vec![list_named("Inbox", vec![live, removed]), hidden_list],
    )];

    let specs = reminder_specs_from_trees(&trees);

    assert_eq!(
        specs,
        vec![(live_id, "Call the dentist".to_string(), due)],
        "a reminder on a row the user deleted must not still fire"
    );
}

#[test]
fn a_sidebar_row_counts_only_the_tasks_still_listed() {
    let mut trees = trees();
    trees[0].lists[0].tasks.push(TaskInfo {
        is_archived: true,
        ..task_named("Shelved")
    });
    trees[0].lists[0].tasks.push(task_named("Call back"));
    trees[0].lists[1].deleted = true;
    trees[0].color = Some("teal".to_string());

    let item = to_project_item(&trees[0], true);

    assert_eq!(item.name, "Work");
    assert_eq!(item.short_label, "Wo");
    assert!(!item.has_color);
    assert_eq!(item.color, "");
    assert!(item.expanded);
    let lists: Vec<(&str, i32)> = item
        .task_lists
        .iter()
        .map(|list| (list.name.as_str(), list.task_count))
        .collect();
    assert_eq!(lists, [("Inbox", 2)]);
}

#[test]
fn a_task_is_listed_for_a_subtask_that_matches_on_its_own() {
    let trees = trees();
    let index = build_index(&trees, Vec::new());
    let project_id = trees[0].id.clone();
    let list_id = trees[0].lists[0].id.clone();
    let subtask_id = new_id();
    let children = [UnitText {
        title: "Check the fridge",
        notes: None,
    }];
    let no_one: Vec<String> = Vec::new();
    let no_tags: Vec<&str> = Vec::new();
    let task = SearchUnit {
        project_id: &project_id,
        list_id: &list_id,
        title: "Buy milk",
        notes: None,
        parent: None,
        children: &children,
        due: None,
        status: unit_status(&TaskStatus::NotStarted),
        assignees: &no_one,
        tags: &no_tags,
    };
    // The legacy `completed` flag counts as done even while the status lags.
    let subtask = SearchUnit {
        project_id: &project_id,
        list_id: &list_id,
        title: "Check the fridge",
        notes: None,
        parent: Some(UnitText {
            title: "Buy milk",
            notes: None,
        }),
        children: &[],
        due: None,
        status: subtask_status(&TaskStatus::NotStarted, true),
        assignees: &no_one,
        tags: &no_tags,
    };
    let subtasks = vec![(subtask_id.clone(), subtask)];
    let context = EvalContext {
        now: 0,
        horizons: Vec::new(),
    };
    let query = |text: &str| {
        let mut session = SearchSession::default();
        session.restore(text, &index, Lang::En);
        session.prepared(&index)
    };

    assert_eq!(
        evaluate_units(&query("@done"), &context, &task, &subtasks),
        (false, vec![subtask_id.clone()])
    );
    // The subtask inherits its parent's text, so both match.
    assert_eq!(
        evaluate_units(&query("milk"), &context, &task, &subtasks),
        (true, vec![subtask_id])
    );
    assert_eq!(
        evaluate_units(&query("@open fridge"), &context, &task, &subtasks),
        (false, vec![])
    );
}

#[test]
fn a_row_listed_only_for_its_subtasks_is_dimmed_and_opened() {
    assert_eq!(row_listing(false, 0, false, true, false), None);
    assert_eq!(
        row_listing(false, 2, false, true, false),
        Some(RowListing {
            dimmed: true,
            expanded: true,
            matched_subtask_count: 2
        })
    );
    assert_eq!(
        row_listing(true, 2, false, true, false),
        Some(RowListing {
            dimmed: false,
            expanded: false,
            matched_subtask_count: 0
        })
    );
    // A task just added stays listed, undimmed, whatever the query says.
    assert_eq!(
        row_listing(false, 0, true, true, true),
        Some(RowListing {
            dimmed: false,
            expanded: true,
            matched_subtask_count: 0
        })
    );
}

#[test]
fn a_filter_button_counts_rows_listed_for_their_task_or_a_subtask() {
    let no_one: Vec<String> = Vec::new();
    let no_tags: Vec<&str> = Vec::new();
    let unit = |title: &'static str, status| SearchUnit {
        project_id: "p",
        list_id: "l",
        title,
        notes: None,
        parent: None,
        children: &[],
        due: None,
        status,
        assignees: &no_one,
        tags: &no_tags,
    };
    let open = unit("Open task", unit_status(&TaskStatus::NotStarted));
    let done = unit("Done task", unit_status(&TaskStatus::Completed));
    let done_sub = unit("Done subtask", subtask_status(&TaskStatus::InProgress, true));
    let rows = vec![
        (open, vec![("s1".to_string(), done_sub)]),
        (done, vec![]),
        (open, vec![]),
    ];
    let context = EvalContext {
        now: 0,
        horizons: Vec::new(),
    };

    let done_query = Prepared::single(Reference::Status(StatusKey::parse("done").unwrap()));
    assert_eq!(count_listed(&done_query, &context, &rows), 2);
    let open_query = Prepared::single(Reference::Status(StatusKey::parse("open").unwrap()));
    assert_eq!(count_listed(&open_query, &context, &rows), 2);
}

#[test]
fn tasks_and_subtasks_are_found_with_their_project() {
    let mut trees = trees();
    let sub = new_id();
    trees[1].lists[0].tasks.push(TaskInfo {
        subtask_ids: vec![sub.clone()],
        ..task_named("Post a letter")
    });
    let letter = trees[1].lists[0].tasks[0].id.clone();

    assert_eq!(project_of_subtask(&trees, &sub), Some(trees[1].id.clone()));
    assert_eq!(project_of_subtask(&trees, "nothing"), None);
    assert_eq!(task_with_project(&trees, &letter), Some((1, 0, 0)));
    let milk = trees[0].lists[0].tasks[0].id.clone();
    assert_eq!(task_with_project(&trees, &milk), Some((0, 0, 0)));
    assert_eq!(task_with_project(&trees, "nothing"), None);
}

#[test]
fn the_tag_words_leave_deleted_tags_out() {
    let tags = vec![
        (new_id(), vec![tag("home", false), tag("old", true)]),
        (new_id(), vec![tag("work", false)]),
    ];

    assert_eq!(tag_names(&tags), ["home", "work"]);
}

#[test]
fn a_new_task_is_ordered_after_the_tasks_its_list_holds() {
    let trees = trees();
    let inbox = list_id(&trees, "Inbox");
    let errands = list_id(&trees, "Errands");

    assert_eq!(
        new_task_plan(&trees, &inbox, "  Call mum "),
        Some(("Call mum".to_string(), 1))
    );
    assert_eq!(new_task_plan(&trees, &errands, "Post"), Some(("Post".to_string(), 0)));
    assert_eq!(new_task_plan(&trees, "no-such-list", "Post"), Some(("Post".to_string(), 0)));
    assert_eq!(new_task_plan(&trees, &inbox, "   "), None);
    assert_eq!(new_task_plan(&trees, "", "Post"), None);
}
