use flequit_ui::viewmodels::recurrence::model::{RecurrenceRule, RecurrenceUnit};
use flequit_ui::adapters::task::{to_task_item, TaskPriority};
use flequit_ui::viewmodels::app::new_subtask;
use flequit_ui::viewmodels::runtime_store::{
    RuntimeStore, StoreList, StoreProject, TaskPatch, TaskRecord, TaskStatus,
};

struct Ids {
    project: String,
    list: String,
    task: String,
    user: String,
    now: i128,
}

fn new_ids() -> Ids {
    Ids {
        project: uuid::Uuid::new_v4().to_string(),
        list: uuid::Uuid::new_v4().to_string(),
        task: uuid::Uuid::new_v4().to_string(),
        user: uuid::Uuid::new_v4().to_string(),
        now: chrono::Utc::now().timestamp_nanos_opt().unwrap() as i128,
    }
}

fn trees(ids: &Ids) -> Vec<StoreProject> {
    let task = TaskRecord {
        id: ids.task.clone(),
        list_id: ids.list.clone(),
        title: "original".to_string(),
        description: None,
        status: TaskStatus::NotStarted,
        priority: 0,
        plan_start_date: None,
        plan_end_date: None,
        do_start_date: None,
        do_end_date: None,
        is_range_date: None,
        recurrence_rule: None,
        reminders: Vec::new(),
        order_index: 0,
        is_archived: false,
        assigned_user_ids: Vec::new(),
        tag_ids: Vec::new(),
        created_at: ids.now,
        updated_at: ids.now,
        deleted: false,
        updated_by: ids.user.clone(),
    };
    let list = StoreList {
        id: ids.list.clone(),
        tasks: vec![task],
    };
    vec![StoreProject {
        id: ids.project.clone(),
        task_lists: vec![list],
    }]
}

fn store_with_one_task() -> (RuntimeStore, String, Ids) {
    let ids = new_ids();
    let store = RuntimeStore::new(trees(&ids));
    (store, ids.task.clone(), ids)
}

fn status(status: TaskStatus) -> TaskPatch {
    TaskPatch {
        status: Some(status),
        ..TaskPatch::default()
    }
}

fn title(title: &str) -> TaskPatch {
    TaskPatch {
        title: Some(title.to_string()),
        ..TaskPatch::default()
    }
}

#[test]
fn failed_mutation_does_not_erase_a_later_committed_mutation() {
    let (mut store, task_id, _) = store_with_one_task();
    let failed = store
        .begin_task_mutation(&task_id, status(TaskStatus::Completed))
        .expect("task exists");
    let committed = store
        .begin_task_mutation(&task_id, title("new title"))
        .expect("task exists");

    assert!(store.resolve_task_mutation(&task_id, committed, true));
    assert!(store.resolve_task_mutation(&task_id, failed, false));

    let task = store.find_task(&task_id).expect("task remains visible");
    assert_eq!(task.status, TaskStatus::NotStarted);
    assert_eq!(task.title, "new title");
}

#[test]
fn later_change_to_the_same_field_wins_after_an_older_failure() {
    let (mut store, task_id, _) = store_with_one_task();
    let failed = store
        .begin_task_mutation(&task_id, title("discarded"))
        .expect("task exists");
    let committed = store
        .begin_task_mutation(&task_id, title("kept"))
        .expect("task exists");

    assert!(store.resolve_task_mutation(&task_id, committed, true));
    assert!(store.resolve_task_mutation(&task_id, failed, false));

    assert_eq!(
        store.find_task(&task_id).map(|task| task.title.as_str()),
        Some("kept")
    );
}

#[test]
fn a_later_failure_is_hidden_while_an_older_mutation_is_still_pending() {
    let (mut store, task_id, _) = store_with_one_task();
    let pending = store
        .begin_task_mutation(&task_id, status(TaskStatus::Completed))
        .expect("task exists");
    let failed = store
        .begin_task_mutation(&task_id, title("discarded"))
        .expect("task exists");

    assert!(store.resolve_task_mutation(&task_id, failed, false));
    let task = store.find_task(&task_id).expect("task remains visible");
    assert_eq!(task.status, TaskStatus::Completed);
    assert_eq!(task.title, "original");

    assert!(store.resolve_task_mutation(&task_id, pending, true));
}

#[test]
fn reload_reapplies_pending_mutations_over_persisted_data() {
    let (mut store, task_id, ids) = store_with_one_task();
    let reloaded = trees(&ids);
    store
        .begin_task_mutation(&task_id, status(TaskStatus::Completed))
        .expect("task exists");

    store.replace_trees(reloaded);

    assert_eq!(
        store.find_task(&task_id).map(|task| &task.status),
        Some(&TaskStatus::Completed)
    );
}

#[test]
fn an_edit_is_shown_as_soon_as_it_begins() {
    let (mut store, task_id, _) = store_with_one_task();
    store
        .begin_task_mutation(&task_id, title("typed"))
        .expect("task exists");

    let task = store.find_task(&task_id).expect("task remains visible");
    assert_eq!(task.title, "typed");
    assert_eq!(task.status, TaskStatus::NotStarted);
}

#[test]
fn an_unknown_task_cannot_be_edited() {
    let (mut store, _, _) = store_with_one_task();

    assert_eq!(store.begin_task_mutation("missing", title("x")), None);
}

#[test]
fn an_unknown_edit_cannot_be_resolved() {
    let (mut store, task_id, _) = store_with_one_task();

    assert!(!store.resolve_task_mutation(&task_id, 7, true));
    let id = store
        .begin_task_mutation(&task_id, title("a"))
        .expect("task exists");
    assert!(!store.resolve_task_mutation(&task_id, id.wrapping_add(1), true));
    assert!(!store.resolve_task_mutation("missing", id, true));
    assert!(store.resolve_task_mutation(&task_id, id, true));
    assert!(!store.resolve_task_mutation(&task_id, id, true));
}

#[test]
fn a_lone_failed_edit_restores_the_committed_value() {
    let (mut store, task_id, _) = store_with_one_task();
    let id = store
        .begin_task_mutation(&task_id, title("typed"))
        .expect("task exists");

    assert!(store.resolve_task_mutation(&task_id, id, false));
    assert_eq!(store.find_task(&task_id).unwrap().title, "original");
}

#[test]
fn a_reload_without_edits_in_flight_shows_what_was_read() {
    let (mut store, task_id, ids) = store_with_one_task();
    let id = store
        .begin_task_mutation(&task_id, title("typed"))
        .expect("task exists");
    assert!(store.resolve_task_mutation(&task_id, id, true));

    store.replace_trees(trees(&ids));
    assert_eq!(store.find_task(&task_id).unwrap().title, "original");
}

#[test]
fn edits_applied_over_a_reloaded_value() {
    let (mut store, task_id, ids) = store_with_one_task();
    store
        .begin_task_mutation(&task_id, status(TaskStatus::Waiting))
        .expect("task exists");

    let mut reloaded = trees(&ids);
    reloaded[0].task_lists[0].tasks[0].title = "renamed elsewhere".to_string();
    store.replace_trees(reloaded);

    let task = store.find_task(&task_id).unwrap();
    assert_eq!(task.title, "renamed elsewhere");
    assert_eq!(task.status, TaskStatus::Waiting);
}

#[test]
fn a_task_row_counts_its_finished_subtasks_and_knows_when_it_is_late() {
    let ids = new_ids();
    let mut trees = trees(&ids);
    let mut task = trees[0].task_lists[0].tasks.remove(0);
    task.priority = 4;
    task.plan_end_date = Some(ids.now - 1);
    task.description = Some("by noon".to_string());
    let mut done = new_subtask(&task.id, "Pick up bread".to_string(), 0, &ids.user, "s1", ids.now);
    done.completed = true;
    let open = new_subtask(&task.id, "Pay".to_string(), 1, &ids.user, "s2", ids.now);

    let item = to_task_item(&task, &vec![done, open], false, ids.now, "today", vec!["home".to_string()]);

    assert_eq!(item.title, "original");
    assert_eq!(item.priority, TaskPriority::Medium);
    assert!(!item.completed);
    assert!(item.overdue);
    assert!(item.has_due);
    assert_eq!(item.due_label, "today");
    assert_eq!(item.notes, "by noon");
    assert_eq!(item.tag_labels, ["home"]);
    assert_eq!((item.subtask_count, item.subtask_done_count), (2, 1));
    assert_eq!(item.subtasks[1].title, "Pay");

    task.status = TaskStatus::Completed;
    task.plan_end_date = None;
    let item = to_task_item(&task, &vec![], true, ids.now, "ignored", vec![]);
    assert!(item.completed && !item.overdue && !item.has_due);
    assert_eq!(item.due_label, "");
    assert!(item.expanded);
}

#[test]
fn an_edit_can_set_and_clear_the_repeat_rule_and_the_reminders() {
    let (mut store, task_id, ids) = store_with_one_task();
    let rule = RecurrenceRule {
        id: "r1".to_string(),
        unit: RecurrenceUnit::Week,
        interval: 1,
        days_of_week: None,
        details: None,
        adjustment: None,
        end_date: None,
        max_occurrences: None,
        created_at: ids.now,
        updated_at: ids.now,
        deleted: false,
        updated_by: ids.user.clone(),
    };
    let set = store
        .begin_task_mutation(
            &task_id,
            TaskPatch {
                recurrence_rule: Some(Some(rule.clone())),
                reminders: Some(vec![ids.now + 60]),
                ..TaskPatch::default()
            },
        )
        .expect("task exists");
    assert!(store.resolve_task_mutation(&task_id, set, true));
    let task = store.find_task(&task_id).unwrap();
    assert_eq!(task.recurrence_rule, Some(rule));
    assert_eq!(task.reminders, [ids.now + 60]);

    let clear = store
        .begin_task_mutation(
            &task_id,
            TaskPatch {
                recurrence_rule: Some(None),
                ..TaskPatch::default()
            },
        )
        .expect("task exists");
    assert!(store.resolve_task_mutation(&task_id, clear, true));
    let task = store.find_task(&task_id).unwrap();
    assert_eq!(task.recurrence_rule, None);
    assert_eq!(task.reminders, [ids.now + 60]);
}
