use chrono::{TimeZone, Utc};
use flequit_ui::viewmodels::ordering::tree::{
    move_task_to_list, normalize, reorder_task, ProjectNode, TaskEntry, TaskListNode,
};
use flequit_ui::viewmodels::ordering::{compare, insertion_index, SortKeys, TaskSort};

fn new_id() -> String {
    uuid::Uuid::new_v4().to_string()
}

fn keys(title: &str, priority: i32, due: Option<i128>) -> (String, SortKeys) {
    (
        title.to_string(),
        SortKeys {
            due,
            priority,
            title: title.to_string(),
        },
    )
}

fn due(day: u32) -> Option<i128> {
    let t = Utc.with_ymd_and_hms(2026, 4, day, 12, 0, 0).unwrap();
    Some(t.timestamp() as i128 * 1_000_000_000)
}

fn sorted(mut tasks: Vec<(String, SortKeys)>, sort: TaskSort) -> Vec<String> {
    tasks.sort_by(|a, b| compare(&a.1, &b.1, sort));
    tasks.into_iter().map(|(title, _)| title).collect()
}

#[test]
fn the_manual_order_is_left_alone() {
    let tasks = vec![keys("c", 9, due(1)), keys("a", 0, None), keys("b", 3, due(2))];

    assert_eq!(sorted(tasks, TaskSort::Manual), ["c", "a", "b"]);
}

#[test]
fn due_dates_come_first_and_undated_tasks_last() {
    let tasks = vec![keys("none", 0, None), keys("late", 0, due(9)), keys("soon", 0, due(2))];

    assert_eq!(sorted(tasks, TaskSort::Due), ["soon", "late", "none"]);
}

#[test]
fn the_highest_priority_comes_first() {
    let tasks = vec![keys("low", 1, None), keys("high", 9, None), keys("mid", 4, None)];

    assert_eq!(sorted(tasks, TaskSort::Priority), ["high", "mid", "low"]);
}

#[test]
fn titles_are_compared_without_case() {
    let tasks = vec![keys("banana", 0, None), keys("Apple", 0, None)];

    assert_eq!(sorted(tasks, TaskSort::Title), ["Apple", "banana"]);
}

#[test]
fn equal_tasks_keep_their_stored_order() {
    let tasks = vec![keys("first", 5, due(1)), keys("second", 5, due(1))];

    assert_eq!(sorted(tasks.clone(), TaskSort::Priority), ["first", "second"]);
    assert_eq!(sorted(tasks, TaskSort::Due), ["first", "second"]);
}

#[test]
fn a_drop_lands_after_the_row_above_it() {
    let ids: Vec<String> = (0..3).map(|_| new_id()).collect();

    assert_eq!(insertion_index(&ids, Some(&ids[0]), Some(&ids[1])), 1);
    assert_eq!(insertion_index(&ids, Some(&ids[2]), None), 3);
}

#[test]
fn a_drop_at_the_top_lands_before_the_row_below_it() {
    let ids: Vec<String> = (0..3).map(|_| new_id()).collect();

    assert_eq!(insertion_index(&ids, None, Some(&ids[0])), 0);
}

#[test]
fn a_drop_with_no_visible_neighbour_lands_at_the_end() {
    let ids: Vec<String> = (0..3).map(|_| new_id()).collect();
    let hidden = new_id();

    assert_eq!(insertion_index(&ids, Some(&hidden), Some(&hidden)), 3);
    assert_eq!(insertion_index(&ids, None, None), 3);
}

fn task(list_id: &str, title: &str, order: i32) -> TaskEntry {
    TaskEntry {
        id: new_id(),
        list_id: list_id.to_string(),
        title: title.to_string(),
        order_index: order,
    }
}

fn list(id: &str, tasks: Vec<TaskEntry>) -> TaskListNode {
    TaskListNode {
        id: id.to_string(),
        tasks,
    }
}

fn project(lists: Vec<TaskListNode>) -> ProjectNode {
    ProjectNode {
        id: new_id(),
        task_lists: lists,
    }
}

/// One project, one list of three tasks named a, b, c.
fn one_list() -> Vec<ProjectNode> {
    let list_id = new_id();
    let tasks = vec![
        task(&list_id, "a", 0),
        task(&list_id, "b", 1),
        task(&list_id, "c", 2),
    ];
    vec![project(vec![list(&list_id, tasks)])]
}

fn titles(trees: &[ProjectNode], list_index: usize) -> Vec<&str> {
    trees[0].task_lists[list_index]
        .tasks
        .iter()
        .map(|task| task.title.as_str())
        .collect()
}

fn id_of(trees: &[ProjectNode], list_index: usize, title: &str) -> String {
    trees[0].task_lists[list_index]
        .tasks
        .iter()
        .find(|task| task.title == title)
        .expect("the task exists")
        .id
        .clone()
}

#[test]
fn normalizing_puts_a_list_back_into_stored_order() {
    let mut trees = one_list();
    trees[0].task_lists[0].tasks.reverse();

    normalize(&mut trees);

    assert_eq!(titles(&trees, 0), ["a", "b", "c"]);
}

#[test]
fn a_task_dropped_below_another_lands_after_it() {
    let mut trees = one_list();
    let a = id_of(&trees, 0, "a");
    let c_id = id_of(&trees, 0, "c");

    let (_, updates) = reorder_task(&mut trees, &c_id, Some(&a), None).expect("the task moved");

    assert_eq!(titles(&trees, 0), ["a", "c", "b"]);
    // Only the two tasks that changed places are written back.
    assert_eq!(updates.len(), 2);
    assert!(updates.iter().all(|(_, patch)| patch.order_index.is_some()));
}

#[test]
fn a_task_dropped_at_the_top_lands_first() {
    let mut trees = one_list();
    let a = id_of(&trees, 0, "a");
    let c_id = id_of(&trees, 0, "c");

    reorder_task(&mut trees, &c_id, None, Some(&a)).expect("the task moved");

    assert_eq!(titles(&trees, 0), ["c", "a", "b"]);
    let orders: Vec<i32> = trees[0].task_lists[0]
        .tasks
        .iter()
        .map(|task| task.order_index)
        .collect();
    assert_eq!(orders, [0, 1, 2]);
}

#[test]
fn reordering_an_unknown_task_changes_nothing() {
    let mut trees = one_list();

    assert!(reorder_task(&mut trees, &new_id(), None, None).is_none());
    assert_eq!(titles(&trees, 0), ["a", "b", "c"]);
}

#[test]
fn moving_to_another_list_appends_and_records_the_list() {
    let source_id = new_id();
    let target_id = new_id();
    let mut trees = vec![project(vec![
        list(
            &source_id,
            vec![task(&source_id, "a", 0), task(&source_id, "b", 1)],
        ),
        list(&target_id, vec![task(&target_id, "z", 0)]),
    ])];
    let moved = id_of(&trees, 0, "a");

    let (_, updates) = move_task_to_list(&mut trees, &moved, &target_id).expect("the task moved");

    assert_eq!(titles(&trees, 0), ["b"]);
    assert_eq!(titles(&trees, 1), ["z", "a"]);
    let (_, patch) = updates
        .iter()
        .find(|(_, patch)| patch.list_id.is_some())
        .expect("the move is recorded");
    assert_eq!(patch.list_id, Some(target_id.clone()));
    assert_eq!(patch.order_index, Some(1));
    assert_eq!(trees[0].task_lists[1].tasks[1].list_id, target_id);
}

#[test]
fn moving_to_the_list_it_is_already_in_changes_nothing() {
    let mut trees = one_list();
    let list_id = trees[0].task_lists[0].id.clone();
    let moved = id_of(&trees, 0, "a");

    assert!(move_task_to_list(&mut trees, &moved, &list_id).is_none());
    assert_eq!(titles(&trees, 0), ["a", "b", "c"]);
}

#[test]
fn a_list_in_another_project_is_not_a_valid_target() {
    let mut trees = one_list();
    let moved = id_of(&trees, 0, "a");

    assert!(move_task_to_list(&mut trees, &moved, &new_id()).is_none());
    assert_eq!(titles(&trees, 0), ["a", "b", "c"]);
}

#[test]
fn a_target_that_is_no_id_is_refused() {
    let mut trees = one_list();
    let moved = id_of(&trees, 0, "a");

    assert!(move_task_to_list(&mut trees, &moved, "inbox").is_none());
    assert_eq!(titles(&trees, 0), ["a", "b", "c"]);
}

#[test]
fn an_upper_case_target_names_the_same_list() {
    let source_id = new_id();
    let target_id = new_id();
    let mut trees = vec![project(vec![
        list(&source_id, vec![task(&source_id, "a", 0)]),
        list(&target_id, Vec::new()),
    ])];
    let moved = id_of(&trees, 0, "a");

    let (_, updates) =
        move_task_to_list(&mut trees, &moved, &target_id.to_uppercase()).expect("the task moved");

    assert_eq!(titles(&trees, 1), ["a"]);
    assert_eq!(updates.len(), 1);
    assert_eq!(updates[0].1.list_id, Some(target_id));
}
