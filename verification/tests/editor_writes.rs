use flequit_ui::viewmodels::app::new_subtask;
use flequit_ui::viewmodels::project_editor::{
    archive_patch, new_project, new_task_list, project_patch, task_list_patch,
};
use flequit_ui::viewmodels::runtime_store::TaskStatus;
use flequit_ui::viewmodels::tag_editor::{new_bookmark, new_tag, tag_patch};

fn new_id() -> String {
    uuid::Uuid::new_v4().to_string()
}

fn now() -> i128 {
    chrono::Utc::now().timestamp() as i128 * 1_000_000_000
}

#[test]
fn a_new_project_is_owned_by_its_author() {
    let user_id = new_id();

    let project = new_project("Work".to_string(), None, 2, &user_id, &new_id(), now());

    assert_eq!(project.name, "Work");
    assert_eq!(project.order_index, 2);
    assert_eq!(project.owner_id, Some(user_id.clone()));
    assert_eq!(project.updated_by, user_id);
    assert!(!project.is_archived);
    assert!(!project.deleted);
}

#[test]
fn a_new_task_list_belongs_to_its_project() {
    let project_id = new_id();
    let user_id = new_id();

    let list = new_task_list(&project_id, "Inbox".to_string(), 1, &user_id, &new_id(), now());

    assert_eq!(list.project_id, project_id);
    assert_eq!(list.name, "Inbox");
    assert_eq!(list.order_index, 1);
    assert_eq!(list.updated_by, user_id);
}

#[test]
fn clearing_the_colour_is_written_as_a_change() {
    let patch = project_patch("Work".to_string(), None);

    assert_eq!(patch.name, Some("Work".to_string()));
    assert_eq!(patch.color, Some(None));
}

#[test]
fn archiving_touches_only_the_archive_flag() {
    let patch = archive_patch(true);

    assert_eq!(patch.is_archived, Some(true));
    assert_eq!(patch.name, None);
}

#[test]
fn renaming_a_list_touches_only_its_name() {
    let patch = task_list_patch("Later".to_string());

    assert_eq!(patch.name, Some("Later".to_string()));
    assert_eq!(patch.is_archived, None);
    assert_eq!(patch.color, None);
}

#[test]
fn a_tag_patch_can_clear_its_colour() {
    let patch = tag_patch("Home".to_string(), None);

    assert_eq!(patch.name, Some("Home".to_string()));
    assert_eq!(patch.color, Some(None));
}

#[test]
fn a_new_tag_keeps_its_requested_order() {
    let user_id = new_id();
    let tag = new_tag("Home".to_string(), None, 4, &user_id, &new_id(), now());

    assert_eq!(tag.name, "Home");
    assert_eq!(tag.order_index, Some(4));
    assert_eq!(tag.updated_by, user_id);
    assert!(!tag.deleted);
}

#[test]
fn a_new_bookmark_records_the_project_that_owns_the_tag() {
    let user_id = new_id();
    let project_id = new_id();
    let tag_id = new_id();

    let bookmark = new_bookmark(&user_id, &project_id, &tag_id, 2, &new_id(), now());

    assert_eq!(bookmark.user_id, user_id);
    assert_eq!(bookmark.project_id, project_id);
    assert_eq!(bookmark.tag_id, tag_id);
    assert_eq!(bookmark.order_index, 2);
}

#[test]
fn a_new_subtask_has_default_values() {
    let task_id = new_id();
    let user_id = new_id();

    let subtask = new_subtask(&task_id, "Pick up bread".to_string(), 3, &user_id, &new_id(), now());

    assert_eq!(subtask.task_id, task_id);
    assert_eq!(subtask.title, "Pick up bread");
    assert_eq!(subtask.order_index, 3);
    assert_eq!(subtask.status, TaskStatus::NotStarted);
    assert!(!subtask.completed);
    assert_eq!(subtask.updated_by, user_id);
}
