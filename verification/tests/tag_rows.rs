use flequit_ui::adapters::tag::{to_bookmarked_tag_item, to_tag_item, Tag, TagBookmark};
use flequit_ui::search::sidebar::Highlight;

fn new_id() -> String {
    uuid::Uuid::new_v4().to_string()
}

fn tag(name: &str, color: Option<&str>) -> Tag {
    let now = chrono::Utc::now().timestamp() as i128 * 1_000_000_000;
    Tag {
        id: new_id(),
        name: name.to_string(),
        color: color.map(str::to_string),
        order_index: Some(0),
        created_at: now,
        updated_at: now,
        deleted: false,
        updated_by: new_id(),
    }
}

fn bookmark(project_id: &str, tag_id: &str) -> TagBookmark {
    let now = chrono::Utc::now().timestamp() as i128 * 1_000_000_000;
    TagBookmark {
        id: new_id(),
        user_id: new_id(),
        project_id: project_id.to_string(),
        tag_id: tag_id.to_string(),
        order_index: 0,
        created_at: now,
        updated_at: now,
    }
}

#[test]
fn a_tag_row_carries_the_project_it_was_listed_under() {
    let item = to_tag_item(&tag("home", None), "p1", false, true);

    assert_eq!(item.project_id, "p1");
    assert_eq!(item.name, "home");
    assert!(!item.bookmarked);
    assert!(item.assigned);
}

#[test]
fn a_palette_colour_reaches_the_row_as_both_text_and_brush() {
    let item = to_tag_item(&tag("home", Some("#4c6ef5")), "p1", false, false);

    assert!(item.has_color);
    assert_eq!(item.color, "#4c6ef5");
    assert_eq!(item.color_brush.red, 0x4c);
}

#[test]
fn an_unusable_colour_is_reported_as_no_colour() {
    for stored in [None, Some("teal"), Some("#12345")] {
        let item = to_tag_item(&tag("home", stored), "p1", false, false);

        assert!(!item.has_color, "{stored:?} should not count as a colour");
        assert_eq!(item.color, "", "{stored:?} should not reach the editor");
    }
}

#[test]
fn a_pinned_row_points_at_the_project_that_owns_the_tag() {
    let tag = tag("home", Some("#4c6ef5"));
    let project_id = new_id();
    let bookmark = bookmark(&project_id, &tag.id);

    let item = to_bookmarked_tag_item(&tag, &bookmark);

    assert_eq!(item.id, tag.id.as_str());
    assert_eq!(item.project_id, project_id.as_str());
    assert!(item.has_color);
    assert_eq!(item.highlight, Highlight::Plain);
}

#[test]
fn a_colour_is_read_whatever_its_case_and_padding() {
    let item = to_tag_item(&tag("home", Some("  #4C6EF5 ")), "p1", true, false);

    assert!(item.has_color);
    assert_eq!(item.color, "  #4C6EF5 ");
    assert_eq!(
        (item.color_brush.red, item.color_brush.green, item.color_brush.blue),
        (0x4c, 0x6e, 0xf5)
    );
    assert!(item.bookmarked);
}
