use dbx_storage::json::JsonValue;
use dbx_storage::sidebar::{copy_sidebar_layout_entry, insert_connection_copy_next_to_source};

fn text(s: &str) -> JsonValue {
    JsonValue::Text(s.to_string())
}

fn obj(fields: Vec<(&str, JsonValue)>) -> JsonValue {
    JsonValue::Object(fields.into_iter().map(|(k, v)| (k.to_string(), v)).collect())
}

fn conn(id: &str) -> JsonValue {
    obj(vec![("type", text("connection")), ("id", text(id))])
}

fn group_with_children(name: &str, children: Vec<JsonValue>) -> JsonValue {
    obj(vec![("type", text("group")), ("name", text(name)), ("children", JsonValue::Array(children))])
}

fn group_with_ids(name: &str, ids: &[&str]) -> JsonValue {
    obj(vec![
        ("type", text("group")),
        ("name", text(name)),
        ("connectionIds", JsonValue::Array(ids.iter().map(|id| text(id)).collect())),
    ])
}

#[test]
fn copy_goes_right_after_top_level_source() {
    let mut entries = vec![conn("a"), conn("b")];
    assert!(insert_connection_copy_next_to_source(&mut entries, "a", "a-copy"));
    assert_eq!(entries, vec![conn("a"), conn("a-copy"), conn("b")]);
}

#[test]
fn copy_goes_into_the_group_children_that_hold_the_source() {
    let mut entries = vec![conn("x"), group_with_children("g", vec![conn("y"), conn("a")]), conn("z")];
    assert!(insert_connection_copy_next_to_source(&mut entries, "a", "a2"));
    assert_eq!(
        entries,
        vec![conn("x"), group_with_children("g", vec![conn("y"), conn("a"), conn("a2")]), conn("z")]
    );
}

#[test]
fn copy_goes_into_connection_ids_after_the_source() {
    let mut entries = vec![group_with_ids("g", &["x", "a", "y"])];
    assert!(insert_connection_copy_next_to_source(&mut entries, "a", "a2"));
    assert_eq!(entries, vec![group_with_ids("g", &["x", "a", "a2", "y"])]);
}

#[test]
fn first_listing_of_the_source_wins() {
    let mut entries = vec![group_with_ids("g", &["a"]), conn("a")];
    assert!(insert_connection_copy_next_to_source(&mut entries, "a", "a2"));
    assert_eq!(entries, vec![group_with_ids("g", &["a", "a2"]), conn("a")]);
}

#[test]
fn missing_source_leaves_entries_unchanged() {
    let mut entries = vec![conn("b"), group_with_ids("g", &["c"]), text("a")];
    assert!(!insert_connection_copy_next_to_source(&mut entries, "a", "a2"));
    assert_eq!(entries, vec![conn("b"), group_with_ids("g", &["c"]), text("a")]);
}

#[test]
fn children_list_hides_connection_ids() {
    let group = obj(vec![
        ("type", text("group")),
        ("children", JsonValue::Array(vec![conn("b")])),
        ("connectionIds", JsonValue::Array(vec![text("a")])),
    ]);
    let mut entries = vec![group];
    assert!(!insert_connection_copy_next_to_source(&mut entries, "a", "a2"));
}

#[test]
fn layout_without_order_list_is_refused() {
    let mut layout = obj(vec![("order", text("not a list"))]);
    let result = copy_sidebar_layout_entry(&mut layout, "a", "a2");
    assert_eq!(result, Err("INVALID_SIDEBAR_LAYOUT: sidebar order is not an array".to_string()));
    assert_eq!(layout, obj(vec![("order", text("not a list"))]));
    let mut not_object = JsonValue::Null;
    assert!(copy_sidebar_layout_entry(&mut not_object, "a", "a2").is_err());
    assert_eq!(not_object, JsonValue::Null);
}

#[test]
fn layout_copy_is_appended_when_source_is_not_listed() {
    let mut layout = obj(vec![("version", text("1")), ("order", JsonValue::Array(vec![conn("b")]))]);
    assert_eq!(copy_sidebar_layout_entry(&mut layout, "a", "a2"), Ok(()));
    assert_eq!(layout, obj(vec![("version", text("1")), ("order", JsonValue::Array(vec![conn("b"), conn("a2")]))]));
}

#[test]
fn layout_copy_is_placed_next_to_listed_source() {
    let mut layout = obj(vec![("order", JsonValue::Array(vec![conn("a"), conn("b")]))]);
    assert_eq!(copy_sidebar_layout_entry(&mut layout, "a", "a2"), Ok(()));
    assert_eq!(layout, obj(vec![("order", JsonValue::Array(vec![conn("a"), conn("a2"), conn("b")]))]));
}
