use nodespace_core::json::{Number, Object, Value};
use nodespace_core::properties::{compute_property_changes, PropertyChange};

fn text(s: &str) -> Value {
    Value::Text(s.to_string())
}

fn number(n: i64) -> Value {
    Value::Number(Number::from_i64(n))
}

fn object(members: Vec<(&str, Value)>) -> Value {
    let mut out = Object::new();
    for (key, value) in members {
        out.insert(key.to_string(), value);
    }
    Value::Object(out)
}

fn find_change<'a>(changes: &'a [PropertyChange], key: &str) -> Option<&'a PropertyChange> {
    changes.iter().find(|c| c.key == key)
}

#[test]
fn test_no_changes() {
    let old = object(vec![("title", text("hello")), ("task", object(vec![("status", text("todo"))]))]);
    let new = object(vec![("title", text("hello")), ("task", object(vec![("status", text("todo"))]))]);
    let changes = compute_property_changes(&old, &new);
    assert!(
        changes.is_empty(),
        "identical objects should produce no changes"
    );
}

#[test]
fn test_scalar_property_changed() {
    let old = object(vec![("title", text("old title")), ("color", text("red"))]);
    let new = object(vec![("title", text("new title")), ("color", text("red"))]);
    let changes = compute_property_changes(&old, &new);

    assert_eq!(changes.len(), 1);
    let c = &changes[0];
    assert_eq!(c.key, "title");
    assert_eq!(c.old_value, Some(text("old title")));
    assert_eq!(c.new_value, Some(text("new title")));
}

#[test]
fn test_scalar_property_changed_number() {
    let old = object(vec![("count", number(1))]);
    let new = object(vec![("count", number(42))]);
    let changes = compute_property_changes(&old, &new);

    assert_eq!(changes.len(), 1);
    let c = &changes[0];
    assert_eq!(c.key, "count");
    assert_eq!(c.old_value, Some(number(1)));
    assert_eq!(c.new_value, Some(number(42)));
}

#[test]
fn test_namespace_inner_property_changed() {
    let old = object(vec![("task", object(vec![("status", text("todo")), ("priority", text("low"))]))]);
    let new = object(vec![("task", object(vec![("status", text("done")), ("priority", text("low"))]))]);
    let changes = compute_property_changes(&old, &new);

    assert_eq!(changes.len(), 1);
    let c = &changes[0];
    assert_eq!(c.key, "task.status");
    assert_eq!(c.old_value, Some(text("todo")));
    assert_eq!(c.new_value, Some(text("done")));
}

#[test]
fn test_namespace_multiple_inner_changes() {
    let old = object(vec![("task", object(vec![("status", text("todo")), ("priority", text("low"))]))]);
    let new = object(vec![("task", object(vec![("status", text("done")), ("priority", text("high"))]))]);
    let changes = compute_property_changes(&old, &new);

    assert_eq!(changes.len(), 2);
    let status = find_change(&changes, "task.status").expect("should have task.status change");
    assert_eq!(status.old_value, Some(text("todo")));
    assert_eq!(status.new_value, Some(text("done")));

    let priority =
        find_change(&changes, "task.priority").expect("should have task.priority change");
    assert_eq!(priority.old_value, Some(text("low")));
    assert_eq!(priority.new_value, Some(text("high")));
}

#[test]
fn test_namespace_inner_property_added() {
    let old = object(vec![("task", object(vec![("status", text("todo"))]))]);
    let new = object(vec![("task", object(vec![("status", text("todo")), ("due", text("2026-04-01"))]))]);
    let changes = compute_property_changes(&old, &new);

    assert_eq!(changes.len(), 1);
    let c = &changes[0];
    assert_eq!(c.key, "task.due");
    assert_eq!(c.old_value, None);
    assert_eq!(c.new_value, Some(text("2026-04-01")));
}

#[test]
fn test_namespace_inner_property_removed() {
    let old = object(vec![("task", object(vec![("status", text("todo")), ("due", text("2026-04-01"))]))]);
    let new = object(vec![("task", object(vec![("status", text("todo"))]))]);
    let changes = compute_property_changes(&old, &new);

    assert_eq!(changes.len(), 1);
    let c = &changes[0];
    assert_eq!(c.key, "task.due");
    assert_eq!(c.old_value, Some(text("2026-04-01")));
    assert_eq!(c.new_value, None);
}

#[test]
fn test_property_added() {
    let old = object(vec![("title", text("hello"))]);
    let new = object(vec![("title", text("hello")), ("color", text("blue"))]);
    let changes = compute_property_changes(&old, &new);

    assert_eq!(changes.len(), 1);
    let c = &changes[0];
    assert_eq!(c.key, "color");
    assert_eq!(c.old_value, None);
    assert_eq!(c.new_value, Some(text("blue")));
}

#[test]
fn test_property_removed() {
    let old = object(vec![("title", text("hello")), ("color", text("blue"))]);
    let new = object(vec![("title", text("hello"))]);
    let changes = compute_property_changes(&old, &new);

    assert_eq!(changes.len(), 1);
    let c = &changes[0];
    assert_eq!(c.key, "color");
    assert_eq!(c.old_value, Some(text("blue")));
    assert_eq!(c.new_value, None);
}

#[test]
fn test_non_object_inputs_return_empty() {
    // old is not an object
    let changes = compute_property_changes(&text("string"), &object(vec![("a", number(1))]));
    assert!(changes.is_empty(), "non-object old should return empty");

    // new is not an object
    let changes = compute_property_changes(&object(vec![("a", number(1))]), &number(42));
    assert!(changes.is_empty(), "non-object new should return empty");

    // both non-objects
    let changes = compute_property_changes(&Value::Null, &Value::Bool(true));
    assert!(changes.is_empty(), "both non-object should return empty");

    // null values
    let changes = compute_property_changes(&Value::Null, &Value::Null);
    assert!(changes.is_empty(), "null inputs should return empty");
}

#[test]
fn test_both_empty_objects() {
    let changes = compute_property_changes(&object(vec![]), &object(vec![]));
    assert!(
        changes.is_empty(),
        "two empty objects should produce no changes"
    );
}

#[test]
fn test_mixed_scalar_and_namespace_changes() {
    let old = object(vec![("title", text("old")), ("task", object(vec![("status", text("todo"))]))]);
    let new = object(vec![("title", text("new")), ("task", object(vec![("status", text("done"))]))]);
    let changes = compute_property_changes(&old, &new);

    assert_eq!(changes.len(), 2);
    let title = find_change(&changes, "title").expect("should have title change");
    assert_eq!(title.old_value, Some(text("old")));
    assert_eq!(title.new_value, Some(text("new")));

    let status = find_change(&changes, "task.status").expect("should have task.status change");
    assert_eq!(status.old_value, Some(text("todo")));
    assert_eq!(status.new_value, Some(text("done")));
}

#[test]
fn test_type_change_scalar_to_object() {
    // old has a scalar, new has an object for the same key — treated as scalar change
    // because old value is not an object for that key
    let old = object(vec![("task", text("simple string"))]);
    let new = object(vec![("task", object(vec![("status", text("todo"))]))]);
    let changes = compute_property_changes(&old, &new);

    assert_eq!(changes.len(), 1);
    let c = &changes[0];
    assert_eq!(c.key, "task");
    assert_eq!(c.old_value, Some(text("simple string")));
    assert_eq!(c.new_value, Some(object(vec![("status", text("todo"))])));
}

#[test]
fn test_type_change_object_to_scalar() {
    let old = object(vec![("task", object(vec![("status", text("todo"))]))]);
    let new = object(vec![("task", text("collapsed"))]);
    let changes = compute_property_changes(&old, &new);

    assert_eq!(changes.len(), 1);
    let c = &changes[0];
    assert_eq!(c.key, "task");
    assert_eq!(c.old_value, Some(object(vec![("status", text("todo"))])));
    assert_eq!(c.new_value, Some(text("collapsed")));
}

#[test]
fn swapping_the_states_swaps_the_values() {
    let x = object(vec![
        ("a", number(1)),
        ("gone", text("x")),
        ("task", object(vec![("status", text("open")), ("same", number(1))])),
    ]);
    let y = object(vec![
        ("a", number(2)),
        ("new", text("y")),
        ("task", object(vec![("status", text("done")), ("same", number(1))])),
    ]);
    let there = compute_property_changes(&x, &y);
    let back = compute_property_changes(&y, &x);
    assert_eq!(there.len(), 4);
    assert_eq!(back.len(), 4);
    for change in &there {
        let other = find_change(&back, change.key.as_str()).unwrap();
        assert_eq!(other.old_value, change.new_value);
        assert_eq!(other.new_value, change.old_value);
    }
}
