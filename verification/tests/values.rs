use nodespace_core::error::NodeServiceError;
use nodespace_core::events::{envelope_for_change, DomainEvent, StoreChange, StoreOperation};
use nodespace_core::hits::{rank_all, rank_tiers, SearchHit};
use nodespace_core::json::{Number, Object, Value};
use nodespace_core::node::{EnumValue, Node, NodeUpdate, SchemaField};
use nodespace_core::query::{Comparison, FilterOperator, PropertyFilter};
use nodespace_core::reading::make_node;
use nodespace_core::service::NodeService;
use nodespace_core::terms::{collect_terms, matches_title, sort_texts};
use nodespace_core::text::{decimal_of_i64, decimal_of_u64, is_blank, join, text_at_most};
use nodespace_core::tree::{build_node_tree_recursive, make_subtree, ChildEdge};
use nodespace_core::update::apply_update;

fn text(s: &str) -> Value {
    Value::Text(s.to_string())
}

fn number(n: i64) -> Value {
    Value::Number(Number::from_i64(n))
}

fn float(f: f64) -> Value {
    Value::Number(Number::Float(f.to_bits()))
}

fn object(members: Vec<(&str, Value)>) -> Value {
    let mut out = Object::new();
    for (key, value) in members {
        out.insert(key.to_string(), value);
    }
    Value::Object(out)
}

fn node(id: &str, node_type: &str, properties: Value) -> Node {
    make_node(id, node_type, "content", properties, 7)
}

fn field(name: &str, field_type: &str) -> SchemaField {
    SchemaField {
        name: name.to_string(),
        field_type: field_type.to_string(),
        required: None,
        default: None,
        core_values: None,
        user_values: None,
    }
}

fn status_field() -> SchemaField {
    SchemaField {
        core_values: Some(vec![
            EnumValue { value: "open".to_string(), label: "Open".to_string() },
            EnumValue { value: "done".to_string(), label: "Done".to_string() },
        ]),
        user_values: Some(vec![EnumValue {
            value: "blocked".to_string(),
            label: "Blocked".to_string(),
        }]),
        default: Some(text("open")),
        ..field("status", "enum")
    }
}

fn no_update() -> NodeUpdate {
    NodeUpdate {
        node_type: None,
        content: None,
        properties: None,
        title: None,
        lifecycle_status: None,
    }
}

#[test]
fn objects_keep_one_value_per_key() {
    let mut members = Object::new();
    members.insert("a".to_string(), number(1));
    members.insert("b".to_string(), number(2));
    members.insert("a".to_string(), number(3));
    assert_eq!(members.len(), 2);
    assert_eq!(members.get("a"), Some(&number(3)));
    assert_eq!(members.get("c"), None);
    assert!(members.contains_key("b"));
}

#[test]
fn objects_are_equal_whatever_the_order_of_their_keys() {
    assert_eq!(
        object(vec![("a", number(1)), ("b", number(2))]),
        object(vec![("b", number(2)), ("a", number(1))])
    );
    assert_ne!(object(vec![("a", number(1))]), object(vec![("a", number(2))]));
    assert_ne!(object(vec![("a", number(1))]), object(vec![("b", number(1))]));
}

#[test]
fn integers_and_floats_are_different_values() {
    assert_ne!(number(1), float(1.0));
    assert_eq!(float(0.0), float(-0.0));
    assert_eq!(number(-5).as_i64(), Some(-5));
    assert_eq!(number(-5).as_u64(), None);
    assert_eq!(float(2.0).as_i64(), None);
}

#[test]
fn the_rank_of_an_integer_is_that_of_the_nearest_double() {
    let samples: Vec<u64> = vec![
        0,
        1,
        2,
        3,
        1000,
        9007199254740991,
        9007199254740992,
        9007199254740993,
        9007199254740995,
        18014398509481985,
        u64::MAX,
        u64::MAX - 1024,
        u64::MAX - 1025,
    ];
    for n in samples {
        let bits = (n as f64).to_bits();
        assert_eq!(Number::PosInt(n).rank(), Some(bits as i64), "{}", n);
        if n > 0 && n <= i64::MAX as u64 {
            let m = -(n as i64);
            assert_eq!(Number::NegInt(m).rank(), Some(-(bits as i64)));
        }
    }
    assert_eq!(Number::NegInt(i64::MIN).rank(), Some(-(9223372036854775808f64.to_bits() as i64)));
    assert_eq!(Number::Float(f64::NAN.to_bits()).rank(), None);
    assert_eq!(Number::Float((-0.0f64).to_bits()).rank(), Some(0));
}

#[test]
fn numbers_compare_as_doubles() {
    let less = Some(Comparison::Less);
    let equal = Some(Comparison::Equal);
    let greater = Some(Comparison::Greater);
    assert_eq!(NodeService::compare_property_values(&number(1), &number(2)), less);
    assert_eq!(NodeService::compare_property_values(&number(2), &float(1.5)), greater);
    assert_eq!(NodeService::compare_property_values(&number(-3), &float(-2.5)), less);
    assert_eq!(NodeService::compare_property_values(&number(2), &float(2.0)), equal);
    assert_eq!(
        NodeService::compare_property_values(
            &number(9007199254740992),
            &number(9007199254740993)
        ),
        equal
    );
    assert_eq!(NodeService::compare_property_values(&text("a"), &text("b")), less);
    assert_eq!(NodeService::compare_property_values(&text("b"), &text("ab")), greater);
    assert_eq!(
        NodeService::compare_property_values(&Value::Bool(true), &Value::Bool(false)),
        greater
    );
    assert_eq!(NodeService::compare_property_values(&text("1"), &number(1)), None);
    assert_eq!(NodeService::compare_property_values(&Value::Null, &Value::Null), None);
}

fn matches_filter(path: &str, operator: FilterOperator, value: Value) -> bool {
    let n = node(
        "a",
        "task",
        object(vec![(
            "task",
            object(vec![
                ("status", text("In Progress")),
                ("count", number(5)),
                ("inner", object(vec![("deep", Value::Bool(true))])),
            ]),
        )]),
    );
    NodeService::node_matches_property_filter(
        &n,
        &PropertyFilter { path: path.to_string(), operator, value },
    )
}

#[test]
fn filters_look_into_the_namespace_of_the_type() {
    assert!(matches_filter("$.status", FilterOperator::Equals, text("In Progress")));
    assert!(!matches_filter("$.status", FilterOperator::NotEquals, text("In Progress")));
    assert!(matches_filter("$.status", FilterOperator::Contains, text("PROG")));
    assert!(matches_filter("$.status", FilterOperator::StartsWith, text("in ")));
    assert!(matches_filter("$.status", FilterOperator::EndsWith, text("GRESS")));
    assert!(!matches_filter("$.status", FilterOperator::EndsWith, text("prog")));
    assert!(matches_filter("$.count", FilterOperator::GreaterThan, float(4.5)));
    assert!(matches_filter("$.count", FilterOperator::GreaterThanOrEqual, number(5)));
    assert!(matches_filter("$.count", FilterOperator::LessThan, number(6)));
    assert!(matches_filter("$.count", FilterOperator::LessThanOrEqual, number(5)));
    assert!(!matches_filter("$.count", FilterOperator::LessThan, text("6")));
    assert!(matches_filter("$.inner.deep", FilterOperator::Equals, Value::Bool(true)));
    assert!(!matches_filter("$.missing", FilterOperator::NotEquals, number(1)));
    assert!(!matches_filter("status", FilterOperator::Equals, text("In Progress")));
    assert!(!matches_filter("$.task.status", FilterOperator::Equals, text("In Progress")));
}

#[test]
fn filters_keep_the_order_of_nodes() {
    let nodes = vec![
        node("a", "task", object(vec![("task", object(vec![("n", number(1))]))])),
        node("b", "task", object(vec![("task", object(vec![("n", number(2))]))])),
        node("c", "task", object(vec![("task", object(vec![("n", number(3))]))])),
    ];
    let filters = vec![PropertyFilter {
        path: "$.n".to_string(),
        operator: FilterOperator::NotEquals,
        value: number(2),
    }];
    let kept = NodeService::apply_property_filters(&nodes, &filters);
    let ids: Vec<&str> = kept.iter().map(|n| n.id.as_str()).collect();
    assert_eq!(ids, vec!["a", "c"]);
}

#[test]
fn merging_keeps_namespaces_and_fields_that_are_not_named() {
    let mut existing = object(vec![
        ("task", object(vec![("status", text("open")), ("priority", text("high"))])),
        ("text", object(vec![("color", text("red"))])),
    ]);
    let new = object(vec![("task", object(vec![("status", text("done"))])), ("extra", number(1))]);
    NodeService::deep_merge_namespaced_properties(&mut existing, new.clone());
    let expected = object(vec![
        ("task", object(vec![("status", text("done")), ("priority", text("high"))])),
        ("text", object(vec![("color", text("red"))])),
        ("extra", number(1)),
    ]);
    assert_eq!(existing, expected);
    NodeService::deep_merge_namespaced_properties(&mut existing, new);
    assert_eq!(existing, expected);
    let mut flat = text("x");
    NodeService::deep_merge_namespaced_properties(&mut flat, number(2));
    assert_eq!(flat, number(2));
}

#[test]
fn flat_properties_move_into_the_namespace() {
    let flat = object(vec![("status", text("open")), ("other", object(vec![("x", number(1))]))]);
    let spaced = NodeService::normalize_flat_properties_to_namespace("task", &flat, None);
    assert_eq!(
        spaced,
        object(vec![
            ("task", object(vec![("status", text("open"))])),
            ("other", object(vec![("x", number(1))])),
        ])
    );
    let again = NodeService::normalize_flat_properties_to_namespace("task", &spaced, None);
    assert_eq!(again, spaced);
    let fields = vec![field("other", "object")];
    let known = NodeService::normalize_flat_properties_to_namespace("task", &flat, Some(&fields));
    assert_eq!(known, object(vec![("task", flat)]));
    let scalar = NodeService::normalize_flat_properties_to_namespace("task", &number(1), None);
    assert_eq!(scalar, number(1));
}

#[test]
fn defaults_fill_gaps_only() {
    let service = NodeService::new();
    let fields = vec![status_field(), field("due", "date")];
    let mut empty = node("a", "task", object(vec![]));
    assert!(service.apply_schema_defaults_with_fields(&mut empty, &fields).is_ok());
    assert_eq!(
        empty.properties,
        object(vec![("task", object(vec![("status", text("open"))]))])
    );
    let mut set = node("a", "task", object(vec![("task", object(vec![("status", text("done"))]))]));
    assert!(service.apply_schema_defaults_with_fields(&mut set, &fields).is_ok());
    assert_eq!(set.properties, object(vec![("task", object(vec![("status", text("done"))]))]));
    let mut odd = node("a", "task", object(vec![("task", number(3))]));
    let error = service.apply_schema_defaults_with_fields(&mut odd, &fields);
    assert!(matches!(
        error,
        Err(NodeServiceError::InvalidUpdate(m)) if m == "Type namespace for 'task' is not an object"
    ));
    assert_eq!(odd.properties, object(vec![("task", number(3))]));
}

fn validation(properties: Value, fields: Vec<SchemaField>) -> Result<(), String> {
    let n = node("a", "task", properties);
    match NodeService::new().validate_node_with_fields(&n, &fields) {
        Ok(()) => Ok(()),
        Err(NodeServiceError::InvalidUpdate(m)) => Err(m),
        Err(other) => panic!("{:?}", other),
    }
}

#[test]
fn enum_fields_take_core_and_user_values() {
    let with = |v: Value| object(vec![("task", object(vec![("status", v)]))]);
    assert_eq!(validation(with(text("done")), vec![status_field()]), Ok(()));
    assert_eq!(validation(with(text("blocked")), vec![status_field()]), Ok(()));
    assert_eq!(validation(with(Value::Null), vec![status_field()]), Ok(()));
    assert_eq!(
        validation(with(text("later")), vec![status_field()]),
        Err("Invalid value 'later' for enum field 'status'. Valid values: Open (open), Done (done), Blocked (blocked)"
            .to_string())
    );
    assert_eq!(
        validation(with(number(1)), vec![status_field()]),
        Err("Enum field 'status' must be a string or null".to_string())
    );
}

#[test]
fn required_fields_must_be_there_unless_they_have_a_default() {
    let required = SchemaField { required: Some(true), ..field("due", "date") };
    assert_eq!(
        validation(object(vec![]), vec![required]),
        Err("Required field 'due' is missing from task node".to_string())
    );
    let defaulted = SchemaField {
        required: Some(true),
        default: Some(text("today")),
        ..field("due", "date")
    };
    assert_eq!(validation(object(vec![]), vec![defaulted]), Ok(()));
}

#[test]
fn readers_see_the_version_of_the_schema() {
    let service = NodeService::new();
    let schema = object(vec![
        ("version", number(3)),
        ("fields", Value::Array(vec![object(vec![("name", text("status"))])])),
    ]);
    let mut n = node("a", "task", object(vec![]));
    service.backfill_schema_version(&mut n, Some(&schema));
    assert_eq!(
        n.properties,
        object(vec![("task", object(vec![("_schema_version", number(3))]))])
    );
    assert_eq!(service.migration_target(&n, Some(&schema)), None);
    let old = node("a", "task", object(vec![("task", object(vec![("_schema_version", number(2))]))]));
    assert_eq!(service.migration_target(&old, Some(&schema)), Some(3));
    assert_eq!(service.migration_target(&old, None), None);
    let bare = object(vec![("version", number(3))]);
    let mut untouched = node("a", "text", object(vec![]));
    service.backfill_schema_version(&mut untouched, Some(&bare));
    assert_eq!(untouched.properties, object(vec![]));
}

#[test]
fn a_change_of_type_keeps_the_properties_of_the_old_type() {
    let before = node("a", "text", object(vec![("text", object(vec![("color", text("red"))]))]));
    let update = NodeUpdate {
        node_type: Some("task".to_string()),
        properties: Some(object(vec![("status", text("open"))])),
        ..no_update()
    };
    let after = apply_update(&before, &update);
    assert_eq!(after.node_type, "task");
    assert_eq!(after.content, "content");
    assert_eq!(
        after.properties,
        object(vec![
            ("text", object(vec![("color", text("red"))])),
            ("task", object(vec![("status", text("open"))])),
        ])
    );
}

#[test]
fn updates_of_tasks_report_what_went_wrong() {
    let conflict = NodeService::task_update_error("t", 4, "tx: VersionMismatch", "x", "shown");
    assert!(matches!(
        conflict,
        NodeServiceError::VersionConflict { node_id, expected_version: 4, actual_version: 0 }
            if node_id == "t"
    ));
    let thrown = NodeService::task_update_error("t", 4, "x", "The query: failed transaction", "s");
    assert!(matches!(thrown, NodeServiceError::VersionConflict { .. }));
    let missing = NodeService::task_update_error("t", 4, "Record not found", "x", "s");
    assert!(matches!(missing, NodeServiceError::NodeNotFound { id } if id == "t"));
    let other = NodeService::task_update_error("t", 4, "disk full", "io", "disk full");
    assert!(matches!(
        other,
        NodeServiceError::DatabaseError { context }
            if context == "Failed to update task node 't': disk full"
    ));
}

#[test]
fn changes_of_the_store_become_events() {
    let change = StoreChange {
        operation: StoreOperation::Updated,
        node: node("a", "task", object(vec![("task", object(vec![("status", text("done"))]))])),
        previous_node: Some(node(
            "a",
            "task",
            object(vec![("task", object(vec![("status", text("open"))]))]),
        )),
        source: Some("window".to_string()),
        playbook_context: Some(number(9)),
    };
    let envelope = envelope_for_change(&change);
    assert_eq!(envelope.metadata.source_client_id, Some("window".to_string()));
    assert_eq!(envelope.metadata.playbook_context, Some(number(9)));
    match envelope.event {
        DomainEvent::NodeUpdated { node_id, node_type, changed_properties } => {
            assert_eq!(node_id, "a");
            assert_eq!(node_type, "task");
            assert_eq!(changed_properties.len(), 1);
            assert_eq!(changed_properties[0].key, "task.status");
        }
        other => panic!("{:?}", other),
    }
    let service = NodeService::new().with_client("mcp".to_string());
    let wrapped = service.envelope(DomainEvent::NodeDeleted {
        id: "a".to_string(),
        node_type: "task".to_string(),
    });
    assert_eq!(wrapped.metadata.source_client_id, Some("mcp".to_string()));
    assert_eq!(wrapped.metadata.playbook_context, None);
}

#[test]
fn numbers_are_written_in_decimal() {
    assert_eq!(decimal_of_u64(0), "0");
    assert_eq!(decimal_of_u64(u64::MAX), "18446744073709551615");
    assert_eq!(decimal_of_i64(i64::MIN), "-9223372036854775808");
    assert_eq!(decimal_of_i64(120), "120");
}

#[test]
fn texts_are_ordered_by_their_characters() {
    assert!(text_at_most("a", "ab"));
    assert!(!text_at_most("b", "ab"));
    assert!(text_at_most("z", "ä"));
    assert!(is_blank(" \t\u{a0}"));
    assert!(!is_blank(" x "));
    assert_eq!(join(&vec!["a".to_string(), "b".to_string()], ", "), "a, b");
    let list = vec!["b".to_string(), "a".to_string(), "ab".to_string()];
    assert_eq!(sort_texts(&list), vec!["a".to_string(), "ab".to_string(), "b".to_string()]);
}

#[test]
fn terms_are_words_without_punctuation() {
    assert_eq!(
        collect_terms("  What is (Persistence)? -- "),
        vec!["what".to_string(), "is".to_string(), "persistence".to_string()]
    );
    assert_eq!(collect_terms("don't stop!"), vec!["don't".to_string(), "stop".to_string()]);
    let terms = collect_terms("persistence?");
    assert!(matches_title("Notes on PERSISTENCE", &terms));
    assert!(!matches_title("Notes", &terms));
    assert!(!matches_title("Notes", &vec![]));
}

fn hit(id: &str, score: f64) -> SearchHit {
    SearchHit {
        node_id: id.to_string(),
        score: Number::Float(score.to_bits()),
        max_similarity: Number::Float(score.to_bits()),
        matching_chunks: 1,
        node: None,
    }
}

#[test]
fn hits_come_in_tiers_with_the_best_first() {
    let hits = vec![hit("a", 0.3), hit("b", 0.9), hit("c", 0.5), hit("d", 0.9), hit("e", 0.7)];
    let ids = |list: Vec<SearchHit>| -> Vec<String> {
        list.into_iter().map(|h| h.node_id).collect()
    };
    assert_eq!(ids(rank_all(&hits)), vec!["b", "d", "e", "c", "a"]);
    let roots = vec!["a".to_string(), "c".to_string(), "z".to_string()];
    assert_eq!(ids(rank_tiers(&hits, &roots)), vec!["c", "a", "b", "d", "e"]);
}

#[test]
fn trees_are_built_from_edges_in_order() {
    let edge = |parent: &str, child: &str, order: i64| ChildEdge {
        parent: parent.to_string(),
        child: child.to_string(),
        order,
    };
    let nodes = vec![
        node("root", "text", object(vec![])),
        node("a", "text", object(vec![])),
        node("b", "text", object(vec![])),
        node("c", "text", object(vec![])),
    ];
    let edges =
        vec![edge("root", "b", 2), edge("root", "a", 1), edge("a", "c", 1), edge("root", "gone", 3)];
    let data = make_subtree("root", &nodes, &edges);
    assert_eq!(data.root.as_ref().map(|n| n.id.as_str()), Some("root"));
    assert_eq!(
        data.children_of("root"),
        Some(&vec!["a".to_string(), "b".to_string(), "gone".to_string()])
    );
    assert!(data.children_of("b").is_none());
    assert!(data.node("gone").is_none());
    assert!(data.is_tree_below("root"));
    let values: Vec<Value> =
        data.nodes.iter().map(|n| object(vec![("id", text(n.id.as_str()))])).collect();
    let own = values[0].clone();
    let tree = build_node_tree_recursive(&data, &values, "root", &own, data.children.len());
    let leaf = |id: &str| {
        object(vec![("id", text(id)), ("children", Value::Array(vec![]))])
    };
    let a = object(vec![("id", text("a")), ("children", Value::Array(vec![leaf("c")]))]);
    assert_eq!(
        tree,
        object(vec![("id", text("root")), ("children", Value::Array(vec![a, leaf("b")]))])
    );
    let circle = make_subtree("a", &nodes, &vec![edge("a", "b", 1), edge("b", "a", 1)]);
    assert!(!circle.is_tree_below("a"));
}
