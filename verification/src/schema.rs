//! Checks of nodes against their schema, and the schema version that a node carries.

use crate::error::{ErrorView, NodeServiceError};
use crate::json::{Json, Number, Object, Value};
use crate::node::{
    enum_values, fields_view, EnumValue, EnumValueView, Node, NodeView, SchemaField,
    SchemaFieldView,
};
use crate::properties::lookup;
use crate::service::NodeService;
use crate::text::{join, joined, same_text};
use vstd::prelude::*;
use vstd::string::*;

verus! {

/// The value of a field in the namespace of a node's type.
pub open spec fn field_value(node: NodeView, name: Seq<char>) -> Option<Json> {
    match node.properties.member(node.node_type) {
        Some(ns) => ns.member(name),
        None => None,
    }
}

/// An enum value as error messages show it.
pub open spec fn enum_label(value: EnumValueView) -> Seq<char> {
    value.label + " ("@ + value.value + ")"@
}

/// What is wrong with a node at a field of its schema, if anything is.
pub open spec fn field_error(node: NodeView, field: SchemaFieldView) -> Option<Seq<char>> {
    let value = field_value(node, field.name);
    if field.required == Some(true) && value is None && field.default is None {
        Some("Required field '"@ + field.name + "' is missing from "@ + node.node_type + " node"@)
    } else if field.field_type == "enum"@ {
        match value {
            Some(Json::Text(s)) => if exists|i: int|
                0 <= i < field.values().len() && (#[trigger] field.values()[i]).value == s {
                None
            } else {
                Some(
                    "Invalid value '"@ + s + "' for enum field '"@ + field.name
                        + "'. Valid values: "@ + joined(
                        field.values().map_values(|v: EnumValueView| enum_label(v)),
                        ", "@,
                    ),
                )
            },
            None | Some(Json::Null) => None,
            Some(_) => Some("Enum field '"@ + field.name + "' must be a string or null"@),
        }
    } else {
        None
    }
}

/// The first thing that is wrong with a node, going through the fields in order.
pub open spec fn first_error(node: NodeView, fields: Seq<SchemaFieldView>) -> Option<Seq<char>>
    decreases fields.len(),
{
    if fields.len() == 0 {
        None
    } else {
        match first_error(node, fields.drop_last()) {
            Some(e) => Some(e),
            None => field_error(node, fields.last()),
        }
    }
}

/// A node passes exactly when nothing is wrong with it at any field.
pub proof fn law_valid_iff_every_field_valid(node: NodeView, fields: Seq<SchemaFieldView>)
    ensures
        first_error(node, fields) is None <==> forall|i: int|
            0 <= i < fields.len() ==> field_error(node, #[trigger] fields[i]) is None,
    decreases fields.len(),
{
    if fields.len() > 0 {
        let front = fields.drop_last();
        law_valid_iff_every_field_valid(node, front);
        if first_error(node, fields) is None {
            assert forall|i: int| 0 <= i < fields.len() implies field_error(
                node,
                #[trigger] fields[i],
            ) is None by {
                if i < front.len() {
                    assert(front[i] == fields[i]);
                }
            }
        }
        if forall|i: int| 0 <= i < fields.len() ==> field_error(node, #[trigger] fields[i]) is None {
            assert forall|i: int| 0 <= i < front.len() implies field_error(
                node,
                #[trigger] front[i],
            ) is None by {
                assert(front[i] == fields[i]);
            }
            assert(fields[fields.len() - 1] == fields.last());
        }
    }
}

fn push_labels(labels: &mut Vec<String>, values: &Option<Vec<EnumValue>>)
    ensures
        final(labels)@.map_values(|s: String| s@) == old(labels)@.map_values(|s: String| s@)
            + enum_values(*values).map_values(|v: EnumValueView| enum_label(v)),
{
    let ghost before = labels@.map_values(|s: String| s@);
    let ghost want = enum_values(*values).map_values(|v: EnumValueView| enum_label(v));
    if let Some(list) = values {
        let mut i: usize = 0;
        while i < list.len()
            invariant
                i <= list@.len(),
                want.len() == list@.len(),
                labels@.map_values(|s: String| s@) == before + want.take(i as int),
            decreases list@.len() - i,
        {
            let mut label = list[i].label.clone();
            label.append(" (");
            label.append(list[i].value.as_str());
            label.append(")");
            let ghost earlier = labels@.map_values(|s: String| s@);
            proof {
                assert(want[i as int] == enum_label(list@[i as int]@));
                assert(labels@.push(label).map_values(|s: String| s@) =~= earlier.push(label@));
                assert(before + want.take(i + 1) =~= (before + want.take(i as int)).push(label@));
            }
            labels.push(label);
            i += 1;
        }
        proof {
            assert(want.take(want.len() as int) =~= want);
        }
    } else {
        proof {
            assert(before + want =~= before);
        }
    }
}

fn has_value(values: &Option<Vec<EnumValue>>, value: &str) -> (r: bool)
    ensures
        r == exists|i: int|
            0 <= i < enum_values(*values).len() && (#[trigger] enum_values(*values)[i]).value == value@,
{
    let ghost all = enum_values(*values);
    match values {
        None => false,
        Some(list) => {
            let mut i: usize = 0;
            while i < list.len()
                invariant
                    i <= list@.len() == all.len(),
                    forall|j: int| 0 <= j < i ==> (#[trigger] all[j]).value != value@,
                decreases list@.len() - i,
            {
                if same_text(list[i].value.as_str(), value) {
                    proof {
                        assert(all[i as int].value == value@);
                    }
                    return true;
                }
                i += 1;
            }
            false
        },
    }
}

/// Checks one field of a node.
fn check_field(node: &Node, field: &SchemaField) -> (r: Option<String>)
    ensures
        crate::node::optional_text(r) == field_error(node@, field@),
{
    let value = match node.properties.get(node.node_type.as_str()) {
        Some(ns) => ns.get(field.name.as_str()),
        None => None,
    };
    let required = match field.required {
        Some(b) => b,
        None => false,
    };
    if required && value.is_none() && field.default.is_none() {
        let mut message = "Required field '".to_owned();
        message.append(field.name.as_str());
        message.append("' is missing from ");
        message.append(node.node_type.as_str());
        message.append(" node");
        return Some(message);
    }
    if same_text(field.field_type.as_str(), "enum") {
        match value {
            Some(Value::Text(s)) => {
                let known = has_value(&field.core_values, s.as_str()) || has_value(
                    &field.user_values,
                    s.as_str(),
                );
                proof {
                    let core = enum_values(field.core_values);
                    let user = enum_values(field.user_values);
                    let all = core + user;
                    if exists|i: int| 0 <= i < all.len() && (#[trigger] all[i]).value == s@ {
                        let i = choose|i: int| 0 <= i < all.len() && (#[trigger] all[i]).value == s@;
                        if i < core.len() {
                            assert(core[i].value == s@);
                        } else {
                            assert(user[i - core.len()].value == s@);
                        }
                    }
                    if exists|i: int| 0 <= i < core.len() && (#[trigger] core[i]).value == s@ {
                        let i = choose|i: int| 0 <= i < core.len() && (#[trigger] core[i]).value == s@;
                        assert(all[i].value == s@);
                    }
                    if exists|i: int| 0 <= i < user.len() && (#[trigger] user[i]).value == s@ {
                        let i = choose|i: int| 0 <= i < user.len() && (#[trigger] user[i]).value == s@;
                        assert(all[core.len() + i].value == s@);
                    }
                }
                if known {
                    return None;
                }
                let mut labels: Vec<String> = Vec::new();
                push_labels(&mut labels, &field.core_values);
                push_labels(&mut labels, &field.user_values);
                proof {
                    let f = |v: EnumValueView| enum_label(v);
                    let core = enum_values(field.core_values);
                    let user = enum_values(field.user_values);
                    assert(labels@.map_values(|s: String| s@) =~= (core + user).map_values(f));
                }
                let mut message = "Invalid value '".to_owned();
                message.append(s.as_str());
                message.append("' for enum field '");
                message.append(field.name.as_str());
                message.append("'. Valid values: ");
                let list = join(&labels, ", ");
                message.append(list.as_str());
                return Some(message);
            },
            None => {},
            Some(Value::Null) => {},
            Some(_) => {
                let mut message = "Enum field '".to_owned();
                message.append(field.name.as_str());
                message.append("' must be a string or null");
                return Some(message);
            },
        }
    }
    None
}

/// The version that a schema states: its `version` as an integer, or one.
pub open spec fn stated_version(schema: Json) -> i64 {
    match schema.member("version"@) {
        Some(Json::Number(n)) => match n.i64_of() {
            Some(v) => v,
            None => 1,
        },
        _ => 1,
    }
}

/// The schema defines at least one field.
pub open spec fn has_fields(schema: Json) -> bool {
    schema.member("fields"@) matches Some(Json::Array(items)) && items.len() > 0
}

/// The properties of a node with the version of its schema noted in the namespace of its type.
pub open spec fn with_version(node_type: Seq<char>, properties: Json, version: Json) -> Json {
    match properties {
        Json::Object(top) => match lookup(top, node_type) {
            None => Json::Object(
                top.insert(
                    node_type,
                    Json::Object(Map::<Seq<char>, Json>::empty().insert("_schema_version"@, version)),
                ),
            ),
            Some(Json::Object(ns)) => Json::Object(
                top.insert(node_type, Json::Object(ns.insert("_schema_version"@, version))),
            ),
            Some(_) => properties,
        },
        _ => properties,
    }
}

/// A signed integer as a JSON number.
pub open spec fn integer(n: i64) -> Json {
    Json::Number(
        if n >= 0 {
            Number::PosInt(n as u64)
        } else {
            Number::NegInt(n)
        },
    )
}

/// The properties of a node as a reader sees them: a node whose schema defines fields and that
/// notes no version carries the version of the schema.
pub open spec fn backfilled(node: NodeView, schema: Option<Json>) -> Json {
    match schema {
        Some(s) => if has_fields(s) && field_value(node, "_schema_version"@) is None {
            with_version(node.node_type, node.properties, integer(stated_version(s)))
        } else {
            node.properties
        },
        None => node.properties,
    }
}

/// The version that a node notes, or one.
pub open spec fn noted_version(node: NodeView) -> u64 {
    match field_value(node, "_schema_version"@) {
        Some(Json::Number(n)) => match n.u64_of() {
            Some(v) => v,
            None => 1,
        },
        _ => 1,
    }
}

/// The version to which a node is migrated, `None` if it is up to date. Versions are compared as
/// 32-bit numbers.
pub open spec fn migration_target_of(node: NodeView, schema: Option<Json>) -> Option<u32> {
    let current = noted_version(node) as u32;
    let target = match schema {
        Some(s) => stated_version(s) as u32,
        None => 1u32,
    };
    if current >= target {
        None
    } else {
        Some(target)
    }
}

fn version_of(schema: &Value) -> (r: i64)
    ensures
        r == stated_version(schema@),
{
    match schema.get("version") {
        Some(v) => match v.as_i64() {
            Some(n) => n,
            None => 1,
        },
        None => 1,
    }
}

/// Notes a version in the namespace of the node's type.
pub fn note_version(node: &mut Node, version: i64)
    ensures
        final(node)@ == (NodeView {
            properties: with_version(old(node)@.node_type, old(node)@.properties, integer(version)),
            ..old(node)@
        }),
{
    let value = Value::Number(Number::from_i64(version));
    proof {
        assert(value@ == integer(version));
    }
    let stamped = match &node.properties {
        Value::Object(top) => match top.get(node.node_type.as_str()) {
            None => {
                let mut ns = Object::new();
                ns.insert("_schema_version".to_owned(), value);
                let mut out = top.clone();
                out.insert(node.node_type.clone(), Value::Object(ns));
                Some(out)
            },
            Some(Value::Object(members)) => {
                let mut ns = members.clone();
                ns.insert("_schema_version".to_owned(), value);
                let mut out = top.clone();
                out.insert(node.node_type.clone(), Value::Object(ns));
                Some(out)
            },
            Some(_) => None,
        },
        _ => None,
    };
    if let Some(out) = stamped {
        node.properties = Value::Object(out);
    }
}

impl NodeService {
    /// Checks a node against the fields of its schema.
    pub fn validate_node_with_fields(&self, node: &Node, fields: &Vec<SchemaField>) -> (r: Result<
        (),
        NodeServiceError,
    >)
        ensures
            match first_error(node@, fields_view(fields@)) {
                None => r is Ok,
                Some(message) => r matches Err(e) && e@ == ErrorView::InvalidUpdate(message),
            },
    {
        let ghost all = fields_view(fields@);
        let mut i: usize = 0;
        while i < fields.len()
            invariant
                i <= fields@.len() == all.len(),
                first_error(node@, all.take(i as int)) is None,
            decreases fields@.len() - i,
        {
            let found = check_field(node, &fields[i]);
            proof {
                assert(all.take(i + 1).drop_last() =~= all.take(i as int));
                assert(all.take(i + 1).last() == fields@[i as int]@);
                lemma_error_stays(node@, all, i + 1);
            }
            if let Some(message) = found {
                return Err(NodeServiceError::InvalidUpdate(message));
            }
            i += 1;
        }
        proof {
            assert(all.take(all.len() as int) =~= all);
        }
        Ok(())
    }

    /// Notes the version of its schema on a node that a reader asked for. Nothing is stored.
    pub fn backfill_schema_version(&self, node: &mut Node, schema: Option<&Value>)
        ensures
            final(node)@ == (NodeView {
                properties: backfilled(
                    old(node)@,
                    match schema {
                        Some(s) => Some(s@),
                        None => None,
                    },
                ),
                ..old(node)@
            }),
    {
        let schema = match schema {
            Some(s) => s,
            None => {
                return ;
            },
        };
        let fields = match schema.get("fields") {
            Some(Value::Array(items)) => {
                proof {
                    crate::json::lemma_list_view(items@);
                }
                items.len() > 0
            },
            _ => false,
        };
        if !fields {
            return ;
        }
        let noted = match node.properties.get(node.node_type.as_str()) {
            Some(ns) => ns.get("_schema_version").is_some(),
            None => false,
        };
        if noted {
            return ;
        }
        note_version(node, version_of(schema));
    }

    /// The version to which a node has to be migrated before a reader gets it, if it has to be.
    pub fn migration_target(&self, node: &Node, schema: Option<&Value>) -> (r: Option<u32>)
        ensures
            r == migration_target_of(
                node@,
                match schema {
                    Some(s) => Some(s@),
                    None => None,
                },
            ),
    {
        let noted = match node.properties.get(node.node_type.as_str()) {
            Some(ns) => match ns.get("_schema_version") {
                Some(v) => match v.as_u64() {
                    Some(n) => n,
                    None => 1,
                },
                None => 1,
            },
            None => 1,
        };
        let current: u32 = noted as u32;
        let target: u32 = match schema {
            Some(s) => version_of(s) as u32,
            None => 1,
        };
        if current >= target {
            None
        } else {
            Some(target)
        }
    }
}

proof fn lemma_error_stays(node: NodeView, fields: Seq<SchemaFieldView>, n: int)
    requires
        0 <= n <= fields.len(),
    ensures
        first_error(node, fields.take(n)) is Some ==> first_error(node, fields) == first_error(
            node,
            fields.take(n),
        ),
    decreases fields.len() - n,
{
    if n < fields.len() {
        lemma_error_stays(node, fields, n + 1);
        assert(fields.take(n + 1).drop_last() =~= fields.take(n));
    } else {
        assert(fields.take(n) =~= fields);
    }
}

/// Once the version is backfilled the node is up to date, unless the schema states a version that
/// is no version: one below zero or above the 32-bit range.
pub proof fn law_backfilled_node_is_up_to_date(node: NodeView, schema: Json)
    requires
        has_fields(schema),
        field_value(node, "_schema_version"@) is None,
        node.properties is Object,
        node.properties.member(node.node_type) matches Some(ns) ==> ns is Object,
        0 <= stated_version(schema) <= u32::MAX,
    ensures
        migration_target_of(
            (NodeView { properties: backfilled(node, Some(schema)), ..node }),
            Some(schema),
        ) is None,
{
}

} // verus!
