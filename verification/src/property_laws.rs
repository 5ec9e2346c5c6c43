//! What becomes of the properties that a caller gives.

use crate::json::{Json, Number};
use crate::node::{EnumValueView, NodeView, SchemaFieldView};
use crate::properties::{
    field_names, law_defaults_fill_gaps, merged_properties, namespaced, properties_with_defaults,
    with_defaults,
};
use crate::schema::{backfilled, first_error, integer, migration_target_of, with_version};
use vstd::prelude::*;

verus! {

/// The field of a type has the value.
pub open spec fn has_field(
    properties: Json,
    node_type: Seq<char>,
    field: Seq<char>,
    value: Json,
) -> bool {
    properties.member(node_type) matches Some(ns) && ns.member(field) == Some(value)
}

/// The properties hold an object under the type: they are in storage form.
pub open spec fn is_spaced(properties: Json, node_type: Seq<char>) -> bool {
    properties.member(node_type) matches Some(Json::Object(_))
}

/// What a caller says of a field of a type: in storage form under the type, otherwise as a plain
/// property that is no object.
pub open spec fn gives(given: Json, node_type: Seq<char>, field: Seq<char>, value: Json) -> bool {
    if is_spaced(given, node_type) {
        has_field(given, node_type, field, value)
    } else {
        given.member(field) == Some(value) && !(value is Object)
    }
}

/// What a caller says of a whole namespace of another type.
pub open spec fn gives_namespace(given: Json, node_type: Seq<char>, ns: Seq<char>, value: Json) -> bool {
    ns != node_type && given.member(ns) == Some(value) && (value is Object || is_spaced(
        given,
        node_type,
    ))
}

/// In storage form every field that was given is under the type, every namespace where it was, and
/// nothing was added.
pub proof fn law_storage_form(
    node_type: Seq<char>,
    given: Json,
    names: Set<Seq<char>>,
    field: Seq<char>,
    value: Json,
)
    requires
        given is Object,
    ensures
        gives(given, node_type, field, value) ==> has_field(
            namespaced(node_type, given, names),
            node_type,
            field,
            value,
        ),
        gives_namespace(given, node_type, field, value) && !names.contains(field) ==> namespaced(
            node_type,
            given,
            names,
        ).member(field) == Some(value),
        !is_spaced(given, node_type) && names.contains(field) && given.member(field) == Some(value)
            ==> has_field(namespaced(node_type, given, names), node_type, field, value),
        is_spaced(namespaced(node_type, given, names), node_type),
        has_field(namespaced(node_type, given, names), node_type, field, value) ==> given.member(field)
            == Some(value) || has_field(given, node_type, field, value),
        field != node_type && namespaced(node_type, given, names).member(field) == Some(value)
            ==> given.member(field) == Some(value),
{
}

/// Properties that are no object are left as they are.
pub proof fn law_other_properties_are_left(node_type: Seq<char>, given: Json, names: Set<Seq<char>>)
    requires
        !(given is Object),
    ensures
        namespaced(node_type, given, names) == given,
{
}

/// Merging stores every field that is given, keeps every other field, and leaves the namespaces alone
/// that are not named.
pub proof fn law_merging_applies_what_is_given(
    existing: Json,
    new: Json,
    ns: Seq<char>,
    field: Seq<char>,
    value: Json,
)
    requires
        existing is Object,
        new is Object,
    ensures
        has_field(new, ns, field, value) ==> has_field(
            merged_properties(existing, new),
            ns,
            field,
            value,
        ),
        has_field(existing, ns, field, value) && (new.member(ns) is None || is_spaced(new, ns)
            && new.member(ns)->0.member(field) is None) ==> has_field(
            merged_properties(existing, new),
            ns,
            field,
            value,
        ),
        new.member(ns) is None ==> merged_properties(existing, new).member(ns) == existing.member(ns),
        new.member(ns) == Some(value) && (!(value is Object) || !is_spaced(existing, ns))
            ==> merged_properties(existing, new).member(ns) == Some(value),
        has_field(merged_properties(existing, new), ns, field, value) ==> has_field(
            new,
            ns,
            field,
            value,
        ) || has_field(existing, ns, field, value),
{
}

/// Defaults are filled in under the type where a field is missing, and nothing that is there is
/// changed. Nothing is filled in if something else than an object stands under the type.
pub proof fn law_defaults_are_filled_in(
    node_type: Seq<char>,
    properties: Json,
    fields: Seq<SchemaFieldView>,
    i: int,
    other: Seq<char>,
    value: Json,
)
    requires
        properties is Object,
    ensures
        properties_with_defaults(node_type, properties, fields) is None <==> properties.member(node_type)
            is Some && !is_spaced(properties, node_type),
        properties_with_defaults(node_type, properties, fields) matches Some(filled) ==> {
            &&& has_field(properties, node_type, other, value) ==> has_field(
                filled,
                node_type,
                other,
                value,
            )
            &&& other != node_type ==> filled.member(other) == properties.member(other)
            &&& is_spaced(filled, node_type)
            &&& 0 <= i < fields.len() && fields[i].default == Some(value) && (forall|d: Json|
                !#[trigger] has_field(properties, node_type, fields[i].name, d)) && (forall|j: int|
                0 <= j < i ==> (#[trigger] fields[j]).name != fields[i].name || fields[j].default
                    is None) ==> has_field(filled, node_type, fields[i].name, value)
            &&& has_field(filled, node_type, other, value) && !has_field(
                properties,
                node_type,
                other,
                value,
            ) ==> exists|j: int|
                0 <= j < fields.len() && (#[trigger] fields[j]).name == other && fields[j].default
                    == Some(value)
        },
{
    if let Some(filled) = properties_with_defaults(node_type, properties, fields) {
        let members = if properties.member(node_type) is Some {
            properties.member(node_type)->0->Object_0
        } else {
            Map::<Seq<char>, Json>::empty()
        };
        law_defaults_fill_gaps(members, fields);
        let full = with_defaults(members, fields);
        assert(filled.member(node_type) == Some(Json::Object(full)));
        if 0 <= i < fields.len() && fields[i].default == Some(value) && (forall|d: Json|
            !#[trigger] has_field(properties, node_type, fields[i].name, d)) && (forall|j: int|
            0 <= j < i ==> (#[trigger] fields[j]).name != fields[i].name || fields[j].default is None) {
            if members.contains_key(fields[i].name) {
                assert(has_field(
                    properties,
                    node_type,
                    fields[i].name,
                    members[fields[i].name],
                ));
            }
            lemma_first_default(members, fields, i, value);
        }
    }
}

proof fn lemma_first_default(
    members: Map<Seq<char>, Json>,
    fields: Seq<SchemaFieldView>,
    i: int,
    value: Json,
)
    requires
        0 <= i < fields.len(),
        fields[i].default == Some(value),
        !members.contains_key(fields[i].name),
        forall|j: int|
            0 <= j < i ==> (#[trigger] fields[j]).name != fields[i].name || fields[j].default is None,
    ensures
        with_defaults(members, fields).contains_key(fields[i].name),
        with_defaults(members, fields)[fields[i].name] == value,
    decreases fields.len(),
{
    let front = fields.drop_last();
    if i < front.len() {
        assert(front[i] == fields[i]);
        assert forall|j: int| 0 <= j < i implies (#[trigger] front[j]).name != front[i].name
            || front[j].default is None by {
            assert(front[j] == fields[j]);
        }
        lemma_first_default(members, front, i, value);
    } else {
        lemma_no_default(members, front, fields[i].name);
    }
}

proof fn lemma_no_default(
    members: Map<Seq<char>, Json>,
    fields: Seq<SchemaFieldView>,
    name: Seq<char>,
)
    requires
        !members.contains_key(name),
        forall|j: int|
            0 <= j < fields.len() ==> (#[trigger] fields[j]).name != name || fields[j].default is None,
    ensures
        !with_defaults(members, fields).contains_key(name),
    decreases fields.len(),
{
    if fields.len() > 0 {
        let front = fields.drop_last();
        assert forall|j: int| 0 <= j < front.len() implies (#[trigger] front[j]).name != name
            || front[j].default is None by {
            assert(front[j] == fields[j]);
        }
        lemma_no_default(members, front, name);
        assert(fields[fields.len() - 1] == fields.last());
    }
}

/// The version of a schema is noted under the type, and nothing else changes.
pub proof fn law_versions_are_noted(
    node_type: Seq<char>,
    properties: Json,
    version: Json,
    ns: Seq<char>,
    field: Seq<char>,
    value: Json,
)
    requires
        properties is Object,
        properties.member(node_type) is None || is_spaced(properties, node_type),
    ensures
        has_field(
            with_version(node_type, properties, version),
            node_type,
            "_schema_version"@,
            version,
        ),
        field != "_schema_version"@ ==> (has_field(
            with_version(node_type, properties, version),
            node_type,
            field,
            value,
        ) <==> has_field(properties, node_type, field, value)),
        ns != node_type ==> with_version(node_type, properties, version).member(ns)
            == properties.member(ns),
{
}

/// An integer as a number has the value of the integer.
pub proof fn law_integers_keep_their_value(n: i64)
    ensures
        integer(n) matches Json::Number(number) && number.i64_of() == Some(n),
{
}

/// A required field without a default must be there.
pub proof fn law_required_fields_are_required(
    node: NodeView,
    fields: Seq<SchemaFieldView>,
    i: int,
)
    requires
        0 <= i < fields.len(),
        fields[i].required == Some(true),
        fields[i].default is None,
        forall|v: Json| !#[trigger] has_field(node.properties, node.node_type, fields[i].name, v),
    ensures
        first_error(node, fields) is Some,
    decreases fields.len(),
{
    crate::schema::law_valid_iff_every_field_valid(node, fields);
    let value = crate::schema::field_value(node, fields[i].name);
    if value is Some {
        assert(has_field(node.properties, node.node_type, fields[i].name, value->0));
    }
    assert(crate::schema::field_error(node, fields[i]) is Some);
}

/// A field of an enumeration takes the values that its schema lists, its own and the user's, or null;
/// it takes no other text and nothing that is no text.
pub proof fn law_enumerations_take_listed_values(
    node: NodeView,
    fields: Seq<SchemaFieldView>,
    i: int,
    value: Json,
)
    requires
        0 <= i < fields.len(),
        fields[i].field_type == "enum"@,
        has_field(node.properties, node.node_type, fields[i].name, value),
        !(value is Null),
        !lists_value(fields[i].core_values, value),
        !lists_value(fields[i].user_values, value),
    ensures
        first_error(node, fields) is Some,
{
    crate::schema::law_valid_iff_every_field_valid(node, fields);
    let field = fields[i];
    let core = crate::node::listed_values(field.core_values);
    let user = crate::node::listed_values(field.user_values);
    if let Json::Text(s) = value {
        assert forall|k: int| 0 <= k < field.values().len() implies (
        #[trigger] field.values()[k]).value != s by {
            if k < core.len() {
                assert(field.values()[k] == core[k]);
            } else {
                assert(field.values()[k] == user[k - core.len()]);
            }
        }
    }
    assert(crate::schema::field_error(node, field) is Some);
}

/// The field is given as its schema wants it.
pub open spec fn is_fit(node: NodeView, field: SchemaFieldView) -> bool {
    &&& field.required == Some(true) && field.default is None ==> exists|v: Json| #[trigger]
        has_field(node.properties, node.node_type, field.name, v)
    &&& field.field_type == "enum"@ ==> forall|v: Json| #[trigger]
        has_field(node.properties, node.node_type, field.name, v) ==> v is Null || lists_value(
            field.core_values,
            v,
        ) || lists_value(field.user_values, v)
}

/// The value is among those that are listed.
pub open spec fn lists_value(values: Option<Seq<EnumValueView>>, value: Json) -> bool {
    values matches Some(list) && exists|j: int|
        0 <= j < list.len() && Json::Text((#[trigger] list[j]).value) == value
}

/// A node whose fields are all fit passes.
pub proof fn law_fit_nodes_pass(node: NodeView, fields: Seq<SchemaFieldView>)
    requires
        forall|i: int| 0 <= i < fields.len() ==> is_fit(node, #[trigger] fields[i]),
    ensures
        first_error(node, fields) is None,
{
    crate::schema::law_valid_iff_every_field_valid(node, fields);
    assert forall|i: int| 0 <= i < fields.len() implies crate::schema::field_error(
        node,
        #[trigger] fields[i],
    ) is None by {
        let field = fields[i];
        assert(is_fit(node, field));
        let core = crate::node::listed_values(field.core_values);
        assert forall|v: Json|
            lists_value(field.core_values, v) || lists_value(field.user_values, v) implies exists|
            j: int,
        |
            0 <= j < field.values().len() && Json::Text((#[trigger] field.values()[j]).value) == v by {
            if lists_value(field.core_values, v) {
                let list = field.core_values->0;
                let j = choose|j: int|
                    0 <= j < list.len() && Json::Text((#[trigger] list[j]).value) == v;
                assert(field.values()[j] == list[j]);
            } else {
                let list = field.user_values->0;
                let j = choose|j: int|
                    0 <= j < list.len() && Json::Text((#[trigger] list[j]).value) == v;
                assert(field.values()[core.len() + j] == list[j]);
            }
        }
        let value = crate::schema::field_value(node, field.name);
        if value is Some {
            assert(has_field(node.properties, node.node_type, field.name, value->0));
        } else {
            assert forall|v: Json| !#[trigger] has_field(
                node.properties,
                node.node_type,
                field.name,
                v,
            ) by {}
        }
    }
}

/// A node that is read gets the version of its schema where it notes none, and then only if the schema
/// has fields; what it notes is kept.
pub proof fn law_read_nodes_note_a_version(
    node: NodeView,
    schema: Json,
    version: i64,
    ns: Seq<char>,
    field: Seq<char>,
    value: Json,
)
    requires
        node.properties is Object,
        node.properties.member(node.node_type) is None || is_spaced(node.properties, node.node_type),
        schema.member("version"@) == Some(integer(version)),
    ensures
        (schema.member("fields"@) matches Some(Json::Array(items)) && items.len() > 0) && (forall|v: Json|
            !#[trigger] has_field(
                node.properties,
                node.node_type,
                "_schema_version"@,
                v,
            )) ==> has_field(
            backfilled(node, Some(schema)),
            node.node_type,
            "_schema_version"@,
            integer(version),
        ),
        has_field(node.properties, node.node_type, field, value) ==> has_field(
            backfilled(node, Some(schema)),
            node.node_type,
            field,
            value,
        ),
        ns != node.node_type ==> backfilled(node, Some(schema)).member(ns)
            == node.properties.member(ns),
        !(schema.member("fields"@) matches Some(Json::Array(items)) && items.len() > 0) ==> backfilled(
            node,
            Some(schema),
        ) == node.properties,
        backfilled(node, None) == node.properties,
{
    law_integers_keep_their_value(version);
    if forall|v: Json|
        !#[trigger] has_field(node.properties, node.node_type, "_schema_version"@, v) {
        let noted = crate::schema::field_value(node, "_schema_version"@);
        if noted is Some {
            assert(has_field(node.properties, node.node_type, "_schema_version"@, noted->0));
        }
    }
}

/// A node is migrated exactly if it notes an older version than its schema states, and then to that
/// version.
pub proof fn law_older_nodes_are_migrated(
    node: NodeView,
    schema: Json,
    noted: u32,
    stated: u32,
)
    requires
        has_field(
            node.properties,
            node.node_type,
            "_schema_version"@,
            Json::Number(Number::PosInt(noted as u64)),
        ),
        schema.member("version"@) == Some(integer(stated as i64)),
    ensures
        migration_target_of(node, Some(schema)) == (if noted < stated {
            Some(stated)
        } else {
            None
        }),
{
    law_integers_keep_their_value(stated as i64);
}

/// The names of the fields of a schema are the names of its fields.
pub proof fn law_field_names(fields: Seq<SchemaFieldView>, i: int)
    requires
        0 <= i < fields.len(),
    ensures
        field_names(Some(fields)).contains(fields[i].name),
        field_names(None) == Set::<Seq<char>>::empty(),
{
}

} // verus!
