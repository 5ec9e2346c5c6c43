//! What updates promise.

use crate::error::ErrorView;
use crate::json::Json;
use crate::node::{NodeUpdateView, NodeView, SchemaFieldView};
use crate::properties::namespaced;
use crate::property_laws::{
    gives, has_field, is_spaced, law_defaults_are_filled_in, law_merging_applies_what_is_given,
    law_storage_form,
};
use crate::protocol::{OutcomeView, ReplyView, RequestView, StepView};
use crate::trace::{asked_at, was_asked};
use crate::update::{
    checked_against, title_affected, update_next, update_unchecked_next, update_versioned_next,
    updated_node,
};
use vstd::prelude::*;

verus! {

/// A versioned update, as a function of the replies.
pub open spec fn updating(
    id: Seq<char>,
    version: i64,
    update: NodeUpdateView,
) -> spec_fn(Seq<ReplyView>) -> StepView {
    |l: Seq<ReplyView>| update_versioned_next(id, version, update, l)
}

/// An update without a version, as a function of the replies.
pub open spec fn updating_unchecked(
    id: Seq<char>,
    update: NodeUpdateView,
) -> spec_fn(Seq<ReplyView>) -> StepView {
    |l: Seq<ReplyView>| update_unchecked_next(id, update, l)
}

/// What an option names, or else something.
pub open spec fn named_or(given: Option<Seq<char>>, otherwise: Seq<char>) -> Seq<char> {
    match given {
        Some(g) => g,
        None => otherwise,
    }
}

/// A node takes the type and the content that an update names, and keeps the rest.
pub open spec fn takes(before: NodeView, update: NodeUpdateView, after: NodeView) -> bool {
    &&& after.id == before.id
    &&& after.version == before.version
    &&& after.node_type == named_or(update.node_type, before.node_type)
    &&& after.content == named_or(update.content, before.content)
    &&& update.properties is None ==> after.properties == before.properties
}

/// The update names the field of the type that the node has afterwards, or the property of a schema.
pub open spec fn names_field(
    update: NodeUpdateView,
    node_type: Seq<char>,
    field: Seq<char>,
    value: Json,
) -> bool {
    &&& node_type != "schema"@
    &&& update.properties matches Some(p) && p is Object && gives(p, node_type, field, value)
}

/// The update says nothing of the field of a type.
pub open spec fn leaves_field(
    update: NodeUpdateView,
    node_type: Seq<char>,
    ns: Seq<char>,
    field: Seq<char>,
) -> bool {
    update.properties matches Some(p) ==> {
        &&& p is Object
        &&& node_type != "schema"@
        &&& p.member(ns) is None || is_spaced(p, ns) && p.member(ns)->0.member(field) is None
        &&& ns == node_type && !is_spaced(p, node_type) ==> p.member(field) is None
    }
}

/// What an update makes of a node: every field that it names has the given value, every field that it
/// does not name keeps its value, and a schema takes the properties as they are.
pub proof fn law_updates_apply_what_is_given(
    before: NodeView,
    update: NodeUpdateView,
    ns: Seq<char>,
    field: Seq<char>,
    value: Json,
)
    requires
        before.properties is Object,
    ensures
        takes(before, update, updated_node(before, update)),
        ({
            let after = updated_node(before, update);
            let t = named_or(update.node_type, before.node_type);
            &&& names_field(update, t, field, value) ==> has_field(after.properties, t, field, value)
            &&& has_field(before.properties, ns, field, value) && leaves_field(update, t, ns, field)
                ==> has_field(after.properties, ns, field, value)
            &&& t == "schema"@ && (update.properties matches Some(p) && p is Object && p.member(field)
                == Some(value)) && !(value is Object) ==> after.properties.member(field) == Some(value)
            &&& t == "schema"@ && (update.properties matches Some(p) && p is Object && p.member(field)
                is None) ==> after.properties.member(field) == before.properties.member(field)
        }),
{
    let t = named_or(update.node_type, before.node_type);
    if let Some(p) = update.properties {
        if p is Object {
            let new = if t == "schema"@ {
                p
            } else {
                namespaced(t, p, Set::empty())
            };
            law_storage_form(t, p, Set::empty(), field, value);
            law_merging_applies_what_is_given(before.properties, new, t, field, value);
            law_merging_applies_what_is_given(before.properties, new, ns, field, value);
            law_merging_applies_what_is_given(before.properties, new, field, field, value);
            if new.member(ns) is Some && new.member(ns)->0.member(field) is Some {
                law_storage_form(
                    t,
                    p,
                    Set::empty(),
                    field,
                    new.member(ns)->0.member(field)->0,
                );
            }
        }
    }
}

/// Where a versioned update asks the store, it asks for this node and this version, and what it stores
/// is what the update names: type, content, status, a given title, every given property; the rest is
/// as it was read. It asks only after the behavior of the type accepted the very node.
pub proof fn law_versioned_updates_store_what_is_given(
    id: Seq<char>,
    version: i64,
    update: NodeUpdateView,
    log: Seq<ReplyView>,
    before: NodeView,
    stored_id: Seq<char>,
    stored_version: i64,
    change: NodeUpdateView,
    ns: Seq<char>,
    field: Seq<char>,
    value: Json,
)
    requires
        update_versioned_next(id, version, update, log) == StepView::Ask(
            RequestView::StoreVersionedUpdate {
                id: stored_id,
                expected_version: stored_version,
                update: change,
            },
        ),
        log[0] == (ReplyView::Node { node: Some(before) }),
        before.properties is Object,
    ensures
        stored_id == id,
        stored_version == version,
        change.node_type == Some(named_or(update.node_type, before.node_type)),
        change.content == Some(named_or(update.content, before.content)),
        change.lifecycle_status == update.lifecycle_status,
        update.title is Some ==> change.title == update.title,
        update.properties is None ==> change.properties == Some(before.properties),
        change.properties is Some,
        ({
            let t = named_or(update.node_type, before.node_type);
            let stored = change.properties->0;
            &&& names_field(update, t, field, value) ==> has_field(stored, t, field, value)
            &&& has_field(before.properties, ns, field, value) && leaves_field(update, t, ns, field)
                ==> has_field(stored, ns, field, value)
        }),
        log.len() >= 2,
        update_versioned_next(id, version, update, log.take(1)) matches StepView::Ask(
            RequestView::ValidateBehavior { node },
        ) && takes(before, update, node) && Some(node.properties) == change.properties,
        log[1] == ReplyView::Done,
        named_or(update.node_type, before.node_type) == "task"@ ==> log.len() > 2
            && update_versioned_next(id, version, update, log.take(2)) == StepView::Ask(
            RequestView::LoadSchema { node_type: "task"@ },
        ),
{
    law_updates_apply_what_is_given(before, update, ns, field, value);
    assert(log.take(1)[0] == log[0]);
    assert(log.take(2)[0] == log[0]);
    assert(log.take(2).skip(1)[0] == log[1]);
}

/// As long as nothing was given that a title is made of, the title stays; a title that is not given is
/// computed anew, from the node as it will be.
pub proof fn law_titles_follow_updates(
    id: Seq<char>,
    version: i64,
    update: NodeUpdateView,
    log: Seq<ReplyView>,
    before: NodeView,
    change: NodeUpdateView,
)
    requires
        update_versioned_next(id, version, update, log) == StepView::Ask(
            RequestView::StoreVersionedUpdate { id, expected_version: version, update: change },
        ) || update_unchecked_next(id, update, log) == StepView::Ask(
            RequestView::StoreUpdate { id, update: change },
        ) || update_unchecked_next(id, update, log) == StepView::Ask(
            RequestView::StoreSchemaUpdate { id, update: change },
        ),
        log[0] == (ReplyView::Node { node: Some(before) }),
        update.title is None,
    ensures
        change.content == Some(before.content) && change.node_type == Some(before.node_type)
            && update.properties is None ==> change.title is None,
        change.content != Some(before.content) || change.node_type != Some(before.node_type)
            || update.properties is Some ==> (log.last() matches ReplyView::MaybeText { text }
            && change.title == Some(text)),
{
}

/// The place of the store request in a versioned update.
spec fn store_place(before: NodeView, update: NodeUpdateView) -> int {
    let after = updated_node(before, update);
    2 + (if after.node_type == "task"@ {
        1int
    } else {
        0
    }) + (if after.node_type == "playbook"@ && update.properties is Some {
        1int
    } else {
        0
    }) + (if title_affected(before, after, update) {
        1int
    } else {
        0
    })
}

/// A versioned update that ends with a node was stored, and the node is what the store made of it. If
/// the content changed, the root above was queued and the mentions follow from the old to the new
/// content. One that ends without a node was refused by the store, because the version was another.
pub proof fn law_finished_updates_were_stored(
    id: Seq<char>,
    version: i64,
    update: NodeUpdateView,
    log: Seq<ReplyView>,
    before: NodeView,
    result: Option<NodeView>,
)
    requires
        update_versioned_next(id, version, update, log) == StepView::Finish(
            OutcomeView::MaybeNode { node: result },
        ),
        log[0] == (ReplyView::Node { node: Some(before) }),
    ensures
        exists|k: int, change: NodeUpdateView|
            {
                &&& #[trigger] asked_at(
                    updating(id, version, update),
                    log,
                    RequestView::StoreVersionedUpdate {
                        id,
                        expected_version: version,
                        update: change,
                    },
                    k,
                )
                &&& log[k] == (ReplyView::Node { node: result })
            },
        result is Some && named_or(update.content, before.content) != before.content ==> {
            &&& was_asked(
                updating(id, version, update),
                log,
                RequestView::QueueRootInBackground { id },
            )
            &&& was_asked(
                updating(id, version, update),
                log,
                RequestView::SyncMentions {
                    id,
                    old_content: before.content,
                    new_content: named_or(update.content, before.content),
                },
            )
        },
{
    let op = updating(id, version, update);
    let after = updated_node(before, update);
    let k = store_place(before, update);
    reveal_strlit("task");
    reveal_strlit("playbook");
    assert("task"@.len() != "playbook"@.len());
    let head = log.take(k);
    assert(head[0] == log[0]);
    assert(op(head) is Ask);
    let change = op(head)->Ask_0->StoreVersionedUpdate_update;
    assert(asked_at(
        op,
        log,
        RequestView::StoreVersionedUpdate { id, expected_version: version, update: change },
        k,
    ));
    if result is Some && after.content != before.content {
        let queue = RequestView::QueueRootInBackground { id };
        let sync = RequestView::SyncMentions {
            id,
            old_content: before.content,
            new_content: after.content,
        };
        assert(asked_at(op, log, queue, k + 1)) by {
            assert(log.take(k + 1)[0] == log[0]);
        }
        assert(asked_at(op, log, sync, k + 2)) by {
            assert(log.take(k + 2)[0] == log[0]);
        }
    }
}

/// An update that names nothing is refused, and so is one of a node that is not there.
pub proof fn law_bad_updates_are_refused(
    id: Seq<char>,
    version: i64,
    update: NodeUpdateView,
    log: Seq<ReplyView>,
)
    ensures
        update.node_type is None && update.content is None && update.properties is None
            && update.title is None && update.lifecycle_status is None ==> {
            &&& update_versioned_next(id, version, update, log) matches StepView::Fail(
                ErrorView::InvalidUpdate(_),
            )
            &&& update_unchecked_next(id, update, log) matches StepView::Fail(
                ErrorView::InvalidUpdate(_),
            )
            &&& update_next(id, version, update, log) matches StepView::Fail(
                ErrorView::InvalidUpdate(_),
            )
        },
        update.node_type is Some || update.content is Some || update.properties is Some
            || update.title is Some || update.lifecycle_status is Some ==> {
            &&& update_versioned_next(id, version, update, Seq::empty()) == StepView::Ask(
                RequestView::GetNode { id },
            )
            &&& update_unchecked_next(id, update, Seq::empty()) == StepView::Ask(
                RequestView::GetNode { id },
            )
            &&& update_next(id, version, update, Seq::empty()) == StepView::Ask(
                RequestView::VersionedUpdate { id, expected_version: version, update },
            )
            &&& log.len() > 0 && log[0] == (ReplyView::Node { node: None }) ==> update_versioned_next(
                id,
                version,
                update,
                log,
            ) == StepView::Fail(ErrorView::NodeNotFound { id }) && update_unchecked_next(
                id,
                update,
                log,
            ) == StepView::Fail(ErrorView::NodeNotFound { id })
        },
{
}

/// An update is owed where nothing speaks against it: of a node that is neither task nor playbook, and
/// of whose title nothing changes.
pub proof fn law_updates_are_owed(
    before: NodeView,
    status: Seq<char>,
    content: Seq<char>,
    title: Option<Seq<char>>,
    stored: NodeView,
)
    requires
        before.node_type != "task"@,
        before.node_type != "playbook"@,
        before.content != content,
    ensures
        ({
            let update = NodeUpdateView {
                node_type: None,
                content: None,
                properties: None,
                title: None,
                lifecycle_status: Some(status),
            };
            let two = seq![ReplyView::Node { node: Some(before) }, ReplyView::Done];
            &&& update_versioned_next(before.id, before.version, update, two) is Ask
            &&& update_versioned_next(
                before.id,
                before.version,
                update,
                two.push(ReplyView::Node { node: Some(stored) }),
            ) == StepView::Finish(OutcomeView::MaybeNode { node: Some(stored) })
        }),
        ({
            let update = NodeUpdateView {
                node_type: None,
                content: Some(content),
                properties: None,
                title: None,
                lifecycle_status: None,
            };
            let two = seq![ReplyView::Node { node: Some(before) }, ReplyView::Done];
            let three = two.push(ReplyView::MaybeText { text: title });
            let four = three.push(ReplyView::Node { node: Some(stored) });
            &&& update_versioned_next(before.id, before.version, update, two) matches StepView::Ask(
                RequestView::ComputeTitle { node, is_root: None },
            ) && node.content == content && node.id == before.id
            &&& update_versioned_next(before.id, before.version, update, three) is Ask
            &&& update_versioned_next(before.id, before.version, update, four) == StepView::Ask(
                RequestView::QueueRootInBackground { id: before.id },
            )
            &&& update_versioned_next(
                before.id,
                before.version,
                update,
                four.push(ReplyView::Done).push(ReplyView::Done),
            ) == StepView::Finish(OutcomeView::MaybeNode { node: Some(stored) })
        }),
{
}

/// The update that callers use gives the node that was stored, and tells a conflict with the version
/// that the node has.
pub proof fn law_callers_get_the_stored_node(
    id: Seq<char>,
    version: i64,
    update: NodeUpdateView,
    log: Seq<ReplyView>,
    node: NodeView,
    error: ErrorView,
)
    requires
        update.node_type is Some || update.content is Some || update.properties is Some
            || update.title is Some || update.lifecycle_status is Some,
    ensures
        update_next(id, version, update, seq![ReplyView::Node { node: Some(node) }])
            == StepView::Finish(OutcomeView::Node { node }),
        update_next(id, version, update, seq![ReplyView::Refused { error }]) == StepView::Fail(error),
        update_next(id, version, update, seq![ReplyView::Node { node: None }]) == StepView::Ask(
            RequestView::LoadNode { id },
        ),
        update_next(id, version, update, log) is Finish ==> log.len() > 0 && (log[0] matches ReplyView::Node {
            node: Some(n),
        } && update_next(id, version, update, log) == StepView::Finish(OutcomeView::Node { node: n })),
{
}

/// Where an update without a version asks the store, it asks for this node, as a schema exactly if it
/// is one afterwards, and what it stores is what the update names. A node that changes its type may
/// also get defaults of the new type.
pub proof fn law_unchecked_updates_store_what_is_given(
    id: Seq<char>,
    update: NodeUpdateView,
    log: Seq<ReplyView>,
    before: NodeView,
    stored_id: Seq<char>,
    change: NodeUpdateView,
    ns: Seq<char>,
    field: Seq<char>,
    value: Json,
)
    requires
        update_unchecked_next(id, update, log) == StepView::Ask(
            RequestView::StoreUpdate { id: stored_id, update: change },
        ) || update_unchecked_next(id, update, log) == StepView::Ask(
            RequestView::StoreSchemaUpdate { id: stored_id, update: change },
        ),
        log[0] == (ReplyView::Node { node: Some(before) }),
        before.properties is Object,
        update.properties matches Some(p) ==> p is Object,
    ensures
        stored_id == id,
        update_unchecked_next(id, update, log)->Ask_0 is StoreSchemaUpdate <==> named_or(
            update.node_type,
            before.node_type,
        ) == "schema"@,
        change.node_type == Some(named_or(update.node_type, before.node_type)),
        change.content == Some(named_or(update.content, before.content)),
        change.lifecycle_status == update.lifecycle_status,
        update.title is Some ==> change.title == update.title,
        update.properties is None && named_or(update.node_type, before.node_type) == before.node_type
            ==> change.properties == Some(before.properties),
        change.properties is Some,
        ({
            let t = named_or(update.node_type, before.node_type);
            let stored = change.properties->0;
            &&& names_field(update, t, field, value) ==> has_field(stored, t, field, value)
            &&& has_field(before.properties, ns, field, value) && leaves_field(update, t, ns, field)
                ==> has_field(stored, ns, field, value)
        }),
        log.len() >= 2,
        update_unchecked_next(id, update, log.take(1)) matches StepView::Ask(
            RequestView::ValidateBehavior { node },
        ) && takes(before, update, node),
        log[1] == ReplyView::Done,
{
    law_updates_apply_what_is_given(before, update, ns, field, value);
    assert(log.take(1)[0] == log[0]);
    let after = updated_node(before, update);
    let t = after.node_type;
    if t != "schema"@ {
        if let ReplyView::Schema { schema: Some(_), fields: Some(fields) } = log.skip(1).skip(1)[0] {
            law_defaults_are_filled_in(t, after.properties, fields, 0, field, value);
            law_defaults_are_filled_in(t, after.properties, fields, 0, ns, value);
        }
    }
}

/// A node that changes its type gets the defaults of the new type where it has nothing.
pub proof fn law_type_changes_bring_defaults(
    id: Seq<char>,
    update: NodeUpdateView,
    log: Seq<ReplyView>,
    before: NodeView,
    node_type: Seq<char>,
    schema: Json,
    fields: Seq<SchemaFieldView>,
    change: NodeUpdateView,
    i: int,
    value: Json,
)
    requires
        update_unchecked_next(id, update, log) == StepView::Ask(
            RequestView::StoreUpdate { id, update: change },
        ),
        log[0] == (ReplyView::Node { node: Some(before) }),
        before.properties is Object,
        update.node_type == Some(node_type),
        node_type != before.node_type,
        node_type != "schema"@,
        update.properties is None,
        log[2] == (ReplyView::Schema { schema: Some(schema), fields: Some(fields) }),
        0 <= i < fields.len(),
        fields[i].default == Some(value),
        forall|d: Json| !#[trigger] has_field(before.properties, node_type, fields[i].name, d),
        forall|j: int|
            0 <= j < i ==> (#[trigger] fields[j]).name != fields[i].name || fields[j].default is None,
    ensures
        change.properties matches Some(p) && has_field(p, node_type, fields[i].name, value),
{
    let after = updated_node(before, update);
    law_defaults_are_filled_in(node_type, before.properties, fields, i, fields[i].name, value);
    assert(log.skip(1).skip(1)[0] == log[2]);
}

/// An update without a version that ends well was stored, and the mentions follow a changed content.
pub proof fn law_finished_unchecked_updates_were_stored(
    id: Seq<char>,
    update: NodeUpdateView,
    log: Seq<ReplyView>,
    before: NodeView,
)
    requires
        update_unchecked_next(id, update, log) is Finish,
        log[0] == (ReplyView::Node { node: Some(before) }),
    ensures
        update_unchecked_next(id, update, log) == StepView::Finish(OutcomeView::Nothing),
        exists|k: int|
            {
                &&& 0 <= k < log.len()
                &&& log[k] == ReplyView::Done
                &&& (#[trigger] update_unchecked_next(id, update, log.take(k))) matches StepView::Ask(
                    request,
                ) && (match request {
                    RequestView::StoreUpdate { id: i, update: _ } => i == id,
                    RequestView::StoreSchemaUpdate { id: i, update: _ } => i == id,
                    _ => false,
                })
            },
        named_or(update.content, before.content) != before.content ==> was_asked(
            updating_unchecked(id, update),
            log,
            RequestView::SyncMentions {
                id,
                old_content: before.content,
                new_content: named_or(update.content, before.content),
            },
        ),
{
    let op = updating_unchecked(id, update);
    let after = updated_node(before, update);
    let checked = if after.node_type == "schema"@ {
        after
    } else {
        match log.skip(1).skip(1)[0] {
            ReplyView::Schema { schema: Some(_), fields: Some(fields) } => checked_against(
                after,
                fields,
                before.node_type != after.node_type,
            )->Ok_0,
            _ => after,
        }
    };
    let k: int = 2 + (if after.node_type == "schema"@ {
        0int
    } else {
        1
    }) + (if title_affected(before, checked, update) {
        1int
    } else {
        0
    });
    assert(log.take(k)[0] == log[0]);
    assert(op(log.take(k)) is Ask);
    assert(update_unchecked_next(id, update, log.take(k)) is Ask);
    if after.content != before.content {
        let sync = RequestView::SyncMentions {
            id,
            old_content: before.content,
            new_content: after.content,
        };
        assert(asked_at(op, log, sync, k + 1)) by {
            assert(log.take(k + 1)[0] == log[0]);
        }
    }
}

/// A node that its schema finds wrong is not stored by an update: neither a task with a version, nor
/// any node without one.
pub proof fn law_wrong_nodes_are_not_stored(
    id: Seq<char>,
    version: i64,
    update: NodeUpdateView,
    log: Seq<ReplyView>,
    before: NodeView,
    schema: Json,
    fields: Seq<SchemaFieldView>,
)
    requires
        log.len() > 2,
        log[0] == (ReplyView::Node { node: Some(before) }),
        log[1] == ReplyView::Done,
        log[2] == (ReplyView::Schema { schema: Some(schema), fields: Some(fields) }),
        crate::schema::first_error(updated_node(before, update), fields) is Some,
        update.node_type is Some || update.content is Some || update.properties is Some
            || update.title is Some || update.lifecycle_status is Some,
    ensures
        named_or(update.node_type, before.node_type) == "task"@ ==> update_versioned_next(
            id,
            version,
            update,
            log,
        ) matches StepView::Fail(ErrorView::InvalidUpdate(_)),
        named_or(update.node_type, before.node_type) != "schema"@ && named_or(
            update.node_type,
            before.node_type,
        ) == before.node_type ==> update_unchecked_next(id, update, log) matches StepView::Fail(
            ErrorView::InvalidUpdate(_),
        ),
{
    assert(log.skip(1).skip(1)[0] == log[2]);
    assert(log.skip(1)[0] == log[1]);
    let after = updated_node(before, update);
    assert(NodeView { properties: after.properties, ..after } == after);
}

/// An update of a node whose schema is not known, or whose fields cannot be read, is stored as it is.
pub proof fn law_updates_without_a_schema_are_stored(
    id: Seq<char>,
    version: i64,
    update: NodeUpdateView,
    before: NodeView,
    schema: Option<Json>,
    fields: Option<Seq<SchemaFieldView>>,
    stored: NodeView,
)
    requires
        update.title is Some,
        update.node_type is None,
        update.content is None,
        schema is None || fields is None,
    ensures
        ({
            let log = seq![
                ReplyView::Node { node: Some(before) },
                ReplyView::Done,
                ReplyView::Schema { schema, fields },
            ];
            &&& before.node_type == "task"@ ==> {
                &&& (update_versioned_next(id, version, update, log) matches StepView::Ask(
                    RequestView::StoreVersionedUpdate { id: i, expected_version: v, update: u },
                ) && i == id && v == version && u.title == update.title && u.content == Some(
                    before.content,
                ))
                &&& update_versioned_next(
                    id,
                    version,
                    update,
                    log.push(ReplyView::Node { node: Some(stored) }),
                ) == StepView::Finish(OutcomeView::MaybeNode { node: Some(stored) })
            }
            &&& before.node_type != "schema"@ ==> {
                &&& (update_unchecked_next(id, update, log) matches StepView::Ask(
                    RequestView::StoreUpdate { id: i, update: u },
                ) && i == id && u.title == update.title && u.content == Some(before.content))
                &&& update_unchecked_next(id, update, log.push(ReplyView::Done)) == StepView::Finish(
                    OutcomeView::Nothing,
                )
            }
        }),
{
    reveal_strlit("task");
    reveal_strlit("playbook");
    assert("task"@.len() != "playbook"@.len());
    let log = seq![
        ReplyView::Node { node: Some(before) },
        ReplyView::Done,
        ReplyView::Schema { schema, fields },
    ];
    let a = log.push(ReplyView::Node { node: Some(stored) });
    let b = log.push(ReplyView::Done);
    assert(log.skip(1).skip(1)[0] == log[2]);
    assert(a.skip(1).skip(1)[0] == a[2]);
    assert(a.skip(1).skip(1).skip(1)[0] == a[3]);
    assert(b.skip(1).skip(1)[0] == b[2]);
    assert(b.skip(1).skip(1).skip(1)[0] == b[3]);
}

} // verus!
