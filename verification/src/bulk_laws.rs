//! What operations on several nodes promise.

use crate::bulk::{
    bulk_behavior_next, bulk_create_next, bulk_delete_next, bulk_schema_next,
    bulk_update_check_next, bulk_update_next, bulk_update_schema_next, fields_for, ids_of,
    import_check_next, import_next, import_nodes, import_roots_next, import_schemas_next,
    import_types, index_in, law_imports_are_checked_before_they_are_stored, replaced_node, types_of,
    ImportKind, ImportView,
};
use crate::error::ErrorView;
use crate::json::Json;
use crate::mentions::{distinct, lemma_distinct};
use crate::node::{BulkNodeView, NodeUpdateView, NodeView, SchemaFieldView};
use crate::properties::field_names;
use crate::property_laws::{gives, has_field, is_spaced, law_storage_form};
use crate::protocol::{OutcomeView, ReplyView, RequestView, StepView};
use crate::schema::first_error;
use crate::sequences::lemma_push_contains;
use crate::trace::{asked_at, lemma_answered_later, lemma_asked_later, was_answered, was_asked};
use vstd::prelude::*;

verus! {

/// The creation of several nodes, as a function of the replies.
pub open spec fn creating_all(nodes: Seq<NodeView>) -> spec_fn(Seq<ReplyView>) -> StepView {
    |l: Seq<ReplyView>| bulk_create_next(nodes, l)
}

/// The reply holds the fields of a schema, and nothing is wrong with the node under them, or it holds
/// no schema.
pub open spec fn has_nothing_against(reply: ReplyView, node: NodeView) -> bool {
    &&& reply is Schema
    &&& (reply matches ReplyView::Schema { schema: Some(_), fields: Some(fields) } ==> first_error(
        node,
        fields,
    ) is None)
}

/// The schema of the node was asked for, and had nothing against it.
pub open spec fn passed_schema(
    op: spec_fn(Seq<ReplyView>) -> StepView,
    log: Seq<ReplyView>,
    node: NodeView,
) -> bool {
    exists|k: int|
        #[trigger] asked_at(op, log, RequestView::LoadSchema { node_type: node.node_type }, k)
            && has_nothing_against(log[k], node)
}

proof fn lemma_passed_later(
    op: spec_fn(Seq<ReplyView>) -> StepView,
    inner: spec_fn(Seq<ReplyView>) -> StepView,
    log: Seq<ReplyView>,
    n: int,
    node: NodeView,
)
    requires
        0 <= n <= log.len(),
        forall|k: int| n <= k <= log.len() ==> #[trigger] op(log.take(k)) == inner(
            log.skip(n).take(k - n),
        ),
        passed_schema(inner, log.skip(n), node),
    ensures
        passed_schema(op, log, node),
{
    let request = RequestView::LoadSchema { node_type: node.node_type };
    let k = choose|k: int|
        #[trigger] asked_at(inner, log.skip(n), request, k) && has_nothing_against(
            log.skip(n)[k],
            node,
        );
    assert(op(log.take(k + n)) == inner(log.skip(n).take(k)));
    assert(asked_at(op, log, request, k + n));
    assert(log[k + n] == log.skip(n)[k]);
}

proof fn lemma_batch(left: Seq<NodeView>, all: Seq<NodeView>, log: Seq<ReplyView>, i: int)
    requires
        bulk_behavior_next(left, all, log) is Finish,
    ensures
        was_asked(
            |l: Seq<ReplyView>| bulk_behavior_next(left, all, l),
            log,
            RequestView::StoreBatch { nodes: all },
        ),
        0 <= i < left.len() ==> was_answered(
            |l: Seq<ReplyView>| bulk_behavior_next(left, all, l),
            log,
            RequestView::ValidateBehavior { node: left[i] },
            ReplyView::Done,
        ),
        0 <= i < left.len() && left[i].node_type != "schema"@ ==> passed_schema(
            |l: Seq<ReplyView>| bulk_behavior_next(left, all, l),
            log,
            left[i],
        ),
    decreases left.len(),
{
    let op = |l: Seq<ReplyView>| bulk_behavior_next(left, all, l);
    let store = RequestView::StoreBatch { nodes: all };
    if left.len() == 0 {
        assert(log.take(0).len() == 0);
        assert(asked_at(op, log, store, 0));
    } else {
        let n: int = if left[0].node_type == "schema"@ {
            1
        } else {
            2
        };
        let fewer = left.skip(1);
        let inner = |l: Seq<ReplyView>| bulk_behavior_next(fewer, all, l);
        let rest = log.skip(n);
        assert(bulk_behavior_next(left, all, log) == bulk_schema_next(left, all, log.skip(1)));
        if n == 2 {
            assert(log.skip(1).skip(1) =~= rest);
            assert(log.skip(1)[0] == log[1]);
        }
        lemma_batch(fewer, all, rest, i - 1);
        assert forall|k: int| n <= k <= log.len() implies #[trigger] op(log.take(k)) == inner(
            rest.take(k - n),
        ) by {
            let part = log.take(k);
            assert(part[0] == log[0]);
            assert(bulk_behavior_next(left, all, part) == bulk_schema_next(left, all, part.skip(1)));
            if n == 2 {
                assert(part.skip(1)[0] == log[1]);
                assert(part.skip(1).skip(1) =~= rest.take(k - n));
            } else {
                assert(part.skip(1) =~= rest.take(k - n));
            }
        }
        lemma_asked_later(op, inner, log, n, store);
        if i == 0 {
            assert(log.take(0).len() == 0);
            assert(asked_at(op, log, RequestView::ValidateBehavior { node: left[0] }, 0));
            if n == 2 {
                assert(log.take(1)[0] == log[0]);
                assert(log.take(1).skip(1).len() == 0);
                assert(bulk_behavior_next(left, all, log.take(1)) == bulk_schema_next(
                    left,
                    all,
                    log.take(1).skip(1),
                ));
                assert(asked_at(
                    op,
                    log,
                    RequestView::LoadSchema { node_type: left[0].node_type },
                    1,
                ));
            }
        } else if 0 < i < left.len() {
            assert(fewer[i - 1] == left[i]);
            lemma_answered_later(
                op,
                inner,
                log,
                n,
                RequestView::ValidateBehavior { node: left[i] },
                ReplyView::Done,
            );
            if left[i].node_type != "schema"@ {
                lemma_passed_later(op, inner, log, n, left[i]);
            }
        }
    }
}

/// A batch that was created was stored, with all its nodes as they were given, and the caller gets the
/// identifier of each. The behaviors and the schemas had nothing against any of them.
pub proof fn law_created_batches_were_stored(
    nodes: Seq<NodeView>,
    log: Seq<ReplyView>,
    ids: Seq<Seq<char>>,
    i: int,
)
    requires
        bulk_create_next(nodes, log) == StepView::Finish(OutcomeView::Ids { ids }),
    ensures
        ids.len() == nodes.len(),
        0 <= i < nodes.len() ==> ids[i] == nodes[i].id,
        nodes.len() > 0 ==> was_asked(
            creating_all(nodes),
            log,
            RequestView::StoreBatch { nodes },
        ),
        0 <= i < nodes.len() ==> was_answered(
            creating_all(nodes),
            log,
            RequestView::ValidateBehavior { node: nodes[i] },
            ReplyView::Done,
        ),
        0 <= i < nodes.len() && nodes[i].node_type != "schema"@ ==> passed_schema(
            creating_all(nodes),
            log,
            nodes[i],
        ),
{
    crate::bulk::law_batch_identifiers_keep_their_order(nodes, log);
    if nodes.len() > 0 {
        lemma_batch(nodes, nodes, log, i);
        let op = creating_all(nodes);
        let inner = |l: Seq<ReplyView>| bulk_behavior_next(nodes, nodes, l);
        assert(log.skip(0) =~= log);
        assert forall|k: int| 0 <= k <= log.len() implies #[trigger] op(log.take(k)) == inner(
            log.skip(0).take(k - 0),
        ) by {}
        lemma_asked_later(op, inner, log, 0, RequestView::StoreBatch { nodes });
        if 0 <= i < nodes.len() {
            lemma_answered_later(
                op,
                inner,
                log,
                0,
                RequestView::ValidateBehavior { node: nodes[i] },
                ReplyView::Done,
            );
            if nodes[i].node_type != "schema"@ {
                lemma_passed_later(op, inner, log, 0, nodes[i]);
            }
        }
    }
}

/// A batch with a node that its behavior or its schema refuses is refused.
pub proof fn law_bad_batches_are_refused(
    node: NodeView,
    more: Seq<NodeView>,
    error: ErrorView,
    schema: crate::json::Json,
    fields: Seq<SchemaFieldView>,
)
    ensures
        bulk_create_next(seq![node] + more, seq![ReplyView::Refused { error }]) == StepView::Fail(error),
        node.node_type != "schema"@ && first_error(node, fields) is Some ==> (bulk_create_next(
            seq![node] + more,
            seq![
                ReplyView::Done,
                ReplyView::Schema { schema: Some(schema), fields: Some(fields) },
            ],
        ) matches StepView::Fail(ErrorView::InvalidUpdate(_))),
{
    let nodes = seq![node] + more;
    let log = seq![
        ReplyView::Done,
        ReplyView::Schema { schema: Some(schema), fields: Some(fields) },
    ];
    assert(nodes[0] == node);
    assert(bulk_behavior_next(nodes, nodes, log) == bulk_schema_next(nodes, nodes, log.skip(1)));
}

/// A batch of one node that nothing speaks against is created.
pub proof fn law_good_batches_are_owed(node: NodeView, stored: Seq<NodeView>)
    ensures
        node.node_type != "schema"@ ==> bulk_create_next(
            seq![node],
            seq![
                ReplyView::Done,
                ReplyView::Schema { schema: None, fields: None },
                ReplyView::Nodes { nodes: stored },
            ],
        ) == StepView::Finish(OutcomeView::Ids { ids: seq![node.id] }),
        bulk_create_next(Seq::empty(), Seq::empty()) == StepView::Finish(
            OutcomeView::Ids { ids: Seq::empty() },
        ),
{
    let nodes = seq![node];
    let log = seq![
        ReplyView::Done,
        ReplyView::Schema { schema: None, fields: None },
        ReplyView::Nodes { nodes: stored },
    ];
    reveal_with_fuel(bulk_behavior_next, 3);
    reveal_with_fuel(bulk_schema_next, 3);
    assert(log.skip(1).skip(1)[0] == log[2]);
    assert(nodes.skip(1).len() == 0);
    assert(ids_of(nodes) =~= seq![node.id]);
}

/// The position of a text is the first one that holds it, and there is one exactly if the list has it.
pub proof fn law_texts_are_found(list: Seq<Seq<char>>, text: Seq<char>, i: int)
    ensures
        0 <= index_in(list, text) <= list.len(),
        index_in(list, text) < list.len() ==> list[index_in(list, text)] == text,
        0 <= i < list.len() && list[i] == text ==> index_in(list, text) <= i,
    decreases list.len(),
{
    if list.len() > 0 {
        law_texts_are_found(list.drop_last(), text, i);
    }
}

proof fn lemma_filtered_once(list: Seq<Seq<char>>, wanted: spec_fn(Seq<char>) -> bool)
    requires
        list.no_duplicates(),
    ensures
        list.filter(wanted).no_duplicates(),
        forall|x: Seq<char>| #[trigger]
            list.filter(wanted).contains(x) <==> list.contains(x) && wanted(x),
    decreases list.len(),
{
    reveal(Seq::filter);
    if list.len() > 0 {
        let front = list.drop_last();
        let last = list.last();
        lemma_filtered_once(front, wanted);
        lemma_push_contains(front, last);
        lemma_push_contains(front.filter(wanted), last);
        assert(front.push(last) =~= list);
        if front.contains(last) {
            let i = choose|i: int| 0 <= i < front.len() && front[i] == last;
            assert(list[i] == list[list.len() - 1]);
        }
        let kept = front.filter(wanted);
        assert forall|a: int, b: int|
            0 <= a < kept.push(last).len() && 0 <= b < kept.push(last).len() && a
                != b implies kept.push(last)[a] != kept.push(last)[b] by {
            if a == kept.len() {
                assert(kept.contains(kept[b]));
            } else if b == kept.len() {
                assert(kept.contains(kept[a]));
            }
        }
    }
}

/// An import asks for the schema of every type among its nodes, except that of schemas, once; one from
/// a trusted source asks for none.
pub proof fn law_import_types(nodes: Seq<BulkNodeView>, t: Seq<char>)
    ensures
        import_types(nodes, ImportKind::Trusted).len() == 0,
        import_types(nodes, ImportKind::Announced) == import_types(nodes, ImportKind::RootAnnounced),
        import_types(nodes, ImportKind::Announced).contains(t) <==> t != "schema"@ && exists|i: int|
            0 <= i < nodes.len() && (#[trigger] nodes[i]).node_type == t,
        import_types(nodes, ImportKind::Announced).no_duplicates(),
{
    let all = nodes.map_values(|n: BulkNodeView| n.node_type);
    let wanted = |t: Seq<char>| t != "schema"@;
    lemma_distinct(all);
    let types = distinct(all);
    lemma_filtered_once(types, wanted);
    if types.contains(t) {
        let i = choose|i: int| 0 <= i < all.len() && all[i] == t;
        assert(nodes[i].node_type == t);
    }
    if exists|i: int| 0 <= i < nodes.len() && (#[trigger] nodes[i]).node_type == t {
        let i = choose|i: int| 0 <= i < nodes.len() && (#[trigger] nodes[i]).node_type == t;
        assert(all[i] == t);
    }
}

/// An import stores the nodes that were given, each with its identifier, type, text, parent and order,
/// in their order; only the root is announced unless the caller wants all to be.
pub proof fn law_imports_store_what_is_given(
    nodes: Seq<BulkNodeView>,
    kind: ImportKind,
    now: i64,
    log: Seq<ReplyView>,
    stored: Seq<BulkNodeView>,
    root_only: bool,
    i: int,
)
    requires
        import_next(nodes, kind, now, log) == StepView::Ask(
            RequestView::StoreHierarchy { nodes: stored, root_only },
        ),
    ensures
        stored.len() == nodes.len(),
        root_only <==> kind != ImportKind::Announced,
        0 <= i < nodes.len() ==> {
            &&& stored[i].id == nodes[i].id
            &&& stored[i].node_type == nodes[i].node_type
            &&& stored[i].content == nodes[i].content
            &&& stored[i].parent_id == nodes[i].parent_id
            &&& stored[i].order == nodes[i].order
        },
{
    law_imports_are_checked_before_they_are_stored(nodes, kind, now, log, 0);
}

/// The fields that an import goes by are those that the reply to the question for this type gave.
pub proof fn law_imports_go_by_the_schema(
    types: Seq<Seq<char>>,
    schemas: Seq<ReplyView>,
    i: int,
    schema: crate::json::Json,
    fields: Option<Seq<SchemaFieldView>>,
)
    requires
        types.no_duplicates(),
        0 <= i < types.len(),
        i < schemas.len(),
    ensures
        schemas[i] == (ReplyView::Schema { schema: Some(schema), fields }) ==> fields_for(
            types,
            schemas,
            types[i],
        ) == fields,
        schemas[i] == (ReplyView::Schema { schema: None, fields }) ==> fields_for(
            types,
            schemas,
            types[i],
        ) is None,
{
    law_texts_are_found(types, types[i], i);
    assert(types[index_in(types, types[i])] == types[i]);
}

/// The import of nodes, as a function of the replies.
pub open spec fn importing(
    nodes: Seq<BulkNodeView>,
    kind: ImportKind,
    now: i64,
) -> spec_fn(Seq<ReplyView>) -> StepView {
    |l: Seq<ReplyView>| import_next(nodes, kind, now, l)
}

/// The store was asked to take the nodes of the import, and named these identifiers.
pub open spec fn stored_as(
    op: spec_fn(Seq<ReplyView>) -> StepView,
    log: Seq<ReplyView>,
    nodes: Seq<BulkNodeView>,
    root_only: bool,
    ids: Seq<Seq<char>>,
) -> bool {
    was_answered(
        op,
        log,
        RequestView::StoreHierarchy { nodes, root_only },
        ReplyView::Texts { items: ids },
    )
}

proof fn lemma_trusted_stored(
    job: ImportView,
    i: nat,
    roots: Seq<Seq<char>>,
    log: Seq<ReplyView>,
    ids: Seq<Seq<char>>,
)
    requires
        import_roots_next(job, i, roots, log) == StepView::Finish(OutcomeView::Ids { ids }),
    ensures
        stored_as(
            |l: Seq<ReplyView>| import_roots_next(job, i, roots, l),
            log,
            job.nodes,
            true,
            ids,
        ),
    decreases job.nodes.len() - i,
{
    let op = |l: Seq<ReplyView>| import_roots_next(job, i, roots, l);
    let request = RequestView::StoreHierarchy { nodes: job.nodes, root_only: true };
    if i >= job.nodes.len() {
        assert(log.take(0).len() == 0);
        assert(asked_at(op, log, request, 0));
    } else if job.nodes[i as int].parent_id is Some {
        let inner = |l: Seq<ReplyView>| import_roots_next(job, i + 1, roots, l);
        lemma_trusted_stored(job, i + 1, roots, log, ids);
        assert(log.skip(0) =~= log);
        assert forall|k: int| 0 <= k <= log.len() implies #[trigger] op(log.take(k)) == inner(
            log.skip(0).take(k - 0),
        ) by {}
        lemma_answered_later(op, inner, log, 0, request, ReplyView::Texts { items: ids });
    } else {
        let more = if log[0]->Flag_value {
            roots.push(job.nodes[i as int].id)
        } else {
            roots
        };
        let inner = |l: Seq<ReplyView>| import_roots_next(job, i + 1, more, l);
        lemma_trusted_stored(job, i + 1, more, log.skip(1), ids);
        assert forall|k: int| 1 <= k <= log.len() implies #[trigger] op(log.take(k)) == inner(
            log.skip(1).take(k - 1),
        ) by {
            assert(log.take(k)[0] == log[0]);
            assert(log.take(k).skip(1) =~= log.skip(1).take(k - 1));
        }
        lemma_answered_later(op, inner, log, 1, request, ReplyView::Texts { items: ids });
    }
}

proof fn lemma_checked_stored(job: ImportView, i: nat, log: Seq<ReplyView>, ids: Seq<Seq<char>>)
    requires
        job.nodes.len() > 0,
        import_check_next(job, i, log) == StepView::Finish(OutcomeView::Ids { ids }),
    ensures
        stored_as(
            |l: Seq<ReplyView>| import_check_next(job, i, l),
            log,
            job.nodes,
            job.kind != ImportKind::Announced,
            ids,
        ),
    decreases job.nodes.len() - i,
{
    let op = |l: Seq<ReplyView>| import_check_next(job, i, l);
    let request = RequestView::StoreHierarchy {
        nodes: job.nodes,
        root_only: job.kind != ImportKind::Announced,
    };
    let reply = ReplyView::Texts { items: ids };
    if i < job.nodes.len() {
        let inner = |l: Seq<ReplyView>| import_check_next(job, i + 1, l);
        lemma_checked_stored(job, i + 1, log.skip(1), ids);
        assert forall|k: int| 1 <= k <= log.len() implies #[trigger] op(log.take(k)) == inner(
            log.skip(1).take(k - 1),
        ) by {
            assert(log.take(k)[0] == log[0]);
            assert(log.take(k).skip(1) =~= log.skip(1).take(k - 1));
        }
        lemma_answered_later(op, inner, log, 1, request, reply);
    } else if job.kind == ImportKind::Trusted {
        let inner = |l: Seq<ReplyView>| import_roots_next(job, 0, Seq::empty(), l);
        lemma_trusted_stored(job, 0, Seq::empty(), log, ids);
        assert(log.skip(0) =~= log);
        assert forall|k: int| 0 <= k <= log.len() implies #[trigger] op(log.take(k)) == inner(
            log.skip(0).take(k - 0),
        ) by {}
        lemma_answered_later(op, inner, log, 0, request, reply);
    } else if job.nodes[0].parent_id is None {
        assert(log.take(0).len() == 0);
        assert(asked_at(op, log, request, 0));
    } else {
        assert(log.take(1)[0] == log[0]);
        assert(log.take(1).skip(1).len() == 0);
        assert(log.skip(1)[0] == log[1]);
        assert(asked_at(op, log, request, 1));
    }
}

proof fn lemma_schemas_loaded(
    nodes: Seq<BulkNodeView>,
    types: Seq<Seq<char>>,
    kind: ImportKind,
    now: i64,
    k: nat,
    log: Seq<ReplyView>,
)
    requires
        k <= types.len(),
        k <= log.len(),
        import_schemas_next(nodes, types, kind, now, k, log) is Finish,
    ensures
        log.len() >= types.len(),
        forall|j: int| k <= j < types.len() ==> #[trigger] log[j] is Schema,
        import_schemas_next(nodes, types, kind, now, k, log) == import_schemas_next(
            nodes,
            types,
            kind,
            now,
            types.len(),
            log,
        ),
    decreases types.len() - k,
{
    if k < types.len() {
        lemma_schemas_loaded(nodes, types, kind, now, k + 1, log);
    }
}

proof fn lemma_schemas_prefix(
    nodes: Seq<BulkNodeView>,
    types: Seq<Seq<char>>,
    kind: ImportKind,
    now: i64,
    k: nat,
    log: Seq<ReplyView>,
    m: int,
)
    requires
        k <= types.len(),
        k <= m <= log.len(),
        types.len() <= log.len(),
        forall|j: int| k <= j < types.len() ==> #[trigger] log[j] is Schema,
    ensures
        m >= types.len() ==> import_schemas_next(nodes, types, kind, now, k, log.take(m))
            == import_schemas_next(nodes, types, kind, now, types.len(), log.take(m)),
        m < types.len() ==> import_schemas_next(nodes, types, kind, now, k, log.take(m))
            == StepView::Ask(RequestView::LoadSchema { node_type: types[m] }),
    decreases types.len() - k,
{
    if k < types.len() && k < m {
        assert(log.take(m)[k as int] == log[k as int]);
        lemma_schemas_prefix(nodes, types, kind, now, k + 1, log, m);
    }
}

/// An import that ends well was stored, and the caller gets the identifiers that the store named. The
/// schema of every type was asked for first.
pub proof fn law_finished_imports_were_stored(
    nodes: Seq<BulkNodeView>,
    kind: ImportKind,
    now: i64,
    log: Seq<ReplyView>,
    ids: Seq<Seq<char>>,
    i: int,
)
    requires
        nodes.len() > 0,
        import_next(nodes, kind, now, log) == StepView::Finish(OutcomeView::Ids { ids }),
    ensures
        stored_as(
            importing(nodes, kind, now),
            log,
            import_nodes(nodes, kind, log),
            kind != ImportKind::Announced,
            ids,
        ),
        0 <= i < nodes.len() && nodes[i].node_type != "schema"@ && kind != ImportKind::Trusted
            ==> was_asked(
            importing(nodes, kind, now),
            log,
            RequestView::LoadSchema { node_type: nodes[i].node_type },
        ),
{
    let types = import_types(nodes, kind);
    let n = types.len() as int;
    lemma_schemas_loaded(nodes, types, kind, now, 0, log);
    let job = ImportView {
        nodes: import_nodes(nodes, kind, log),
        types,
        schemas: log.take(n),
        kind,
        now,
    };
    let op = importing(nodes, kind, now);
    let inner = |l: Seq<ReplyView>| import_check_next(job, 0, l);
    lemma_checked_stored(job, 0, log.skip(n), ids);
    assert forall|k: int| n <= k <= log.len() implies #[trigger] op(log.take(k)) == inner(
        log.skip(n).take(k - n),
    ) by {
        lemma_schemas_prefix(nodes, types, kind, now, 0, log, k);
        assert(log.take(k).take(n) =~= log.take(n));
        assert(log.take(k).skip(n) =~= log.skip(n).take(k - n));
    }
    lemma_answered_later(
        op,
        inner,
        log,
        n,
        RequestView::StoreHierarchy { nodes: job.nodes, root_only: kind != ImportKind::Announced },
        ReplyView::Texts { items: ids },
    );
    if 0 <= i < nodes.len() && nodes[i].node_type != "schema"@ && kind != ImportKind::Trusted {
        law_import_types(nodes, nodes[i].node_type);
        let k = choose|k: int| 0 <= k < types.len() && types[k] == nodes[i].node_type;
        lemma_schemas_prefix(nodes, types, kind, now, 0, log, k);
        assert(asked_at(op, log, RequestView::LoadSchema { node_type: nodes[i].node_type }, k));
    }
}

/// A bulk update changes what it names and nothing else.
pub proof fn law_bulk_updates_apply_what_is_given(node: NodeView, update: NodeUpdateView)
    ensures
        ({
            let after = replaced_node(node, update);
            &&& after.id == node.id
            &&& after.version == node.version
            &&& after.created_at == node.created_at
            &&& after.modified_at == node.modified_at
            &&& after.title == node.title
            &&& after.lifecycle_status == node.lifecycle_status
            &&& after.mentions == node.mentions
            &&& update.content is Some ==> after.content == update.content->0
            &&& update.content is None ==> after.content == node.content
            &&& update.node_type is Some ==> after.node_type == update.node_type->0
            &&& update.node_type is None ==> after.node_type == node.node_type
            &&& update.properties is Some ==> after.properties == update.properties->0
            &&& update.properties is None ==> after.properties == node.properties
        }),
{
}

/// The update of several nodes, as a function of the replies.
pub open spec fn updating_all(
    updates: Seq<(Seq<char>, NodeUpdateView)>,
) -> spec_fn(Seq<ReplyView>) -> StepView {
    |l: Seq<ReplyView>| bulk_update_next(updates, l)
}

proof fn lemma_all_updated(
    nodes: Seq<NodeView>,
    updates: Seq<(Seq<char>, NodeUpdateView)>,
    i: nat,
    log: Seq<ReplyView>,
    j: int,
)
    requires
        bulk_update_check_next(nodes, updates, i, log) is Finish,
    ensures
        was_answered(
            |l: Seq<ReplyView>| bulk_update_check_next(nodes, updates, i, l),
            log,
            RequestView::StoreBulkUpdate { updates },
            ReplyView::Done,
        ),
        i <= j < updates.len() ==> exists|k: int|
            0 <= k < nodes.len() && (#[trigger] nodes[k]).id == updates[j].0 && {
                let after = replaced_node(nodes[k], updates[j].1);
                after.node_type != "schema"@ ==> passed_schema(
                    |l: Seq<ReplyView>| bulk_update_check_next(nodes, updates, i, l),
                    log,
                    after,
                )
            },
    decreases updates.len() - i,
{
    let op = |l: Seq<ReplyView>| bulk_update_check_next(nodes, updates, i, l);
    let store = RequestView::StoreBulkUpdate { updates };
    if i >= updates.len() {
        assert(log.take(0).len() == 0);
        assert(asked_at(op, log, store, 0));
    } else {
        let id = updates[i as int].0;
        let at = index_in(ids_of(nodes), id);
        law_texts_are_found(ids_of(nodes), id, 0);
        assert(ids_of(nodes)[at] == nodes[at].id);
        let node = replaced_node(nodes[at], updates[i as int].1);
        let n: int = if node.node_type == "schema"@ {
            1
        } else {
            2
        };
        let rest = log.skip(n);
        let inner = |l: Seq<ReplyView>| bulk_update_check_next(nodes, updates, i + 1, l);
        assert(bulk_update_check_next(nodes, updates, i, log) == bulk_update_schema_next(
            node,
            nodes,
            updates,
            i,
            log.skip(1),
        ));
        if n == 2 {
            assert(log.skip(1).skip(1) =~= rest);
            assert(log.skip(1)[0] == log[1]);
        }
        lemma_all_updated(nodes, updates, i + 1, rest, j);
        assert forall|k: int| n <= k <= log.len() implies #[trigger] op(log.take(k)) == inner(
            rest.take(k - n),
        ) by {
            let part = log.take(k);
            assert(part[0] == log[0]);
            assert(bulk_update_check_next(nodes, updates, i, part) == bulk_update_schema_next(
                node,
                nodes,
                updates,
                i,
                part.skip(1),
            ));
            if n == 2 {
                assert(part.skip(1)[0] == log[1]);
                assert(part.skip(1).skip(1) =~= rest.take(k - n));
            } else {
                assert(part.skip(1) =~= rest.take(k - n));
            }
        }
        lemma_answered_later(op, inner, log, n, store, ReplyView::Done);
        if i == j && n == 2 {
            assert(log.take(1)[0] == log[0]);
            assert(log.take(1).skip(1).len() == 0);
            assert(bulk_update_check_next(nodes, updates, i, log.take(1)) == bulk_update_schema_next(
                node,
                nodes,
                updates,
                i,
                log.take(1).skip(1),
            ));
            assert(asked_at(op, log, RequestView::LoadSchema { node_type: node.node_type }, 1));
        }
        if i < j < updates.len() {
            let k = choose|k: int|
                0 <= k < nodes.len() && (#[trigger] nodes[k]).id == updates[j].0 && {
                    let after = replaced_node(nodes[k], updates[j].1);
                    after.node_type != "schema"@ ==> passed_schema(inner, rest, after)
                };
            let after = replaced_node(nodes[k], updates[j].1);
            if after.node_type != "schema"@ {
                lemma_passed_later(op, inner, log, n, after);
            }
            assert(nodes[k].id == updates[j].0);
        }
    }
}

/// Updates that end well were stored, all of them as they were given. Each named a node that is there,
/// and no schema had anything against the node as it is after the update.
pub proof fn law_finished_bulk_updates_were_stored(
    updates: Seq<(Seq<char>, NodeUpdateView)>,
    nodes: Seq<NodeView>,
    log: Seq<ReplyView>,
    j: int,
)
    requires
        updates.len() > 0,
        log.len() > 0,
        log[0] == (ReplyView::Nodes { nodes }),
        bulk_update_next(updates, log) is Finish,
    ensures
        was_answered(
            updating_all(updates),
            log,
            RequestView::StoreBulkUpdate { updates },
            ReplyView::Done,
        ),
        0 <= j < updates.len() ==> exists|k: int|
            0 <= k < nodes.len() && (#[trigger] nodes[k]).id == updates[j].0 && {
                let after = replaced_node(nodes[k], updates[j].1);
                after.node_type != "schema"@ ==> passed_schema(updating_all(updates), log, after)
            },
{
    let op = updating_all(updates);
    let inner = |l: Seq<ReplyView>| bulk_update_check_next(nodes, updates, 0, l);
    let rest = log.skip(1);
    lemma_all_updated(nodes, updates, 0, rest, j);
    assert forall|k: int| 1 <= k <= log.len() implies #[trigger] op(log.take(k)) == inner(
        rest.take(k - 1),
    ) by {
        assert(log.take(k)[0] == log[0]);
        assert(log.take(k).skip(1) =~= rest.take(k - 1));
    }
    lemma_answered_later(
        op,
        inner,
        log,
        1,
        RequestView::StoreBulkUpdate { updates },
        ReplyView::Done,
    );
    if 0 <= j < updates.len() {
        let k = choose|k: int|
            0 <= k < nodes.len() && (#[trigger] nodes[k]).id == updates[j].0 && {
                let after = replaced_node(nodes[k], updates[j].1);
                after.node_type != "schema"@ ==> passed_schema(inner, rest, after)
            };
        let after = replaced_node(nodes[k], updates[j].1);
        if after.node_type != "schema"@ {
            lemma_passed_later(op, inner, log, 1, after);
        }
        assert(nodes[k].id == updates[j].0);
    }
}

/// The nodes that are to be updated are looked up by the identifiers that the updates name, and one
/// that is not there fails the whole.
pub proof fn law_bulk_updates_look_up_their_nodes(
    updates: Seq<(Seq<char>, NodeUpdateView)>,
    nodes: Seq<NodeView>,
    i: int,
)
    requires
        updates.len() > 0,
    ensures
        bulk_update_next(updates, Seq::empty()) matches StepView::Ask(RequestView::LoadNodes { ids })
            && ids.len() == updates.len() && (0 <= i < ids.len() ==> ids[i] == updates[i].0),
        (forall|k: int| 0 <= k < nodes.len() ==> (#[trigger] nodes[k]).id != updates[0].0)
            ==> bulk_update_next(updates, seq![ReplyView::Nodes { nodes }]) == StepView::Fail(
            ErrorView::NodeNotFound { id: updates[0].0 },
        ),
{
    law_texts_are_found(ids_of(nodes), updates[0].0, 0);
    let at = index_in(ids_of(nodes), updates[0].0);
    if at < nodes.len() {
        assert(ids_of(nodes)[at] == nodes[at].id);
    }
}

/// A bulk update of one node that nothing speaks against is stored.
pub proof fn law_bulk_updates_are_owed(id: Seq<char>, update: NodeUpdateView, node: NodeView)
    requires
        node.id == id,
        replaced_node(node, update).node_type != "schema"@,
    ensures
        ({
            let updates = seq![(id, update)];
            let one = seq![ReplyView::Nodes { nodes: seq![node] }];
            let two = one.push(ReplyView::Done);
            let three = two.push(ReplyView::Schema { schema: None, fields: None });
            &&& bulk_update_next(updates, one) == StepView::Ask(
                RequestView::CheckBehavior { node: replaced_node(node, update) },
            )
            &&& bulk_update_next(updates, three) == StepView::Ask(
                RequestView::StoreBulkUpdate { updates },
            )
            &&& bulk_update_next(updates, three.push(ReplyView::Done)) == StepView::Finish(
                OutcomeView::Nothing,
            )
        }),
{
    let updates = seq![(id, update)];
    let nodes = seq![node];
    law_texts_are_found(ids_of(nodes), id, 0);
    assert(ids_of(nodes)[0] == id);
    reveal_with_fuel(bulk_update_check_next, 3);
    reveal_with_fuel(bulk_update_schema_next, 3);
    let three = seq![ReplyView::Nodes { nodes }].push(ReplyView::Done).push(
        ReplyView::Schema { schema: None, fields: None },
    );
    let four = three.push(ReplyView::Done);
    assert(three.skip(1).skip(1)[0] == three[2]);
    assert(four.skip(1).skip(1)[0] == four[2]);
    assert(four.skip(1).skip(1).skip(1)[0] == four[3]);
}

/// All the nodes that are named are deleted in one go; that one of them cannot be fails the whole.
pub proof fn law_bulk_deletions(ids: Seq<Seq<char>>, id: Seq<char>, message: Seq<char>)
    requires
        ids.len() > 0,
    ensures
        bulk_delete_next(ids, Seq::empty()) == StepView::Ask(RequestView::StoreBulkDelete { ids }),
        bulk_delete_next(ids, seq![ReplyView::Done]) == StepView::Finish(OutcomeView::Nothing),
        bulk_delete_next(ids, seq![ReplyView::FailedAt { id, message }]) matches StepView::Fail(
            ErrorView::BulkOperationFailed(_),
        ),
        bulk_delete_next(Seq::empty(), Seq::empty()) == StepView::Finish(OutcomeView::Nothing),
{
}

/// After an import the root above it is queued for embedding; of a trusted import its own roots are, as
/// far as their type can be embedded.
pub proof fn law_imports_queue_their_roots(
    node: BulkNodeView,
    parent: Seq<char>,
    root: Seq<char>,
    now: i64,
    ids: Seq<Seq<char>>,
    count: usize,
)
    requires
        node.node_type == "schema"@,
    ensures
        node.parent_id == Some(parent) ==> {
            let one = seq![ReplyView::Done];
            let two = one.push(ReplyView::Text { text: root });
            let three = two.push(ReplyView::Texts { items: ids });
            &&& import_next(seq![node], ImportKind::Announced, now, one) == StepView::Ask(
                RequestView::GetRoot { id: parent },
            )
            &&& import_next(seq![node], ImportKind::Announced, now, three) == StepView::Ask(
                RequestView::QueueRoot { id: root },
            )
            &&& import_next(seq![node], ImportKind::Announced, now, three.push(ReplyView::Done))
                == StepView::Finish(OutcomeView::Ids { ids })
        },
        node.parent_id is None ==> {
            let one = seq![ReplyView::Done];
            let yes = one.push(ReplyView::Flag { value: true }).push(ReplyView::Texts { items: ids });
            let no = one.push(ReplyView::Flag { value: false }).push(ReplyView::Texts { items: ids });
            &&& import_next(seq![node], ImportKind::Trusted, now, one) == StepView::Ask(
                RequestView::IsEmbeddable { node_type: node.node_type },
            )
            &&& import_next(seq![node], ImportKind::Trusted, now, yes) == StepView::Ask(
                RequestView::CreateStaleMarkers { ids: seq![node.id] },
            )
            &&& import_next(seq![node], ImportKind::Trusted, now, no) == StepView::Finish(
                OutcomeView::Ids { ids },
            )
        },
{
    let nodes = seq![node];
    law_import_types(nodes, "schema"@);
    let types = types_of(nodes);
    if types.len() > 0 {
        law_import_types(nodes, types[0]);
        assert(types.contains(types[0]));
    }
    let one = seq![ReplyView::Done];
    let two = one.push(ReplyView::Text { text: root });
    let three = two.push(ReplyView::Texts { items: ids });
    let four = three.push(ReplyView::Done);
    let yes = one.push(ReplyView::Flag { value: true }).push(ReplyView::Texts { items: ids });
    let no = one.push(ReplyView::Flag { value: false }).push(ReplyView::Texts { items: ids });
    reveal_with_fuel(import_check_next, 3);
    reveal_with_fuel(import_roots_next, 3);
    assert(one.skip(0) =~= one);
    assert(three.skip(0) =~= three);
    assert(four.skip(0) =~= four);
    assert(yes.skip(0) =~= yes);
    assert(no.skip(0) =~= no);
    assert(three.skip(1).skip(1)[0] == three[2]);
    assert(four.skip(1).skip(1)[0] == four[2]);
    assert(four.skip(1).skip(1).skip(1)[0] == four[3]);
    assert(yes.skip(1).skip(1)[0] == yes[2]);
    assert(no.skip(1).skip(1)[0] == no[2]);
    assert(Seq::<Seq<char>>::empty().push(node.id) =~= seq![node.id]);
}

/// The properties of a node of an import are stored under its type: those that the caller gives plain,
/// and those that a field of the schema names, whatever they hold.
pub proof fn law_imports_store_properties_by_type(
    nodes: Seq<BulkNodeView>,
    kind: ImportKind,
    now: i64,
    log: Seq<ReplyView>,
    stored: Seq<BulkNodeView>,
    root_only: bool,
    i: int,
    k: int,
    field: Seq<char>,
    value: Json,
)
    requires
        import_next(nodes, kind, now, log) == StepView::Ask(
            RequestView::StoreHierarchy { nodes: stored, root_only },
        ),
        0 <= i < nodes.len(),
        nodes[i].properties is Object,
    ensures
        gives(nodes[i].properties, nodes[i].node_type, field, value) ==> has_field(
            stored[i].properties,
            nodes[i].node_type,
            field,
            value,
        ),
        is_spaced(stored[i].properties, nodes[i].node_type),
        ({
            let types = import_types(nodes, kind);
            &&& 0 <= k < types.len()
            &&& types[k] == nodes[i].node_type
            &&& (log[k] matches ReplyView::Schema { schema: Some(_), fields: Some(fields) } && exists|
                m: int,
            |
                0 <= m < fields.len() && (#[trigger] fields[m]).name == field)
            &&& !is_spaced(nodes[i].properties, nodes[i].node_type)
            &&& nodes[i].properties.member(field) == Some(value)
        }) ==> has_field(stored[i].properties, nodes[i].node_type, field, value),
{
    law_imports_are_checked_before_they_are_stored(nodes, kind, now, log, i);
    let types = import_types(nodes, kind);
    let schemas = log.take(types.len() as int);
    let names = field_names(fields_for(types, schemas, nodes[i].node_type));
    law_storage_form(nodes[i].node_type, nodes[i].properties, names, field, value);
    if 0 <= k < types.len() && types[k] == nodes[i].node_type {
        law_import_types(nodes, nodes[i].node_type);
        lemma_schemas_asked(nodes, types, kind, now, 0, log);
        if let ReplyView::Schema { schema: Some(schema), fields } = log[k] {
            assert(schemas[k] == log[k]);
            law_imports_go_by_the_schema(types, schemas, k, schema, fields);
        }
    }
}

proof fn lemma_schemas_asked(
    nodes: Seq<BulkNodeView>,
    types: Seq<Seq<char>>,
    kind: ImportKind,
    now: i64,
    k: nat,
    log: Seq<ReplyView>,
)
    requires
        k <= types.len(),
        k <= log.len(),
        import_schemas_next(nodes, types, kind, now, k, log) matches StepView::Ask(
            RequestView::StoreHierarchy { nodes: _, root_only: _ },
        ),
    ensures
        log.len() >= types.len(),
    decreases types.len() - k,
{
    if k < types.len() {
        lemma_schemas_asked(nodes, types, kind, now, k + 1, log);
    }
}

} // verus!
