//! What the seeding of a fresh store promises.

use crate::bulk::index_in;
use crate::bulk_laws::law_texts_are_found;
use crate::error::ErrorView;
use crate::node::{BulkNodeView, NodeView};
use crate::protocol::{OutcomeView, ReplyView, RequestView, StepView};
use crate::seeding::{
    root_params, root_types, seed_children_next, seed_groups_next, seed_nodes_next,
    seed_schema_next, seed_schemas_next, seed_types_next, type_present,
};
use crate::sequences::lemma_push_contains;
use crate::tasks::task_error;
use crate::text::{contains_part, occurs_at};
use crate::trace::{asked_at, lemma_asked_later, was_asked};
use vstd::prelude::*;

verus! {

proof fn lemma_schemas_stored(schemas: Seq<NodeView>, i: nat, log: Seq<ReplyView>, j: int)
    requires
        i <= schemas.len(),
        seed_schema_next(schemas, i, log) is Finish,
    ensures
        log.len() > schemas.len() - i,
        i <= j < schemas.len() ==> log[j - i] == ReplyView::Done && seed_schema_next(
            schemas,
            i,
            log.take(j - i),
        ) == StepView::Ask(RequestView::InsertSchemaNode { node: schemas[j] }),
        log[schemas.len() - i] == ReplyView::Done,
        seed_schema_next(schemas, i, log.take(schemas.len() - i)) matches StepView::Ask(
            RequestView::CacheSchemas { ids },
        ) && ids.len() == schemas.len() && (0 <= j < schemas.len() ==> ids[j] == schemas[j].id),
    decreases schemas.len() - i,
{
    if i < schemas.len() {
        let rest = log.skip(1);
        let n = schemas.len() - i;
        lemma_schemas_stored(schemas, i + 1, rest, j);
        assert(log.take(n)[0] == log[0]);
        assert(log.take(n).skip(1) =~= rest.take(n - 1));
        if i < j < schemas.len() {
            assert(log.take(j - i)[0] == log[0]);
            assert(log.take(j - i).skip(1) =~= rest.take(j - i - 1));
            assert(rest[j - i - 1] == log[j - i]);
        }
        if i == j {
            assert(log.take(0).len() == 0);
        }
    } else {
        assert(log.take(0).len() == 0);
    }
}

/// In a store without the schema of tasks every core schema is stored, and the cache learns of all of
/// them; in one that has it nothing is done.
pub proof fn law_core_schemas_are_stored(
    schemas: Seq<NodeView>,
    log: Seq<ReplyView>,
    node: NodeView,
    j: int,
)
    requires
        log.len() > 0,
    ensures
        seed_schemas_next(schemas, Seq::empty()) == StepView::Ask(RequestView::LoadNode { id: "task"@ }),
        log[0] == (ReplyView::Node { node: Some(node) }) ==> seed_schemas_next(schemas, log)
            == StepView::Finish(OutcomeView::Nothing),
        log[0] == (ReplyView::Node { node: None }) && seed_schemas_next(schemas, log) is Finish ==> {
            &&& log.len() > schemas.len() + 1
            &&& 0 <= j < schemas.len() ==> log[j + 1] == ReplyView::Done && seed_schemas_next(
                schemas,
                log.take(j + 1),
            ) == StepView::Ask(RequestView::InsertSchemaNode { node: schemas[j] })
            &&& (seed_schemas_next(schemas, log.take(schemas.len() as int + 1)) matches StepView::Ask(
                RequestView::CacheSchemas { ids },
            ) && ids.len() == schemas.len() && (0 <= j < schemas.len() ==> ids[j]
                == schemas[j].id))
        },
{
    if log[0] == (ReplyView::Node { node: None }) && seed_schemas_next(schemas, log) is Finish {
        let rest = log.skip(1);
        let n = schemas.len() as int;
        lemma_schemas_stored(schemas, 0, rest, j);
        assert(log.take(n + 1)[0] == log[0]);
        assert(log.take(n + 1).skip(1) =~= rest.take(n));
        if 0 <= j < schemas.len() {
            assert(log.take(j + 1)[0] == log[0]);
            assert(log.take(j + 1).skip(1) =~= rest.take(j));
            assert(rest[j] == log[j + 1]);
        }
    }
}

proof fn lemma_root_types(groups: Seq<Seq<BulkNodeView>>, j: int)
    requires
        0 <= j < groups.len(),
        groups[j].len() > 0,
    ensures
        root_types(groups).contains(groups[j][0].node_type),
    decreases groups.len(),
{
    let before = root_types(groups.drop_last());
    lemma_push_contains(before, groups.last()[0].node_type);
    if j < groups.len() - 1 {
        lemma_root_types(groups.drop_last(), j);
    }
}

proof fn lemma_types_loaded(groups: Seq<Seq<BulkNodeView>>, k: nat, log: Seq<ReplyView>)
    requires
        k <= root_types(groups).len(),
        k <= log.len(),
        seed_types_next(groups, k, log) is Finish,
    ensures
        log.len() >= root_types(groups).len(),
        forall|j: int| k <= j < root_types(groups).len() ==> #[trigger] log[j] is Nodes,
        seed_types_next(groups, k, log) == seed_types_next(groups, root_types(groups).len(), log),
    decreases root_types(groups).len() - k,
{
    if k < root_types(groups).len() {
        lemma_types_loaded(groups, k + 1, log);
    }
}

proof fn lemma_types_prefix(groups: Seq<Seq<BulkNodeView>>, k: nat, log: Seq<ReplyView>, m: int)
    requires
        k <= root_types(groups).len(),
        k <= m <= log.len(),
        root_types(groups).len() <= log.len(),
        forall|j: int| k <= j < root_types(groups).len() ==> #[trigger] log[j] is Nodes,
    ensures
        m >= root_types(groups).len() ==> seed_types_next(groups, k, log.take(m)) == seed_types_next(
            groups,
            root_types(groups).len(),
            log.take(m),
        ),
        m < root_types(groups).len() ==> seed_types_next(groups, k, log.take(m)) == StepView::Ask(
            RequestView::QueryByType { node_type: root_types(groups)[m] },
        ),
    decreases root_types(groups).len() - k,
{
    if k < root_types(groups).len() && k < m {
        assert(log.take(m)[k as int] == log[k as int]);
        lemma_types_prefix(groups, k + 1, log, m);
    }
}

/// The group was created: its root with what it has, and what is below the root in one go.
pub open spec fn group_created(
    op: spec_fn(Seq<ReplyView>) -> StepView,
    log: Seq<ReplyView>,
    group: Seq<BulkNodeView>,
) -> bool {
    &&& was_asked(op, log, RequestView::CreateNodeWithParent { params: root_params(group[0]) })
    &&& group.len() > 1 ==> was_asked(
        op,
        log,
        RequestView::BulkCreateHierarchy { nodes: group.skip(1) },
    )
}

proof fn lemma_group_later(
    op: spec_fn(Seq<ReplyView>) -> StepView,
    inner: spec_fn(Seq<ReplyView>) -> StepView,
    log: Seq<ReplyView>,
    n: int,
    group: Seq<BulkNodeView>,
)
    requires
        0 <= n <= log.len(),
        forall|k: int| n <= k <= log.len() ==> #[trigger] op(log.take(k)) == inner(
            log.skip(n).take(k - n),
        ),
        group_created(inner, log.skip(n), group),
    ensures
        group_created(op, log, group),
{
    lemma_asked_later(
        op,
        inner,
        log,
        n,
        RequestView::CreateNodeWithParent { params: root_params(group[0]) },
    );
    lemma_asked_later(
        op,
        inner,
        log,
        n,
        RequestView::BulkCreateHierarchy { nodes: group.skip(1) },
    );
}

proof fn lemma_groups(
    groups: Seq<Seq<BulkNodeView>>,
    types: Seq<Seq<char>>,
    present: Seq<ReplyView>,
    i: nat,
    log: Seq<ReplyView>,
    j: int,
)
    requires
        i <= groups.len(),
        seed_groups_next(groups, types, present, i, log) is Finish,
    ensures
        i <= j < groups.len() && groups[j].len() > 0 && !type_present(
            types,
            present,
            groups[j][0].node_type,
        ) ==> group_created(
            |l: Seq<ReplyView>| seed_groups_next(groups, types, present, i, l),
            log,
            groups[j],
        ),
    decreases groups.len() - i,
{
    let op = |l: Seq<ReplyView>| seed_groups_next(groups, types, present, i, l);
    if i < groups.len() {
        let group = groups[i as int];
        let inner = |l: Seq<ReplyView>| seed_groups_next(groups, types, present, i + 1, l);
        let wanted = i <= j < groups.len() && groups[j].len() > 0 && !type_present(
            types,
            present,
            groups[j][0].node_type,
        );
        if group.len() == 0 || type_present(types, present, group[0].node_type) {
            lemma_groups(groups, types, present, i + 1, log, j);
            assert(log.skip(0) =~= log);
            assert forall|k: int| 0 <= k <= log.len() implies #[trigger] op(log.take(k)) == inner(
                log.skip(0).take(k - 0),
            ) by {}
            if wanted {
                lemma_group_later(op, inner, log, 0, groups[j]);
            }
        } else {
            let n: int = if group.len() > 1 {
                2
            } else {
                1
            };
            assert(seed_groups_next(groups, types, present, i, log) == seed_children_next(
                groups,
                types,
                present,
                i,
                log.skip(1),
            ));
            if n == 2 {
                assert(log.skip(1)[0] == log[1]);
                assert(log.skip(1).skip(1) =~= log.skip(2));
            }
            lemma_groups(groups, types, present, i + 1, log.skip(n), j);
            assert forall|k: int| n <= k <= log.len() implies #[trigger] op(log.take(k)) == inner(
                log.skip(n).take(k - n),
            ) by {
                let part = log.take(k);
                assert(part[0] == log[0]);
                assert(seed_groups_next(groups, types, present, i, part) == seed_children_next(
                    groups,
                    types,
                    present,
                    i,
                    part.skip(1),
                ));
                if n == 2 {
                    assert(part.skip(1)[0] == log[1]);
                    assert(part.skip(1).skip(1) =~= log.skip(2).take(k - 2));
                } else {
                    assert(part.skip(1) =~= log.skip(1).take(k - 1));
                }
            }
            if wanted {
                if i == j {
                    assert(log.take(0).len() == 0);
                    assert(asked_at(
                        op,
                        log,
                        RequestView::CreateNodeWithParent { params: root_params(group[0]) },
                        0,
                    ));
                    if n == 2 {
                        assert(log.take(1)[0] == log[0]);
                        assert(log.take(1).skip(1).len() == 0);
                        assert(seed_groups_next(groups, types, present, i, log.take(1))
                            == seed_children_next(groups, types, present, i, log.take(1).skip(1)));
                        assert(asked_at(
                            op,
                            log,
                            RequestView::BulkCreateHierarchy { nodes: group.skip(1) },
                            1,
                        ));
                    }
                } else {
                    lemma_group_later(op, inner, log, n, groups[j]);
                }
            }
        }
    }
}

/// The seeding of nodes, as a function of the replies.
pub open spec fn seeding(groups: Seq<Seq<BulkNodeView>>) -> spec_fn(Seq<ReplyView>) -> StepView {
    |l: Seq<ReplyView>| seed_nodes_next(groups, l)
}

/// For each group the nodes of the type of its root were asked for, and it was created if there were
/// none.
pub proof fn law_missing_nodes_are_seeded(
    groups: Seq<Seq<BulkNodeView>>,
    log: Seq<ReplyView>,
    j: int,
)
    requires
        seed_nodes_next(groups, log) is Finish,
        0 <= j < groups.len(),
        groups[j].len() > 0,
    ensures
        exists|k: int|
            #[trigger] asked_at(
                seeding(groups),
                log,
                RequestView::QueryByType { node_type: groups[j][0].node_type },
                k,
            ) && (log[k] matches ReplyView::Nodes { nodes } && (nodes.len() > 0 || group_created(
                seeding(groups),
                log,
                groups[j],
            ))),
{
    let types = root_types(groups);
    let n = types.len() as int;
    let node_type = groups[j][0].node_type;
    let op = seeding(groups);
    lemma_types_loaded(groups, 0, log);
    let present = log.take(n);
    let inner = |l: Seq<ReplyView>| seed_groups_next(groups, types, present, 0, l);
    lemma_groups(groups, types, present, 0, log.skip(n), j);
    assert forall|k: int| n <= k <= log.len() implies #[trigger] op(log.take(k)) == inner(
        log.skip(n).take(k - n),
    ) by {
        lemma_types_prefix(groups, 0, log, k);
        assert(log.take(k).take(n) =~= present);
        assert(log.take(k).skip(n) =~= log.skip(n).take(k - n));
    }
    lemma_root_types(groups, j);
    let m = choose|m: int| 0 <= m < types.len() && types[m] == node_type;
    law_texts_are_found(types, node_type, m);
    let at = index_in(types, node_type);
    lemma_types_prefix(groups, 0, log, at);
    assert(asked_at(op, log, RequestView::QueryByType { node_type }, at));
    assert(present[at] == log[at]);
    if !type_present(types, present, node_type) {
        lemma_group_later(op, inner, log, n, groups[j]);
    }
}

/// The root of a group is created as it is given, without a parent.
pub proof fn law_seeded_roots_are_given(root: BulkNodeView)
    ensures
        root_params(root).id == Some(root.id),
        root_params(root).node_type == root.node_type,
        root_params(root).content == root.content,
        root_params(root).properties == root.properties,
        root_params(root).parent_id is None,
        root_params(root).insert_after_node_id is None,
{
}

/// What a refused task update means: the words for a version come first, then those for a task that is
/// not there, and anything else is a failure of the store that names the task.
pub proof fn law_refused_task_updates(
    id: Seq<char>,
    version: i64,
    full: Seq<char>,
    root: Seq<char>,
    shown: Seq<char>,
)
    ensures
        contains_part(full, "VersionMismatch"@) || contains_part(root, "VersionMismatch"@)
            || contains_part(root, "failed transaction"@) <==> task_error(
            id,
            version,
            full,
            root,
            shown,
        ) is VersionConflict,
        task_error(id, version, full, root, shown) is VersionConflict ==> task_error(
            id,
            version,
            full,
            root,
            shown,
        ) == (ErrorView::VersionConflict { node_id: id, expected_version: version, actual_version: 0 }),
        !(task_error(id, version, full, root, shown) is VersionConflict) ==> (contains_part(
            full,
            "not found"@,
        ) || contains_part(full, "Record not found"@) || contains_part(full, "$current[0].version"@)
            || contains_part(root, "not found"@) || contains_part(root, "$current"@) <==> task_error(
            id,
            version,
            full,
            root,
            shown,
        ) == (ErrorView::NodeNotFound { id })),
        task_error(id, version, full, root, shown) is VersionConflict || task_error(
            id,
            version,
            full,
            root,
            shown,
        ) is NodeNotFound || (task_error(id, version, full, root, shown)
            matches ErrorView::DatabaseError { context } && contains_part(context, id)
            && contains_part(context, shown)),
{
    let front = "Failed to update task node '"@;
    let middle = "': "@;
    let context = front + id + middle + shown;
    lemma_part(front, id, middle + shown);
    lemma_part(front + id + middle, shown, Seq::empty());
    assert(front + id + (middle + shown) =~= context);
    assert(front + id + middle + shown + Seq::empty() =~= context);
}

proof fn lemma_part(before: Seq<char>, part: Seq<char>, behind: Seq<char>)
    ensures
        contains_part(before + part + behind, part),
{
    let whole = before + part + behind;
    let at = before.len() as int;
    assert(whole.subrange(at, at + part.len()) =~= part);
    assert(occurs_at(whole, part, at));
}

} // verus!
