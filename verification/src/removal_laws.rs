//! What deletions, upserts and updates of tasks promise.

use crate::error::ErrorView;
use crate::events::DomainEventView;
use crate::json::Json;
use crate::lookups::{delete_node_unchecked_next, delete_with_version_check_next};
use crate::node::{NodeView, TaskNodeUpdateView};
use crate::protocol::{OutcomeView, ReplyView, RequestView, StepView};
use crate::removal::{delete_children_next, delete_next};
use crate::tasks::update_task_node_next;
use crate::trace::asked_at;
use crate::upsert::{upsert_next, UpsertView};
use vstd::prelude::*;

verus! {

/// A deletion with a version, as a function of the replies.
pub open spec fn deleting(id: Seq<char>, version: i64) -> spec_fn(Seq<ReplyView>) -> StepView {
    |l: Seq<ReplyView>| delete_next(id, version, l)
}

proof fn lemma_deleting_children(
    id: Seq<char>,
    version: i64,
    root: Option<Seq<char>>,
    children: Seq<NodeView>,
    log: Seq<ReplyView>,
)
    requires
        delete_children_next(id, version, root, children, log) == StepView::Finish(
            OutcomeView::Deleted { existed: true },
        ),
    ensures
        ({
            let op = |l: Seq<ReplyView>| delete_children_next(id, version, root, children, l);
            let n = children.len() as int;
            &&& forall|i: int|
                #![trigger children[i]]
                0 <= i < n ==> asked_at(
                    op,
                    log,
                    RequestView::DeleteNode {
                        id: children[i].id,
                        expected_version: children[i].version,
                    },
                    i,
                ) && log[i] is Flag
            &&& asked_at(
                op,
                log,
                RequestView::StoreVersionedDelete { id, expected_version: version },
                n,
            )
            &&& log[n] matches ReplyView::Count { value } && value != 0
            &&& root is Some && root != Some(id) ==> asked_at(
                op,
                log,
                RequestView::QueueRoot { id: root->0 },
                n + 1,
            ) && log[n + 1] == ReplyView::Done
        }),
    decreases children.len(),
{
    let op = |l: Seq<ReplyView>| delete_children_next(id, version, root, children, l);
    let n = children.len() as int;
    if n == 0 {
        assert(log.take(0).len() == 0);
        assert(asked_at(
            op,
            log,
            RequestView::StoreVersionedDelete { id, expected_version: version },
            0,
        ));
        if root is Some && root != Some(id) {
            assert(log.take(1)[0] == log[0]);
        }
    } else {
        let rest = log.skip(1);
        let fewer = children.skip(1);
        lemma_deleting_children(id, version, root, fewer, rest);
        let inner = |l: Seq<ReplyView>| delete_children_next(id, version, root, fewer, l);
        assert forall|m: int| 1 <= m <= log.len() implies #[trigger] op(log.take(m)) == inner(
            rest.take(m - 1),
        ) by {
            assert(log.take(m)[0] == log[0]);
            assert(log.take(m).skip(1) =~= rest.take(m - 1));
        }
        assert forall|i: int| #![trigger children[i]] 0 <= i < n implies asked_at(
            op,
            log,
            RequestView::DeleteNode { id: children[i].id, expected_version: children[i].version },
            i,
        ) && log[i] is Flag by {
            if i > 0 {
                assert(fewer[i - 1] == children[i]);
                assert(op(log.take(i)) == inner(rest.take(i - 1)));
                assert(rest[i - 1] == log[i]);
            } else {
                assert(log.take(0).len() == 0);
            }
        }
        assert(op(log.take(n)) == inner(rest.take(n - 1)));
        assert(rest[n - 1] == log[n]);
        if root is Some && root != Some(id) {
            assert(op(log.take(n + 1)) == inner(rest.take(n)));
            assert(rest[n] == log[n + 1]);
        }
    }
}

/// A deletion that took a node away: each of its children was deleted first, with the version that it
/// had; then the store deleted the node itself, with the version that the caller saw, and said that it
/// had; and the root above it, if it was not the root, was queued for embedding.
pub proof fn law_deleted_nodes_are_gone(
    id: Seq<char>,
    version: i64,
    log: Seq<ReplyView>,
    children: Seq<NodeView>,
    i: int,
)
    requires
        delete_next(id, version, log) == StepView::Finish(OutcomeView::Deleted { existed: true }),
        log[2] == (ReplyView::Nodes { nodes: children }),
    ensures
        asked_at(deleting(id, version), log, RequestView::LoadNode { id }, 0),
        asked_at(deleting(id, version), log, RequestView::GetRoot { id }, 1),
        asked_at(deleting(id, version), log, RequestView::GetChildren { id }, 2),
        0 <= i < children.len() ==> asked_at(
            deleting(id, version),
            log,
            RequestView::DeleteNode { id: children[i].id, expected_version: children[i].version },
            3 + i,
        ) && log[3 + i] is Flag,
        asked_at(
            deleting(id, version),
            log,
            RequestView::StoreVersionedDelete { id, expected_version: version },
            3 + children.len() as int,
        ),
        log[3 + children.len() as int] matches ReplyView::Count { value } && value != 0,
        log[1] is Text && log[1]->Text_text != id ==> asked_at(
            deleting(id, version),
            log,
            RequestView::QueueRoot { id: log[1]->Text_text },
            4 + children.len() as int,
        ),
{
    let op = deleting(id, version);
    let rest = log.skip(3);
    assert(log.skip(1)[0] == log[1]);
    assert(log.skip(1).skip(1)[0] == log[2]);
    assert(log.skip(1).skip(1).skip(1) =~= rest);
    let root = match log[1] {
        ReplyView::Text { text } => Some(text),
        _ => None,
    };
    lemma_deleting_children(id, version, root, children, rest);
    let inner = |l: Seq<ReplyView>| delete_children_next(id, version, root, children, l);
    assert forall|m: int| 3 <= m <= log.len() implies #[trigger] op(log.take(m)) == inner(
        rest.take(m - 3),
    ) by {
        let head = log.take(m);
        assert(head[0] == log[0]);
        assert(head.skip(1)[0] == log[1]);
        assert(head.skip(1).skip(1)[0] == log[2]);
        assert(head.skip(1).skip(1).skip(1) =~= rest.take(m - 3));
    }
    let n = children.len() as int;
    assert(log.take(0).len() == 0);
    assert(log.take(1)[0] == log[0]);
    assert(log.take(2)[0] == log[0] && log.take(2).skip(1)[0] == log[1]);
    if 0 <= i < n {
        assert(inner(rest.take(i)) == StepView::Ask(
            RequestView::DeleteNode { id: children[i].id, expected_version: children[i].version },
        ));
        assert(op(log.take(3 + i)) == inner(rest.take(i)));
        assert(rest[i] == log[3 + i]);
    }
    assert(op(log.take(3 + n)) == inner(rest.take(n)));
    assert(rest[n] == log[3 + n]);
    if log[1] is Text && log[1]->Text_text != id {
        assert(op(log.take(4 + n)) == inner(rest.take(n + 1)));
    }
}

/// Without children a deletion is owed: the store is asked once. Where it deleted nothing, the node has
/// another version, which is told, or is gone already, which is no failure.
pub proof fn law_deletions_are_owed(
    node: NodeView,
    version: i64,
    rows: usize,
    current: NodeView,
    below: Seq<NodeView>,
)
    requires
        below.len() == 0,
    ensures
        ({
            let three = seq![
                ReplyView::Node { node: Some(node) },
                ReplyView::Text { text: node.id },
                ReplyView::Nodes { nodes: below },
            ];
            let none = three.push(ReplyView::Count { value: 0 });
            &&& delete_next(node.id, version, three) == StepView::Ask(
                RequestView::StoreVersionedDelete { id: node.id, expected_version: version },
            )
            &&& rows > 0 ==> delete_next(
                node.id,
                version,
                three.push(ReplyView::Count { value: rows }),
            ) == StepView::Finish(OutcomeView::Deleted { existed: true })
            &&& delete_next(node.id, version, none) == StepView::Ask(
                RequestView::LoadNode { id: node.id },
            )
            &&& delete_next(
                node.id,
                version,
                none.push(ReplyView::Node { node: Some(current) }),
            ) == StepView::Fail(
                ErrorView::VersionConflict {
                    node_id: node.id,
                    expected_version: version,
                    actual_version: current.version,
                },
            )
            &&& delete_next(node.id, version, none.push(ReplyView::Node { node: None }))
                == StepView::Finish(OutcomeView::Deleted { existed: false })
        }),
{
    let three = seq![
        ReplyView::Node { node: Some(node) },
        ReplyView::Text { text: node.id },
        ReplyView::Nodes { nodes: below },
    ];
    let none = three.push(ReplyView::Count { value: 0 });
    assert(three.skip(1).skip(1)[0] == three[2]);
    assert(none.skip(1).skip(1)[0] == three[2]);
    assert(none.push(ReplyView::Node { node: None }).skip(1).skip(1)[0] == three[2]);
    assert(none.push(ReplyView::Node { node: Some(current) }).skip(1).skip(1)[0] == three[2]);
    assert(three.push(ReplyView::Count { value: rows }).skip(1).skip(1)[0] == three[2]);
}

/// That nothing was deleted is said only of a node that the store did not have.
pub proof fn law_nothing_is_deleted_twice(id: Seq<char>, version: i64, log: Seq<ReplyView>)
    requires
        delete_next(id, version, log) == StepView::Finish(OutcomeView::Deleted { existed: false }),
    ensures
        log.contains(ReplyView::Node { node: None }),
{
    if log[0] != (ReplyView::Node { node: None }) {
        let rest = log.skip(1).skip(1).skip(1);
        assert(log.skip(1).skip(1)[0] is Nodes);
        let root = match log.skip(1)[0] {
            ReplyView::Text { text } => Some(text),
            _ => None,
        };
        let children = log.skip(1).skip(1)[0]->Nodes_nodes;
        lemma_gone_last(id, version, root, children, rest);
        assert(log[children.len() as int + 4] == rest[children.len() as int + 1]);
    }
}

proof fn lemma_gone_last(
    id: Seq<char>,
    version: i64,
    root: Option<Seq<char>>,
    children: Seq<NodeView>,
    log: Seq<ReplyView>,
)
    requires
        delete_children_next(id, version, root, children, log) == StepView::Finish(
            OutcomeView::Deleted { existed: false },
        ),
    ensures
        log.len() >= children.len() + 2,
        log[children.len() as int + 1] == (ReplyView::Node { node: None }),
    decreases children.len(),
{
    if children.len() > 0 {
        lemma_gone_last(id, version, root, children.skip(1), log.skip(1));
        assert(log.skip(1)[children.len() as int] == log[children.len() as int + 1]);
    }
}

/// A deletion without a version asks the store to delete this node, and a node that was not there is
/// an error; one with a version hands on how many the store deleted.
pub proof fn law_single_deletions(id: Seq<char>, version: i64, rows: usize)
    ensures
        delete_node_unchecked_next(id, Seq::empty()) == StepView::Ask(RequestView::StoreDelete { id }),
        delete_node_unchecked_next(id, seq![ReplyView::Flag { value: true }]) == StepView::Finish(
            OutcomeView::Deleted { existed: true },
        ),
        delete_node_unchecked_next(id, seq![ReplyView::Flag { value: false }]) == StepView::Fail(
            ErrorView::NodeNotFound { id },
        ),
        delete_with_version_check_next(id, version, Seq::empty()) == StepView::Ask(
            RequestView::StoreVersionedDelete { id, expected_version: version },
        ),
        delete_with_version_check_next(id, version, seq![ReplyView::Count { value: rows }])
            == StepView::Finish(OutcomeView::Count { count: rows }),
{
}

/// An upsert is one request. A parent that is not there is stored as a date, a node that is not there
/// is stored as it is described, and one that is there gets the content; the place is the one that the
/// caller names, and it is told of as new or as changed.
pub proof fn law_upserts_store_what_is_given(
    u: UpsertView,
    parent: Option<NodeView>,
    node: Option<NodeView>,
    order: Json,
)
    ensures
        upsert_next(u, Seq::empty()) == StepView::Ask(RequestView::LoadNode { id: u.parent_id }),
        upsert_next(u, seq![ReplyView::Node { node: parent }]) == StepView::Ask(
            RequestView::LoadNode { id: u.node_id },
        ),
        ({
            let two = seq![ReplyView::Node { node: parent }, ReplyView::Node { node }];
            let three = two.push(ReplyView::Order { order });
            &&& upsert_next(u, two) matches StepView::Ask(
                RequestView::StoreUpsert { new_parent, new_node, id, content, parent: p, after },
            ) && id == u.node_id && content == u.content && p == u.parent_id && after
                == u.before_sibling_id && (new_parent is Some <==> parent is None) && (new_node is Some
                <==> node is None) && (new_parent matches Some(n) ==> n.id == u.parent_id && n.node_type
                == "date"@ && n.content == u.parent_id && n.version == 1) && (new_node matches Some(n)
                ==> n.id == u.node_id && n.node_type == u.node_type && n.content == u.content
                && n.version == 1 && n.lifecycle_status == "active"@ && n.properties == Json::Object(
                Map::empty(),
            ))
            &&& upsert_next(u, three) matches StepView::Ask(RequestView::Emit { event }) && (match event {
                DomainEventView::RelationshipCreated { relationship } => node is None
                    && relationship.from_id == u.parent_id && relationship.to_id == u.node_id
                    && relationship.relationship_type == "has_child"@
                    && relationship.properties.member("order"@) == Some(order),
                DomainEventView::RelationshipUpdated { relationship } => node is Some
                    && relationship.from_id == u.parent_id && relationship.to_id == u.node_id
                    && relationship.relationship_type == "has_child"@
                    && relationship.properties.member("order"@) == Some(order),
                _ => false,
            })
            &&& upsert_next(u, three.push(ReplyView::Done)) == StepView::Finish(OutcomeView::Nothing)
        }),
{
}

/// An upsert that ends well was stored.
pub proof fn law_finished_upserts_were_stored(u: UpsertView, log: Seq<ReplyView>)
    requires
        upsert_next(u, log) is Finish,
    ensures
        log.len() >= 4,
        upsert_next(u, log.take(2)) matches StepView::Ask(
            RequestView::StoreUpsert {
                new_parent: _,
                new_node: _,
                id,
                content,
                parent,
                after: _,
            },
        ) && id == u.node_id && content == u.content && parent == u.parent_id,
        log[2] is Order,
{
    assert(log.take(2)[0] == log[0]);
    assert(log.take(2).skip(1)[0] == log.skip(1)[0]);
}

/// An update of a task hands the store what the caller names, with the identifier and the version, and
/// gives what the store made of it. One that names nothing is refused.
pub proof fn law_task_updates_store_what_is_given(
    id: Seq<char>,
    version: i64,
    update: TaskNodeUpdateView,
    value: Json,
    log: Seq<ReplyView>,
)
    ensures
        !update.empty() ==> update_task_node_next(id, version, update, Seq::empty()) == StepView::Ask(
            RequestView::StoreTaskUpdate { id, expected_version: version, update },
        ),
        !update.empty() ==> update_task_node_next(
            id,
            version,
            update,
            seq![ReplyView::Json { value }],
        ) == StepView::Finish(OutcomeView::Json { value }),
        update.empty() ==> update_task_node_next(id, version, update, log) matches StepView::Fail(
            ErrorView::InvalidUpdate(_),
        ),
        update.empty() <==> update.status is None && update.priority is None && update.due_date is None
            && update.assignee is None && update.content is None,
        update_task_node_next(id, version, update, log) is Finish ==> log.len() > 0 && log[0] is Json,
{
}

/// That the root above a node is not found does not keep the node from being deleted; nothing is queued
/// then.
pub proof fn law_nodes_without_a_root_are_deleted(
    id: Seq<char>,
    version: i64,
    node: NodeView,
    error: crate::error::ErrorView,
    count: usize,
)
    requires
        count > 0,
    ensures
        ({
            let two = seq![ReplyView::Node { node: Some(node) }, ReplyView::Refused { error }];
            let three = two.push(ReplyView::Nodes { nodes: Seq::empty() });
            &&& delete_next(id, version, two) == StepView::Ask(RequestView::GetChildren { id })
            &&& delete_next(id, version, three) == StepView::Ask(
                RequestView::StoreVersionedDelete { id, expected_version: version },
            )
            &&& delete_next(id, version, three.push(ReplyView::Count { value: count }))
                == StepView::Finish(OutcomeView::Deleted { existed: true })
        }),
{
    let three = seq![ReplyView::Node { node: Some(node) }, ReplyView::Refused { error }].push(
        ReplyView::Nodes { nodes: Seq::empty() },
    );
    let four = three.push(ReplyView::Count { value: count });
    assert(three.skip(1).skip(1)[0] == three[2]);
    assert(four.skip(1).skip(1)[0] == four[2]);
    assert(four.skip(1).skip(1).skip(1)[0] == four[3]);
}

} // verus!
