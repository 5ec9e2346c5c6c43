//! What moves and reorders promise.

use crate::error::ErrorView;
use crate::events::DomainEventView;
use crate::hierarchy::{
    above, bump_next, descendant_next, move_next, move_unchecked_next, node_exists_next,
    reorder_child_next, reorder_next, root_next,
};
use crate::json::Json;
use crate::node::NodeView;
use crate::protocol::{OutcomeView, ReplyView, RequestView, StepView};
use crate::trace::asked_at;
use vstd::prelude::*;

verus! {

/// A versioned move, as a function of the replies.
pub open spec fn moving(
    id: Seq<char>,
    version: i64,
    parent: Option<Seq<char>>,
    after: Option<Seq<char>>,
) -> spec_fn(Seq<ReplyView>) -> StepView {
    |l: Seq<ReplyView>| move_next(id, version, parent, after, l)
}

/// A move without a version, as a function of the replies.
pub open spec fn moving_unchecked(
    id: Seq<char>,
    parent: Option<Seq<char>>,
    after: Option<Seq<char>>,
) -> spec_fn(Seq<ReplyView>) -> StepView {
    |l: Seq<ReplyView>| move_unchecked_next(id, parent, after, l)
}

/// The replies up to the place `k` at which the store was asked to move the node: it is there, and a
/// parent that is named is there too and was not found below it.
pub open spec fn may_move(parent: Option<Seq<char>>, log: Seq<ReplyView>, k: int) -> bool {
    &&& log[0] matches ReplyView::Node { node: Some(node) } && node.node_type != "date"@
    &&& parent is None ==> k == 1
    &&& parent is Some ==> k == 3 && log[1] == (ReplyView::Flag { value: true }) && log[2] == (
    ReplyView::Flag { value: false })
}

/// The event tells that the node lies under the parent now, with the order that the store gave it.
pub open spec fn tells_of_move(
    step: StepView,
    id: Seq<char>,
    parent: Seq<char>,
    reply: ReplyView,
) -> bool {
    step matches StepView::Ask(
        RequestView::Emit { event: DomainEventView::RelationshipUpdated { relationship } },
    ) && relationship.from_id == parent && relationship.to_id == id
        && relationship.relationship_type == "has_child"@ && relationship.id == "relationship:"@ + parent
        + ":"@ + id && (reply matches ReplyView::Order { order } && relationship.properties.member(
        "order"@,
    ) == Some(order))
}

/// A versioned move that ends well was made: the store was asked to put this node under this parent
/// after this sibling, or to make it a root, and gave it an order; a new parent was told of; and
/// last the version of the node was raised, which is the node that the caller gets.
pub proof fn law_finished_moves_were_made(
    id: Seq<char>,
    version: i64,
    parent: Option<Seq<char>>,
    after: Option<Seq<char>>,
    log: Seq<ReplyView>,
)
    requires
        move_next(id, version, parent, after, log) is Finish,
    ensures
        exists|k: int|
            {
                &&& #[trigger] asked_at(
                    moving(id, version, parent, after),
                    log,
                    RequestView::StoreMove { id, parent, after },
                    k,
                )
                &&& log[k] is Order
                &&& may_move(parent, log, k)
                &&& parent matches Some(p) ==> tells_of_move(
                    move_next(id, version, parent, after, log.take(k + 1)),
                    id,
                    p,
                    log[k],
                )
            },
        log[0] matches ReplyView::Node { node: Some(node) } && node.version == version,
        log.len() >= 3,
        asked_at(
            moving(id, version, parent, after),
            log,
            RequestView::BumpVersion { id, expected_version: version },
            (if parent is None {
                2
            } else {
                5
            }),
        ),
        ({
            let at: int = if parent is None {
                2
            } else {
                5
            };
            log[at] matches ReplyView::Node { node: Some(raised) } && move_next(
                id,
                version,
                parent,
                after,
                log,
            ) == StepView::Finish(OutcomeView::Node { node: raised })
        }),
{
    let k: int = if parent is None {
        1
    } else {
        3
    };
    assert(asked_at(
        moving(id, version, parent, after),
        log,
        RequestView::StoreMove { id, parent, after },
        k,
    ));
}

/// A move without a version that ends well was made, and a new parent was told of.
pub proof fn law_finished_unchecked_moves_were_made(
    id: Seq<char>,
    parent: Option<Seq<char>>,
    after: Option<Seq<char>>,
    log: Seq<ReplyView>,
)
    requires
        move_unchecked_next(id, parent, after, log) is Finish,
    ensures
        move_unchecked_next(id, parent, after, log) == StepView::Finish(OutcomeView::Nothing),
        exists|k: int|
            {
                &&& #[trigger] asked_at(
                    moving_unchecked(id, parent, after),
                    log,
                    RequestView::StoreMove { id, parent, after },
                    k,
                )
                &&& log[k] is Order
                &&& may_move(parent, log, k)
                &&& parent matches Some(p) ==> tells_of_move(
                    move_unchecked_next(id, parent, after, log.take(k + 1)),
                    id,
                    p,
                    log[k],
                )
            },
{
    let k: int = if parent is None {
        1
    } else {
        3
    };
    assert(asked_at(
        moving_unchecked(id, parent, after),
        log,
        RequestView::StoreMove { id, parent, after },
        k,
    ));
}

/// A move is owed where nothing speaks against it: to a root with three good replies, under a parent
/// with six.
pub proof fn law_moves_are_owed(
    node: NodeView,
    parent: Seq<char>,
    after: Option<Seq<char>>,
    order: Json,
    raised: NodeView,
)
    requires
        node.node_type != "date"@,
    ensures
        move_next(
            node.id,
            node.version,
            None,
            after,
            seq![
                ReplyView::Node { node: Some(node) },
                ReplyView::Order { order },
                ReplyView::Node { node: Some(raised) },
            ],
        ) == StepView::Finish(OutcomeView::Node { node: raised }),
        move_next(
            node.id,
            node.version,
            Some(parent),
            after,
            seq![
                ReplyView::Node { node: Some(node) },
                ReplyView::Flag { value: true },
                ReplyView::Flag { value: false },
                ReplyView::Order { order },
                ReplyView::Done,
                ReplyView::Node { node: Some(raised) },
            ],
        ) == StepView::Finish(OutcomeView::Node { node: raised }),
        move_unchecked_next(
            node.id,
            None,
            after,
            seq![ReplyView::Node { node: Some(node) }, ReplyView::Order { order }],
        ) == StepView::Finish(OutcomeView::Nothing),
        move_unchecked_next(
            node.id,
            Some(parent),
            after,
            seq![
                ReplyView::Node { node: Some(node) },
                ReplyView::Flag { value: true },
                ReplyView::Flag { value: false },
                ReplyView::Order { order },
                ReplyView::Done,
            ],
        ) == StepView::Finish(OutcomeView::Nothing),
{
}

/// A move that may not be is refused: of a date, to a parent that is not there, and under a node that
/// lies below. With a version it is refused first if the node has another.
pub proof fn law_bad_moves_are_refused(
    id: Seq<char>,
    version: i64,
    parent: Seq<char>,
    any_parent: Option<Seq<char>>,
    after: Option<Seq<char>>,
    node: NodeView,
    log: Seq<ReplyView>,
)
    requires
        log.len() > 0,
        log[0] == (ReplyView::Node { node: Some(node) }),
    ensures
        node.node_type == "date"@ ==> move_unchecked_next(id, any_parent, after, log) matches StepView::Fail(
            ErrorView::HierarchyViolation(_),
        ),
        node.node_type == "date"@ && node.version == version ==> move_next(
            id,
            version,
            any_parent,
            after,
            log,
        ) matches StepView::Fail(ErrorView::HierarchyViolation(_)),
        node.node_type != "date"@ && log.len() > 1 && log[1] == (ReplyView::Flag { value: false })
            ==> move_unchecked_next(id, Some(parent), after, log) == StepView::Fail(
            ErrorView::InvalidParent { parent_id: parent },
        ),
        node.node_type != "date"@ && node.version == version && log.len() > 1 && log[1] == (
        ReplyView::Flag { value: false }) ==> move_next(id, version, Some(parent), after, log)
            == StepView::Fail(ErrorView::InvalidParent { parent_id: parent }),
        node.node_type != "date"@ && log.len() > 2 && log[1] == (ReplyView::Flag { value: true })
            && log[2] == (ReplyView::Flag { value: true }) ==> move_unchecked_next(
            id,
            Some(parent),
            after,
            log,
        ) matches StepView::Fail(ErrorView::CircularReference(_)),
        node.node_type != "date"@ && node.version == version && log.len() > 2 && log[1] == (
        ReplyView::Flag { value: true }) && log[2] == (ReplyView::Flag { value: true }) ==> move_next(
            id,
            version,
            Some(parent),
            after,
            log,
        ) matches StepView::Fail(ErrorView::CircularReference(_)),
{
}

/// The parent of a move is looked up, and whether it lies below the node, before anything is stored.
pub proof fn law_new_parents_are_looked_up(
    id: Seq<char>,
    version: i64,
    parent: Seq<char>,
    after: Option<Seq<char>>,
    node: NodeView,
)
    requires
        node.node_type != "date"@,
        node.version == version,
    ensures
        move_next(id, version, Some(parent), after, Seq::empty()) == StepView::Ask(
            RequestView::GetNode { id },
        ),
        move_next(
            id,
            version,
            Some(parent),
            after,
            seq![ReplyView::Node { node: Some(node) }],
        ) == StepView::Ask(RequestView::NodeExists { id: parent }),
        move_next(
            id,
            version,
            Some(parent),
            after,
            seq![ReplyView::Node { node: Some(node) }, ReplyView::Flag { value: true }],
        ) == StepView::Ask(RequestView::IsDescendant { ancestor: id, id: parent }),
        move_unchecked_next(
            id,
            Some(parent),
            after,
            seq![ReplyView::Node { node: Some(node) }, ReplyView::Flag { value: true }],
        ) == StepView::Ask(RequestView::IsDescendant { ancestor: id, id: parent }),
{
}

/// Raising a version stores the node as it was read, under the version that the caller saw, and gives
/// what the store made of it; if the store found another version, it is an error.
pub proof fn law_raising_a_version_changes_nothing_else(
    id: Seq<char>,
    version: i64,
    node: NodeView,
    raised: NodeView,
    log: Seq<ReplyView>,
)
    ensures
        bump_next(id, version, seq![ReplyView::Node { node: Some(node) }]) matches StepView::Ask(
            RequestView::StoreVersionedUpdate { id: i, expected_version: v, update },
        ) && i == id && v == version && update.node_type == Some(node.node_type) && update.content
            == Some(node.content) && update.properties == Some(node.properties) && update.title is None
            && update.lifecycle_status is None,
        bump_next(
            id,
            version,
            seq![ReplyView::Node { node: Some(node) }, ReplyView::Node { node: Some(raised) }],
        ) == StepView::Finish(OutcomeView::Node { node: raised }),
        bump_next(
            id,
            version,
            seq![ReplyView::Node { node: Some(node) }, ReplyView::Node { node: None }],
        ) is Fail,
        bump_next(id, version, log) is Finish ==> log.len() >= 2 && (log[1] matches ReplyView::Node {
            node: Some(n),
        } && bump_next(id, version, log) == StepView::Finish(OutcomeView::Node { node: n })),
{
}

/// A child that is reordered stays under the parent that it has, right after the sibling that is
/// named, or as the first.
pub proof fn law_reordered_children_keep_their_parent(
    id: Seq<char>,
    after: Option<Seq<char>>,
    log: Seq<ReplyView>,
    moved: Seq<char>,
    parent: Option<Seq<char>>,
    sibling: Option<Seq<char>>,
)
    requires
        reorder_child_next(id, after, log) == StepView::Ask(
            RequestView::StoreMove { id: moved, parent, after: sibling },
        ),
    ensures
        moved == id,
        sibling == after,
        ({
            let at: int = if after is None {
                1
            } else {
                2
            };
            &&& at < log.len()
            &&& reorder_child_next(id, after, log.take(at)) == StepView::Ask(
                RequestView::GetParent { id },
            )
            &&& log[at] matches ReplyView::Node { node } && parent == (match node {
                Some(p) => Some(p.id),
                None => None,
            })
        }),
        after matches Some(s) ==> reorder_child_next(id, after, log.take(1)) == StepView::Ask(
            RequestView::NodeExists { id: s },
        ) && log[1] == (ReplyView::Flag { value: true }),
{
}

/// A reordering that ends well was stored.
pub proof fn law_finished_reorderings_were_made(
    id: Seq<char>,
    after: Option<Seq<char>>,
    log: Seq<ReplyView>,
)
    requires
        reorder_child_next(id, after, log) is Finish,
    ensures
        ({
            let at: int = if after is None {
                2
            } else {
                3
            };
            &&& at < log.len()
            &&& log[at] is Order
            &&& reorder_child_next(id, after, log.take(at)) matches StepView::Ask(
                RequestView::StoreMove { id: moved, parent: _, after: sibling },
            ) && moved == id && sibling == after
        }),
{
}

/// A versioned reordering asks for the reordering of this node after this sibling, and only of a node
/// that has the version and a parent; then it raises the version.
pub proof fn law_versioned_reorderings_were_made(
    id: Seq<char>,
    version: i64,
    after: Option<Seq<char>>,
    node: NodeView,
    log: Seq<ReplyView>,
)
    ensures
        reorder_next(id, version, after, log) is Finish ==> {
            &&& log.len() >= 4
            &&& log[0] matches ReplyView::Node { node: Some(node) } && node.version == version
            &&& reorder_next(id, version, after, log.take(1)) == StepView::Ask(
                RequestView::IsRoot { id },
            )
            &&& log[1] == (ReplyView::Flag { value: false })
            &&& reorder_next(id, version, after, log.take(2)) == StepView::Ask(
                RequestView::ReorderChild { id, after },
            )
            &&& log[2] == ReplyView::Done
            &&& reorder_next(id, version, after, log.take(3)) == StepView::Ask(
                RequestView::BumpVersion { id, expected_version: version },
            )
            &&& log[3] matches ReplyView::Node { node: Some(_) }
        },
        log.len() > 0 && log[0] == (ReplyView::Node { node: Some(node) }) && node.version != version
            ==> reorder_next(id, version, after, log) == StepView::Fail(
            ErrorView::VersionConflict {
                node_id: id,
                expected_version: version,
                actual_version: node.version,
            },
        ),
        log.len() > 1 && log[0] == (ReplyView::Node { node: Some(node) }) && node.version == version
            && log[1] == (ReplyView::Flag { value: true }) ==> reorder_next(id, version, after, log)
            matches StepView::Fail(ErrorView::HierarchyViolation(_)),
{
}

/// A reordering is owed where nothing speaks against it.
pub proof fn law_reorderings_are_owed(
    node: NodeView,
    parent: NodeView,
    after: Seq<char>,
    order: Json,
    raised: NodeView,
)
    ensures
        reorder_next(
            node.id,
            node.version,
            Some(after),
            seq![
                ReplyView::Node { node: Some(node) },
                ReplyView::Flag { value: false },
                ReplyView::Done,
                ReplyView::Node { node: Some(raised) },
            ],
        ) == StepView::Finish(OutcomeView::Nothing),
        reorder_child_next(
            node.id,
            Some(after),
            seq![
                ReplyView::Node { node: Some(node) },
                ReplyView::Flag { value: true },
                ReplyView::Node { node: Some(parent) },
                ReplyView::Order { order },
                ReplyView::Done,
            ],
        ) == StepView::Finish(OutcomeView::Nothing),
        reorder_child_next(
            node.id,
            None,
            seq![
                ReplyView::Node { node: Some(node) },
                ReplyView::Node { node: Some(parent) },
                ReplyView::Order { order },
                ReplyView::Done,
            ],
        ) == StepView::Finish(OutcomeView::Nothing),
        reorder_child_next(
            node.id,
            Some(after),
            seq![ReplyView::Node { node: Some(node) }, ReplyView::Flag { value: false }],
        ) matches StepView::Fail(ErrorView::HierarchyViolation(_)),
{
}

/// A node exists exactly if the store has it.
pub proof fn law_existence_is_what_the_store_says(id: Seq<char>, node: Option<NodeView>)
    ensures
        node_exists_next(id, Seq::empty()) == StepView::Ask(RequestView::LoadNode { id }),
        node_exists_next(id, seq![ReplyView::Node { node }]) == StepView::Finish(
            OutcomeView::Flag { value: node is Some },
        ),
{
}

/// The replies name the parents that the nodes on the way up have.
pub open spec fn names_parents(
    parents: Map<Seq<char>, Seq<char>>,
    current: Seq<char>,
    log: Seq<ReplyView>,
) -> bool
    decreases log.len(),
{
    log.len() > 0 ==> match log[0] {
        ReplyView::MaybeText { text: Some(parent) } => parents.contains_key(current)
            && parents[current] == parent && names_parents(parents, parent, log.skip(1)),
        ReplyView::MaybeText { text: None } => !parents.contains_key(current),
        _ => false,
    }
}

/// The root of a node is the node itself or lies above it, and nothing lies above the root.
pub proof fn law_the_root_has_no_parent(
    parents: Map<Seq<char>, Seq<char>>,
    current: Seq<char>,
    log: Seq<ReplyView>,
    root: Seq<char>,
)
    requires
        names_parents(parents, current, log),
        root_next(current, log) == StepView::Finish(OutcomeView::Id { id: root }),
    ensures
        exists|n: nat| #[trigger] above(parents, current, n) == Some(root),
        !parents.contains_key(root),
    decreases log.len(),
{
    match log[0] {
        ReplyView::MaybeText { text: Some(parent) } => {
            law_the_root_has_no_parent(parents, parent, log.skip(1), root);
            let n = choose|n: nat| #[trigger] above(parents, parent, n) == Some(root);
            assert(above(parents, current, n + 1) == Some(root));
        },
        _ => {
            assert(above(parents, current, 0) == Some(root));
        },
    }
}

/// The search for the root asks each node on the way for its parent and never fails for want of one.
pub proof fn law_the_way_up_asks_for_parents(
    current: Seq<char>,
    log: Seq<ReplyView>,
    text: Option<Seq<char>>,
)
    requires
        log.len() > 0,
        log[0] == (ReplyView::MaybeText { text }),
    ensures
        root_next(current, Seq::empty()) == StepView::Ask(RequestView::LoadParentId { id: current }),
        root_next(current, log) == (match text {
            Some(parent) => root_next(parent, log.skip(1)),
            None => StepView::Finish(OutcomeView::Id { id: current }),
        }),
{
}

/// Whether one node lies below another is asked of the parents, from the lower node upwards; a node
/// counts as below itself.
pub proof fn law_the_search_for_an_ancestor_asks_for_parents(
    id: Seq<char>,
    current: Seq<char>,
    steps: nat,
    parent: NodeView,
    log: Seq<ReplyView>,
)
    requires
        steps > 0,
    ensures
        descendant_next(id, id, steps, log) == StepView::Finish(OutcomeView::Flag { value: true }),
        current != id ==> descendant_next(id, current, steps, Seq::empty()) == StepView::Ask(
            RequestView::GetParent { id: current },
        ),
        current != id && log.len() > 0 && log[0] == (ReplyView::Node { node: Some(parent) })
            ==> descendant_next(id, current, steps, log) == descendant_next(
            id,
            parent.id,
            (steps - 1) as nat,
            log.skip(1),
        ),
        current != id && log.len() > 0 && log[0] == (ReplyView::Node { node: None })
            ==> descendant_next(id, current, steps, log) == StepView::Finish(
            OutcomeView::Flag { value: false },
        ),
{
}

} // verus!
