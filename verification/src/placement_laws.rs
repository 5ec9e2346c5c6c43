//! What the placing of children promises.

use crate::answers::edge_step;
use crate::error::ErrorView;
use crate::events::DomainEventView;
use crate::json::Json;
use crate::node::NodeView;
use crate::placement::{
    both_visible, edge_next, in_place, position_of, recheck_next, verify_children_next,
    verify_move_next, verify_next,
};
use crate::protocol::{OutcomeView, ReplyView, RequestView, StepView};
use crate::text::contains_part;
use vstd::prelude::*;

verus! {

/// The position of a node is the first one that holds its identifier, and there is one exactly if some
/// node of the list has it.
pub proof fn law_positions_are_first(nodes: Seq<NodeView>, id: Seq<char>, i: int)
    ensures
        0 <= position_of(nodes, id) <= nodes.len(),
        position_of(nodes, id) < nodes.len() ==> nodes[position_of(nodes, id)].id == id,
        0 <= i < nodes.len() && nodes[i].id == id ==> position_of(nodes, id) <= i,
    decreases nodes.len(),
{
    if nodes.len() > 0 {
        law_positions_are_first(nodes.drop_last(), id, i);
    }
}

/// A child that is at its place stands right behind its sibling.
pub proof fn law_place_is_right_behind(
    children: Seq<NodeView>,
    child: Seq<char>,
    sibling: Seq<char>,
    i: int,
)
    ensures
        in_place(children, child, sibling) ==> exists|k: int|
            0 <= k && k + 1 < children.len() && (#[trigger] children[k]).id == sibling && children[k
                + 1].id == child,
        0 <= i && i + 1 < children.len() && children[i].id == sibling && children[i + 1].id == child
            && (forall|a: int, b: int|
            0 <= a < b < children.len() ==> (#[trigger] children[a]).id != (
            #[trigger] children[b]).id) ==> in_place(children, child, sibling),
        in_place(children, child, sibling) ==> both_visible(children, child, sibling),
{
    law_positions_are_first(children, child, i + 1);
    law_positions_are_first(children, sibling, i);
    if in_place(children, child, sibling) {
        assert(children[position_of(children, sibling)].id == sibling);
    }
}

/// The step tells that the child is under the parent, with this order.
pub open spec fn tells_of_child(
    step: StepView,
    child: Seq<char>,
    parent: Seq<char>,
    order: Json,
) -> bool {
    step matches StepView::Ask(
        RequestView::Emit { event: DomainEventView::RelationshipCreated { relationship } },
    ) && relationship.from_id == parent && relationship.to_id == child
        && relationship.relationship_type == "has_child"@ && relationship.properties.member("order"@)
        == Some(order)
}

/// The placing of a child is owed: the store is asked to put it under the parent behind the sibling; a
/// child that is first or last is then told of, and one behind a sibling once it was seen there.
pub proof fn law_placings_are_owed(
    child: Seq<char>,
    parent: Seq<char>,
    sibling: Seq<char>,
    order: Json,
    nodes: Seq<NodeView>,
)
    ensures
        ({
            let ordered = ReplyView::Order { order };
            let seen = seq![ordered, ReplyView::Done].push(ReplyView::Nodes { nodes });
            &&& edge_step(child, parent, None, Seq::empty()) == StepView::Ask(
                RequestView::StoreMove { id: child, parent: Some(parent), after: None },
            )
            &&& edge_step(child, parent, Some(sibling), Seq::empty()) == StepView::Ask(
                RequestView::StoreMove { id: child, parent: Some(parent), after: Some(sibling) },
            )
            &&& tells_of_child(edge_step(child, parent, None, seq![ordered]), child, parent, order)
            &&& edge_step(child, parent, None, seq![ordered, ReplyView::Done]) == StepView::Finish(
                OutcomeView::Nothing,
            )
            &&& edge_step(child, parent, Some(sibling), seq![ordered, ReplyView::Done])
                == StepView::Ask(RequestView::GetChildren { id: parent })
            &&& in_place(nodes, child, sibling) ==> tells_of_child(
                edge_step(child, parent, Some(sibling), seen),
                child,
                parent,
                order,
            )
            &&& in_place(nodes, child, sibling) ==> edge_step(
                child,
                parent,
                Some(sibling),
                seen.push(ReplyView::Done),
            ) == StepView::Finish(OutcomeView::Nothing)
            &&& both_visible(nodes, child, sibling) && !in_place(nodes, child, sibling) ==> edge_step(
                child,
                parent,
                Some(sibling),
                seen,
            ) == StepView::Ask(
                RequestView::StoreMove { id: child, parent: Some(parent), after: Some(sibling) },
            )
        }),
{
    reveal_with_fuel(verify_next, 2);
    let ordered = ReplyView::Order { order };
    let seen = seq![ordered, ReplyView::Done].push(ReplyView::Nodes { nodes });
    let told = seen.push(ReplyView::Done);
    assert(seen.skip(1).skip(1)[0] == seen[2]);
    assert(told.skip(1).skip(1)[0] == told[2]);
}

/// A child that stood at a wrong place is told of with the order that it has at the right one.
pub proof fn law_corrected_children_are_told_of(
    child: Seq<char>,
    parent: Seq<char>,
    sibling: Seq<char>,
    rounds: nat,
    order: Json,
    nodes: Seq<NodeView>,
)
    requires
        in_place(nodes, child, sibling),
    ensures
        tells_of_child(
            verify_move_next(
                child,
                parent,
                sibling,
                rounds,
                seq![ReplyView::Order { order }, ReplyView::Done].push(ReplyView::Nodes { nodes }),
            ),
            child,
            parent,
            order,
        ),
{
    let log = seq![ReplyView::Order { order }, ReplyView::Done].push(ReplyView::Nodes { nodes });
    assert(log.skip(1).skip(1)[0] == log[2]);
    assert(log.skip(1).skip(1).skip(1).len() == 0);
}

/// A sibling that the store does not see yet is waited for, ten times at most. Any other failure is
/// final.
pub proof fn law_siblings_are_waited_for(
    child: Seq<char>,
    parent: Seq<char>,
    after: Option<Seq<char>>,
    attempts: nat,
    last: Seq<char>,
    message: Seq<char>,
)
    ensures
        edge_step(child, parent, after, Seq::empty()) == edge_next(
            child,
            parent,
            after,
            10,
            Seq::empty(),
            Seq::empty(),
        ),
        edge_next(child, parent, after, 0, last, Seq::empty()) == StepView::Fail(
            ErrorView::QueryFailed(last),
        ),
        attempts > 0 && !contains_part(message, "Sibling not found"@) ==> edge_next(
            child,
            parent,
            after,
            attempts,
            last,
            seq![ReplyView::Failed { message }],
        ) == StepView::Fail(ErrorView::QueryFailed(message)),
        attempts > 0 && contains_part(message, "Sibling not found"@) ==> edge_next(
            child,
            parent,
            after,
            attempts,
            last,
            seq![ReplyView::Failed { message }],
        ) is Ask,
        attempts > 1 && contains_part(message, "Sibling not found"@) ==> edge_next(
            child,
            parent,
            after,
            attempts,
            last,
            seq![ReplyView::Failed { message }, ReplyView::Done],
        ) == StepView::Ask(RequestView::StoreMove { id: child, parent: Some(parent), after }),
        attempts == 1 && contains_part(message, "Sibling not found"@) ==> edge_next(
            child,
            parent,
            after,
            attempts,
            last,
            seq![ReplyView::Failed { message }, ReplyView::Done],
        ) == StepView::Fail(ErrorView::QueryFailed(message)),
{
    reveal_with_fuel(edge_next, 2);
}

/// A child behind a sibling is told of only where it was seen there, or after the last look for it.
pub proof fn law_children_are_seen_in_place(
    child: Seq<char>,
    parent: Seq<char>,
    sibling: Seq<char>,
    order: Json,
    rounds: nat,
    log: Seq<ReplyView>,
)
    requires
        rounds > 0,
        log.len() > 0,
        verify_next(child, parent, sibling, order, rounds, log) is Finish,
    ensures
        log.len() >= 2 * rounds || exists|k: int|
            0 <= k < log.len() && (#[trigger] log[k] matches ReplyView::Nodes { nodes } && in_place(
                nodes,
                child,
                sibling,
            )),
    decreases log.len(), rounds, 1nat,
{
    let one = log.skip(1);
    let two = one.skip(1);
    assert(verify_next(child, parent, sibling, order, rounds, log) == verify_children_next(
        child,
        parent,
        sibling,
        order,
        rounds,
        one,
    ));
    assert(one[0] == log[1]);
    if let ReplyView::Nodes { nodes } = log[1] {
        if !in_place(nodes, child, sibling) {
            if both_visible(nodes, child, sibling) {
                assert(verify_children_next(child, parent, sibling, order, rounds, one)
                    == verify_move_next(child, parent, sibling, rounds, two));
                if let ReplyView::Order { order: again } = two[0] {
                    lemma_seen_again(child, parent, sibling, again, rounds, 10, two.skip(1));
                    assert(two.skip(1) =~= log.skip(3));
                }
            } else if rounds > 1 {
                law_children_are_seen_in_place(
                    child,
                    parent,
                    sibling,
                    order,
                    (rounds - 1) as nat,
                    two,
                );
                assert(two =~= log.skip(2));
            }
        }
    }
}

proof fn lemma_seen_again(
    child: Seq<char>,
    parent: Seq<char>,
    sibling: Seq<char>,
    order: Json,
    rounds: nat,
    tries: nat,
    log: Seq<ReplyView>,
)
    requires
        rounds > 0,
        recheck_next(child, parent, sibling, order, rounds, tries, log) is Finish,
    ensures
        log.len() + 2 >= 2 * rounds || exists|k: int|
            0 <= k < log.len() && (#[trigger] log[k] matches ReplyView::Nodes { nodes } && in_place(
                nodes,
                child,
                sibling,
            )),
    decreases log.len(), rounds, 2nat,
{
    if tries == 0 {
        if rounds > 1 {
            law_children_are_seen_in_place(
                child,
                parent,
                sibling,
                order,
                (rounds - 1) as nat,
                log,
            );
        }
    } else {
        let two = log.skip(1).skip(1);
        assert(log.skip(1)[0] == log[1]);
        assert(two =~= log.skip(2));
        if let ReplyView::Nodes { nodes } = log[1] {
            if !in_place(nodes, child, sibling) {
                lemma_seen_again(child, parent, sibling, order, rounds, (tries - 1) as nat, two);
            }
        }
    }
}

/// A child that was not seen at its place is told of all the same, with the order that the store gave
/// it, once all looks for it are done. There are twenty rounds of them.
pub proof fn law_unseen_children_are_told_of(
    child: Seq<char>,
    parent: Seq<char>,
    sibling: Seq<char>,
    order: Json,
    nodes: Seq<NodeView>,
)
    requires
        !both_visible(nodes, child, sibling),
    ensures
        tells_of_child(
            verify_next(
                child,
                parent,
                sibling,
                order,
                1,
                seq![ReplyView::Done, ReplyView::Nodes { nodes }],
            ),
            child,
            parent,
            order,
        ),
        edge_step(child, parent, Some(sibling), seq![ReplyView::Order { order }]) == verify_next(
            child,
            parent,
            sibling,
            order,
            20,
            Seq::empty(),
        ),
{
    let log = seq![ReplyView::Done, ReplyView::Nodes { nodes }];
    assert(verify_next(child, parent, sibling, order, 1, log) == verify_children_next(
        child,
        parent,
        sibling,
        order,
        1,
        log.skip(1),
    ));
    assert(verify_children_next(child, parent, sibling, order, 1, log.skip(1)) == verify_next(
        child,
        parent,
        sibling,
        order,
        0,
        log.skip(1).skip(1),
    ));
}

} // verus!
