//! Putting a new node under its parent.
//!
//! The store settles its writes with some delay: a sibling that was just created may not be visible
//! yet, and a child may end up at another place than asked for. The operation retries and then
//! checks where the child is.

use crate::error::{ErrorView, NodeServiceError};
use crate::events::{DomainEvent, DomainEventView};
use crate::hierarchy::{child_relationship, make_child_relationship, optional_str, own};
use crate::json::{Json, Value};
use crate::node::{node_views, Node, NodeView};
use crate::protocol::{
    group_replies, replies, replies_from, Outcome, OutcomeView, Reply, ReplyView, Request,
    RequestView, Step, StepView,
};
use crate::service::NodeService;
use crate::text::{contains_part, same_text, text_contains};
use vstd::prelude::*;
use vstd::string::*;

verus! {

broadcast use group_replies;

/// How often the node is put under its parent while the sibling is not visible.
pub const EDGE_ATTEMPTS: usize = 10;

/// The pause between two of these attempts.
pub const EDGE_PAUSE_MILLIS: u64 = 100;

/// How often the place of the child is checked.
pub const VERIFY_ROUNDS: usize = 20;

/// How often it is checked again after the child was put at its place once more.
pub const RECHECK_TRIES: usize = 10;

/// The pause before each check.
pub const VERIFY_PAUSE_MILLIS: u64 = 50;

/// The position of the first node with the identifier, or the number of nodes.
pub open spec fn position_of(nodes: Seq<NodeView>, id: Seq<char>) -> int
    decreases nodes.len(),
{
    if nodes.len() == 0 {
        0
    } else if position_of(nodes.drop_last(), id) < nodes.len() - 1 {
        position_of(nodes.drop_last(), id)
    } else if nodes.last().id == id {
        nodes.len() - 1
    } else {
        nodes.len() as int
    }
}

/// Both nodes are among the children.
pub open spec fn both_visible(children: Seq<NodeView>, child: Seq<char>, sibling: Seq<char>) -> bool {
    position_of(children, child) < children.len() && position_of(children, sibling) < children.len()
}

/// The child comes right after the sibling.
pub open spec fn in_place(children: Seq<NodeView>, child: Seq<char>, sibling: Seq<char>) -> bool {
    both_visible(children, child, sibling) && position_of(children, child) == position_of(
        children,
        sibling,
    ) + 1
}

/// The attempts to put the child under the parent. `last` is what the previous attempt failed with.
pub open spec fn edge_next(
    child: Seq<char>,
    parent: Seq<char>,
    after: Option<Seq<char>>,
    attempts: nat,
    last: Seq<char>,
    log: Seq<ReplyView>,
) -> StepView
    decreases log.len(),
{
    if attempts == 0 {
        StepView::Fail(ErrorView::QueryFailed(last))
    } else if log.len() == 0 {
        StepView::Ask(RequestView::StoreMove { id: child, parent: Some(parent), after })
    } else {
        match log[0] {
            ReplyView::Order { order } => match after {
                Some(sibling) => verify_next(
                    child,
                    parent,
                    sibling,
                    order,
                    VERIFY_ROUNDS as nat,
                    log.skip(1),
                ),
                None => edge_event_next(child, parent, order, log.skip(1)),
            },
            ReplyView::Failed { message } => if !contains_part(message, "Sibling not found"@) {
                StepView::Fail(ErrorView::QueryFailed(message))
            } else if log.skip(1).len() == 0 {
                StepView::Ask(RequestView::Pause { millis: EDGE_PAUSE_MILLIS })
            } else {
                match log.skip(1)[0] {
                    ReplyView::Done => edge_next(
                        child,
                        parent,
                        after,
                        (attempts - 1) as nat,
                        message,
                        log.skip(1).skip(1),
                    ),
                    _ => StepView::Mismatch,
                }
            },
            _ => StepView::Mismatch,
        }
    }
}

/// The rounds in which the place of the child is checked. A child at a wrong place is put at its
/// place once more; after the last round the place counts as settled.
pub open spec fn verify_next(
    child: Seq<char>,
    parent: Seq<char>,
    sibling: Seq<char>,
    order: Json,
    rounds: nat,
    log: Seq<ReplyView>,
) -> StepView
    decreases log.len(), rounds, 1nat,
{
    if rounds == 0 {
        edge_event_next(child, parent, order, log)
    } else if log.len() == 0 {
        StepView::Ask(RequestView::Pause { millis: VERIFY_PAUSE_MILLIS })
    } else {
        match log[0] {
            ReplyView::Done => verify_children_next(child, parent, sibling, order, rounds, log.skip(1)),
            _ => StepView::Mismatch,
        }
    }
}

pub open spec fn verify_children_next(
    child: Seq<char>,
    parent: Seq<char>,
    sibling: Seq<char>,
    order: Json,
    rounds: nat,
    log: Seq<ReplyView>,
) -> StepView
    decreases log.len(), rounds, 0nat,
{
    if log.len() == 0 {
        StepView::Ask(RequestView::GetChildren { id: parent })
    } else {
        match log[0] {
            ReplyView::Refused { error } => StepView::Fail(error),
            ReplyView::Nodes { nodes } => if in_place(nodes, child, sibling) {
                edge_event_next(child, parent, order, log.skip(1))
            } else if both_visible(nodes, child, sibling) {
                verify_move_next(child, parent, sibling, rounds, log.skip(1))
            } else if rounds == 0 {
                StepView::Mismatch
            } else {
                verify_next(child, parent, sibling, order, (rounds - 1) as nat, log.skip(1))
            },
            _ => StepView::Mismatch,
        }
    }
}

pub open spec fn verify_move_next(
    child: Seq<char>,
    parent: Seq<char>,
    sibling: Seq<char>,
    rounds: nat,
    log: Seq<ReplyView>,
) -> StepView
    decreases log.len(), rounds, 0nat,
{
    if log.len() == 0 {
        StepView::Ask(RequestView::StoreMove { id: child, parent: Some(parent), after: Some(sibling) })
    } else {
        match log[0] {
            ReplyView::Failed { message } => StepView::Fail(ErrorView::QueryFailed(message)),
            ReplyView::Order { order } => recheck_next(
                child,
                parent,
                sibling,
                order,
                rounds,
                RECHECK_TRIES as nat,
                log.skip(1),
            ),
            _ => StepView::Mismatch,
        }
    }
}

/// The checks after the child was put at its place once more. If none of them finds it there, the
/// next round begins.
pub open spec fn recheck_next(
    child: Seq<char>,
    parent: Seq<char>,
    sibling: Seq<char>,
    order: Json,
    rounds: nat,
    tries: nat,
    log: Seq<ReplyView>,
) -> StepView
    decreases log.len(), rounds, 2nat,
{
    if tries == 0 {
        if rounds == 0 {
            StepView::Mismatch
        } else {
            verify_next(child, parent, sibling, order, (rounds - 1) as nat, log)
        }
    } else if log.len() == 0 {
        StepView::Ask(RequestView::Pause { millis: VERIFY_PAUSE_MILLIS })
    } else {
        match log[0] {
            ReplyView::Done => if log.skip(1).len() == 0 {
                StepView::Ask(RequestView::GetChildren { id: parent })
            } else {
                match log.skip(1)[0] {
                    ReplyView::Refused { error } => StepView::Fail(error),
                    ReplyView::Nodes { nodes } => if in_place(nodes, child, sibling) {
                        edge_event_next(child, parent, order, log.skip(1).skip(1))
                    } else {
                        recheck_next(
                            child,
                            parent,
                            sibling,
                            order,
                            rounds,
                            (tries - 1) as nat,
                            log.skip(1).skip(1),
                        )
                    },
                    _ => StepView::Mismatch,
                }
            },
            _ => StepView::Mismatch,
        }
    }
}

/// The event that tells of the new relationship.
pub open spec fn edge_event_next(
    child: Seq<char>,
    parent: Seq<char>,
    order: Json,
    log: Seq<ReplyView>,
) -> StepView {
    if log.len() == 0 {
        StepView::Ask(
            RequestView::Emit {
                event: DomainEventView::RelationshipCreated {
                    relationship: child_relationship(parent, child, order),
                },
            },
        )
    } else {
        match log[0] {
            ReplyView::Done => StepView::Finish(OutcomeView::Nothing),
            _ => StepView::Mismatch,
        }
    }
}

fn find_position(nodes: &Vec<Node>, id: &str) -> (r: usize)
    ensures
        r == position_of(node_views(nodes@), id@),
        r <= nodes@.len(),
{
    let ghost all = node_views(nodes@);
    let mut i: usize = 0;
    while i < nodes.len()
        invariant
            i <= nodes@.len() == all.len(),
            position_of(all.take(i as int), id@) == i,
        decreases nodes@.len() - i,
    {
        proof {
            assert(all.take(i + 1).drop_last() =~= all.take(i as int));
            assert(all.take(i + 1).last() == nodes@[i as int]@);
        }
        if same_text(nodes[i].id.as_str(), id) {
            proof {
                lemma_position_stays(all, id@, i + 1);
            }
            return i;
        }
        i += 1;
    }
    proof {
        assert(all.take(all.len() as int) =~= all);
    }
    i
}

proof fn lemma_position_stays(nodes: Seq<NodeView>, id: Seq<char>, n: int)
    requires
        0 <= n <= nodes.len(),
        position_of(nodes.take(n), id) < n,
    ensures
        position_of(nodes, id) == position_of(nodes.take(n), id),
    decreases nodes.len() - n,
{
    if n < nodes.len() {
        assert(nodes.take(n + 1).drop_last() =~= nodes.take(n));
        lemma_position_stays(nodes, id, n + 1);
    } else {
        assert(nodes.take(n) =~= nodes);
    }
}

impl NodeService {
    /// Puts a new node under its parent, after a sibling or at the beginning.
    pub fn create_parent_edge(
        &self,
        child_id: &str,
        parent_id: &str,
        insert_after_node_id: Option<&str>,
        log: &Vec<Reply>,
    ) -> (r: Step)
        ensures
            r@ == edge_next(
                child_id@,
                parent_id@,
                optional_str(insert_after_node_id),
                EDGE_ATTEMPTS as nat,
                Seq::empty(),
                replies(log@),
            ),
    {
        let last = String::new();
        NodeService::edge_attempt(
            child_id,
            parent_id,
            insert_after_node_id,
            EDGE_ATTEMPTS,
            &last,
            log,
            0,
        )
    }

    fn edge_attempt(
        child: &str,
        parent: &str,
        after: Option<&str>,
        attempts: usize,
        last: &String,
        log: &Vec<Reply>,
        from: usize,
    ) -> (r: Step)
        requires
            from <= log@.len(),
        ensures
            r@ == edge_next(
                child@,
                parent@,
                optional_str(after),
                attempts as nat,
                last@,
                replies_from(log@, from as int),
            ),
        decreases attempts,
    {
        if attempts == 0 {
            return Step::Fail(NodeServiceError::QueryFailed(last.clone()));
        }
        if from >= log.len() {
            return Step::Ask(
                Request::StoreMove {
                    id: child.to_owned(),
                    parent: Some(parent.to_owned()),
                    after: own(after),
                },
            );
        }
        match &log[from] {
            Reply::Order { order } => match after {
                Some(sibling) => NodeService::verify_place(
                    child,
                    parent,
                    sibling,
                    order,
                    VERIFY_ROUNDS,
                    log,
                    from + 1,
                ),
                None => NodeService::edge_event(child, parent, order, log, from + 1),
            },
            Reply::Failed { message } => {
                if !text_contains(message.as_str(), "Sibling not found") {
                    return Step::Fail(NodeServiceError::QueryFailed(message.clone()));
                }
                if from + 1 >= log.len() {
                    return Step::Ask(Request::Pause { millis: EDGE_PAUSE_MILLIS });
                }
                match &log[from + 1] {
                    Reply::Done => NodeService::edge_attempt(
                        child,
                        parent,
                        after,
                        attempts - 1,
                        message,
                        log,
                        from + 2,
                    ),
                    _ => Step::Mismatch,
                }
            },
            _ => Step::Mismatch,
        }
    }

    fn verify_place(
        child: &str,
        parent: &str,
        sibling: &str,
        order: &Value,
        rounds: usize,
        log: &Vec<Reply>,
        from: usize,
    ) -> (r: Step)
        requires
            from <= log@.len(),
        ensures
            r@ == verify_next(
                child@,
                parent@,
                sibling@,
                order@,
                rounds as nat,
                replies_from(log@, from as int),
            ),
        decreases log@.len() - from, rounds, 1nat,
    {
        if rounds == 0 {
            return NodeService::edge_event(child, parent, order, log, from);
        }
        if from >= log.len() {
            return Step::Ask(Request::Pause { millis: VERIFY_PAUSE_MILLIS });
        }
        match &log[from] {
            Reply::Done => NodeService::verify_children(
                child,
                parent,
                sibling,
                order,
                rounds,
                log,
                from + 1,
            ),
            _ => Step::Mismatch,
        }
    }

    fn verify_children(
        child: &str,
        parent: &str,
        sibling: &str,
        order: &Value,
        rounds: usize,
        log: &Vec<Reply>,
        from: usize,
    ) -> (r: Step)
        requires
            from <= log@.len(),
            rounds > 0,
        ensures
            r@ == verify_children_next(
                child@,
                parent@,
                sibling@,
                order@,
                rounds as nat,
                replies_from(log@, from as int),
            ),
        decreases log@.len() - from, rounds, 0nat,
    {
        if from >= log.len() {
            return Step::Ask(Request::GetChildren { id: parent.to_owned() });
        }
        match &log[from] {
            Reply::Refused { error } => Step::Fail(error.clone()),
            Reply::Nodes { nodes } => {
                let child_at = find_position(nodes, child);
                let sibling_at = find_position(nodes, sibling);
                let visible = child_at < nodes.len() && sibling_at < nodes.len();
                if visible && child_at == sibling_at + 1 {
                    NodeService::edge_event(child, parent, order, log, from + 1)
                } else if visible {
                    NodeService::verify_move(child, parent, sibling, rounds, log, from + 1)
                } else {
                    NodeService::verify_place(
                        child,
                        parent,
                        sibling,
                        order,
                        rounds - 1,
                        log,
                        from + 1,
                    )
                }
            },
            _ => Step::Mismatch,
        }
    }

    fn verify_move(
        child: &str,
        parent: &str,
        sibling: &str,
        rounds: usize,
        log: &Vec<Reply>,
        from: usize,
    ) -> (r: Step)
        requires
            from <= log@.len(),
            rounds > 0,
        ensures
            r@ == verify_move_next(
                child@,
                parent@,
                sibling@,
                rounds as nat,
                replies_from(log@, from as int),
            ),
        decreases log@.len() - from, rounds, 0nat,
    {
        if from >= log.len() {
            return Step::Ask(
                Request::StoreMove {
                    id: child.to_owned(),
                    parent: Some(parent.to_owned()),
                    after: Some(sibling.to_owned()),
                },
            );
        }
        match &log[from] {
            Reply::Failed { message } => Step::Fail(NodeServiceError::QueryFailed(message.clone())),
            Reply::Order { order } => NodeService::recheck(
                child,
                parent,
                sibling,
                order,
                rounds,
                RECHECK_TRIES,
                log,
                from + 1,
            ),
            _ => Step::Mismatch,
        }
    }

    fn recheck(
        child: &str,
        parent: &str,
        sibling: &str,
        order: &Value,
        rounds: usize,
        tries: usize,
        log: &Vec<Reply>,
        from: usize,
    ) -> (r: Step)
        requires
            from <= log@.len(),
            rounds > 0,
        ensures
            r@ == recheck_next(
                child@,
                parent@,
                sibling@,
                order@,
                rounds as nat,
                tries as nat,
                replies_from(log@, from as int),
            ),
        decreases log@.len() - from, rounds, 2nat,
    {
        if tries == 0 {
            return NodeService::verify_place(child, parent, sibling, order, rounds - 1, log, from);
        }
        if from >= log.len() {
            return Step::Ask(Request::Pause { millis: VERIFY_PAUSE_MILLIS });
        }
        match &log[from] {
            Reply::Done => {},
            _ => {
                return Step::Mismatch;
            },
        }
        if from + 1 >= log.len() {
            return Step::Ask(Request::GetChildren { id: parent.to_owned() });
        }
        match &log[from + 1] {
            Reply::Refused { error } => Step::Fail(error.clone()),
            Reply::Nodes { nodes } => {
                let child_at = find_position(nodes, child);
                let sibling_at = find_position(nodes, sibling);
                if child_at < nodes.len() && sibling_at < nodes.len() && child_at == sibling_at + 1 {
                    NodeService::edge_event(child, parent, order, log, from + 2)
                } else {
                    NodeService::recheck(
                        child,
                        parent,
                        sibling,
                        order,
                        rounds,
                        tries - 1,
                        log,
                        from + 2,
                    )
                }
            },
            _ => Step::Mismatch,
        }
    }

    fn edge_event(child: &str, parent: &str, order: &Value, log: &Vec<Reply>, from: usize) -> (r: Step)
        requires
            from <= log@.len(),
        ensures
            r@ == edge_event_next(child@, parent@, order@, replies_from(log@, from as int)),
    {
        if from >= log.len() {
            return Step::Ask(
                Request::Emit {
                    event: DomainEvent::RelationshipCreated {
                        relationship: make_child_relationship(parent, child, order),
                    },
                },
            );
        }
        match &log[from] {
            Reply::Done => Step::Finish(Outcome::Nothing),
            _ => Step::Mismatch,
        }
    }
}

/// The step asks to announce the new relationship, with the order that the child has in it.
pub open spec fn announces(step: StepView, child: Seq<char>, parent: Seq<char>) -> bool {
    step matches StepView::Ask(
        RequestView::Emit { event: DomainEventView::RelationshipCreated { relationship } },
    ) && relationship.from_id == parent && relationship.to_id == child
        && relationship.relationship_type == "has_child"@ && relationship.properties.member("order"@) is Some
}

/// Whatever order the child got, success is announced by an event, and nothing follows it.
pub proof fn law_edge_success_is_announced(
    child: Seq<char>,
    parent: Seq<char>,
    after: Option<Seq<char>>,
    attempts: nat,
    last: Seq<char>,
    log: Seq<ReplyView>,
)
    requires
        log.len() > 0,
        edge_next(child, parent, after, attempts, last, log) is Finish,
        edge_next(child, parent, after, attempts, last, log.drop_last()) is Ask,
    ensures
        announces(edge_next(child, parent, after, attempts, last, log.drop_last()), child, parent),
    decreases log.len(),
{
    let one = log.skip(1);
    assert(one.len() > 0 ==> log.drop_last().skip(1) =~= one.drop_last());
    match log[0] {
        ReplyView::Order { order } => {
            if let Some(sibling) = after {
                lemma_verify_announced(child, parent, sibling, order, VERIFY_ROUNDS as nat, one);
            }
        },
        ReplyView::Failed { message } => {
            let two = one.skip(1);
            assert(two.len() > 0 ==> one.drop_last().skip(1) =~= two.drop_last());
            law_edge_success_is_announced(child, parent, after, (attempts - 1) as nat, message, two);
        },
        _ => {},
    }
}

proof fn lemma_verify_announced(
    child: Seq<char>,
    parent: Seq<char>,
    sibling: Seq<char>,
    order: Json,
    rounds: nat,
    log: Seq<ReplyView>,
)
    requires
        log.len() > 0,
        verify_next(child, parent, sibling, order, rounds, log) is Finish,
        verify_next(child, parent, sibling, order, rounds, log.drop_last()) is Ask,
    ensures
        announces(
            verify_next(child, parent, sibling, order, rounds, log.drop_last()),
            child,
            parent,
        ),
    decreases log.len(), rounds, 1nat,
{
    if rounds > 0 {
        assert(log.skip(1).len() > 0 ==> log.drop_last().skip(1) =~= log.skip(1).drop_last());
        lemma_children_announced(child, parent, sibling, order, rounds, log.skip(1));
    }
}

proof fn lemma_children_announced(
    child: Seq<char>,
    parent: Seq<char>,
    sibling: Seq<char>,
    order: Json,
    rounds: nat,
    log: Seq<ReplyView>,
)
    requires
        log.len() > 0,
        verify_children_next(child, parent, sibling, order, rounds, log) is Finish,
        verify_children_next(child, parent, sibling, order, rounds, log.drop_last()) is Ask,
    ensures
        announces(
            verify_children_next(child, parent, sibling, order, rounds, log.drop_last()),
            child,
            parent,
        ),
    decreases log.len(), rounds, 0nat,
{
    let one = log.skip(1);
    assert(one.len() > 0 ==> log.drop_last().skip(1) =~= one.drop_last());
    match log[0] {
        ReplyView::Nodes { nodes } => {
            if in_place(nodes, child, sibling) {
            } else if both_visible(nodes, child, sibling) {
                assert(verify_move_next(child, parent, sibling, rounds, one) is Finish);
                assert(verify_move_next(child, parent, sibling, rounds, one.drop_last()) is Ask);
                let two = one.skip(1);
                assert(two.len() > 0 ==> one.drop_last().skip(1) =~= two.drop_last());
                if let ReplyView::Order { order: moved } = one[0] {
                    lemma_recheck_announced(
                        child,
                        parent,
                        sibling,
                        moved,
                        rounds,
                        RECHECK_TRIES as nat,
                        two,
                    );
                }
            } else {
                lemma_verify_announced(child, parent, sibling, order, (rounds - 1) as nat, one);
            }
        },
        _ => {},
    }
}

proof fn lemma_recheck_announced(
    child: Seq<char>,
    parent: Seq<char>,
    sibling: Seq<char>,
    order: Json,
    rounds: nat,
    tries: nat,
    log: Seq<ReplyView>,
)
    requires
        log.len() > 0,
        recheck_next(child, parent, sibling, order, rounds, tries, log) is Finish,
        recheck_next(child, parent, sibling, order, rounds, tries, log.drop_last()) is Ask,
    ensures
        announces(
            recheck_next(child, parent, sibling, order, rounds, tries, log.drop_last()),
            child,
            parent,
        ),
    decreases log.len(), rounds, 2nat,
{
    if tries == 0 {
        lemma_verify_announced(child, parent, sibling, order, (rounds - 1) as nat, log);
    } else {
        let one = log.skip(1);
        let two = one.skip(1);
        assert(one.len() > 0 ==> log.drop_last().skip(1) =~= one.drop_last());
        assert(two.len() > 0 ==> one.drop_last().skip(1) =~= two.drop_last());
        if let ReplyView::Nodes { nodes } = one[0] {
            if !in_place(nodes, child, sibling) {
                if two.len() == 0 {
                    if tries == 1 {
                        assert(!(verify_next(
                            child,
                            parent,
                            sibling,
                            order,
                            (rounds - 1) as nat,
                            two,
                        ) is Finish));
                    }
                    assert(!(recheck_next(
                        child,
                        parent,
                        sibling,
                        order,
                        rounds,
                        (tries - 1) as nat,
                        two,
                    ) is Finish));
                }
                lemma_recheck_announced(
                    child,
                    parent,
                    sibling,
                    order,
                    rounds,
                    (tries - 1) as nat,
                    two,
                );
            }
        }
    }
}

} // verus!
