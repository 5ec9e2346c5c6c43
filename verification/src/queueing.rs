//! Queueing roots for embedding when something below them changes.
//!
//! Failures are swallowed here: a change of a node never fails because its embedding could not be
//! queued.

use crate::protocol::{
    group_replies, replies, replies_from, Outcome, OutcomeView, Reply, ReplyView, Request,
    RequestView, Step, StepView,
};
use crate::service::NodeService;
use vstd::prelude::*;

verus! {

broadcast use group_replies;

pub open spec fn nothing_more() -> StepView {
    StepView::Finish(OutcomeView::Nothing)
}

/// The queueing of the root above a node.
pub open spec fn queue_next(node_id: Seq<char>, log: Seq<ReplyView>) -> StepView {
    if log.len() == 0 {
        StepView::Ask(RequestView::GetRoot { id: node_id })
    } else {
        match log[0] {
            ReplyView::Refused { error: _ } => nothing_more(),
            ReplyView::Text { text } => queue_root_next(text, log.skip(1)),
            _ => StepView::Mismatch,
        }
    }
}

/// The same with the way up to the root.
pub open spec fn queue_walk_next(current: Seq<char>, log: Seq<ReplyView>) -> StepView
    decreases log.len(),
{
    if log.len() == 0 {
        StepView::Ask(RequestView::LoadParentId { id: current })
    } else {
        match log[0] {
            ReplyView::Failed { message: _ } => nothing_more(),
            ReplyView::MaybeText { text: Some(parent) } => queue_walk_next(parent, log.skip(1)),
            ReplyView::MaybeText { text: None } => queue_root_next(current, log.skip(1)),
            _ => StepView::Mismatch,
        }
    }
}

/// Only a root that exists and whose type can be embedded is queued.
pub open spec fn queue_root_next(root: Seq<char>, log: Seq<ReplyView>) -> StepView {
    if log.len() == 0 {
        StepView::Ask(RequestView::LoadNodeType { id: root })
    } else {
        match log[0] {
            ReplyView::Failed { message: _ } => nothing_more(),
            ReplyView::MaybeText { text: None } => nothing_more(),
            ReplyView::MaybeText { text: Some(node_type) } => queue_type_next(
                root,
                node_type,
                log.skip(1),
            ),
            _ => StepView::Mismatch,
        }
    }
}

pub open spec fn queue_type_next(
    root: Seq<char>,
    node_type: Seq<char>,
    log: Seq<ReplyView>,
) -> StepView {
    if log.len() == 0 {
        StepView::Ask(RequestView::IsEmbeddable { node_type })
    } else {
        match log[0] {
            ReplyView::Flag { value: false } => nothing_more(),
            ReplyView::Flag { value: true } => queue_state_next(root, log.skip(1)),
            _ => StepView::Mismatch,
        }
    }
}

/// Embeddings that exist are marked as stale, and for a root without any a marker is created. If it
/// cannot be found out which is the case, none are taken to exist.
pub open spec fn queue_state_next(root: Seq<char>, log: Seq<ReplyView>) -> StepView {
    if log.len() == 0 {
        StepView::Ask(RequestView::HasEmbeddings { id: root })
    } else {
        match log[0] {
            ReplyView::Failed { message: _ } => queue_mark_next(root, false, log.skip(1)),
            ReplyView::Flag { value } => queue_mark_next(root, value, log.skip(1)),
            _ => StepView::Mismatch,
        }
    }
}

pub open spec fn queue_mark_next(
    root: Seq<char>,
    has_embeddings: bool,
    log: Seq<ReplyView>,
) -> StepView {
    if log.len() == 0 {
        StepView::Ask(
            if has_embeddings {
                RequestView::MarkStale { id: root }
            } else {
                RequestView::CreateStaleMarker { id: root }
            },
        )
    } else {
        match log[0] {
            ReplyView::Failed { message: _ } => nothing_more(),
            ReplyView::Done => queue_wake_next(log.skip(1)),
            _ => StepView::Mismatch,
        }
    }
}

pub open spec fn queue_wake_next(log: Seq<ReplyView>) -> StepView {
    if log.len() == 0 {
        StepView::Ask(RequestView::WakeEmbedder)
    } else {
        match log[0] {
            ReplyView::Done => nothing_more(),
            _ => StepView::Mismatch,
        }
    }
}

impl NodeService {
    /// Queues the root above a node for embedding.
    pub fn queue_root_for_embedding(&self, node_id: &str, log: &Vec<Reply>) -> (r: Step)
        ensures
            r@ == queue_next(node_id@, replies(log@)),
    {
        if log.len() == 0 {
            return Step::Ask(Request::GetRoot { id: node_id.to_owned() });
        }
        match &log[0] {
            Reply::Refused { error: _ } => Step::Finish(Outcome::Nothing),
            Reply::Text { text } => NodeService::queue_root(text.as_str(), log, 1),
            _ => Step::Mismatch,
        }
    }

    /// Queues the root above a node for embedding, and finds the root itself.
    pub fn queue_root_for_embedding_async(node_id: &str, log: &Vec<Reply>) -> (r: Step)
        ensures
            r@ == queue_walk_next(node_id@, replies(log@)),
    {
        let mut current = node_id.to_owned();
        let mut i: usize = 0;
        while i < log.len()
            invariant
                i <= log@.len(),
                queue_walk_next(node_id@, replies(log@)) == queue_walk_next(
                    current@,
                    replies_from(log@, i as int),
                ),
            decreases log@.len() - i,
        {
            match &log[i] {
                Reply::Failed { message: _ } => {
                    return Step::Finish(Outcome::Nothing);
                },
                Reply::MaybeText { text: Some(parent) } => {
                    current = parent.clone();
                },
                Reply::MaybeText { text: None } => {
                    return NodeService::queue_root(current.as_str(), log, i + 1);
                },
                _ => {
                    return Step::Mismatch;
                },
            }
            i += 1;
        }
        Step::Ask(Request::LoadParentId { id: current })
    }

    fn queue_root(root: &str, log: &Vec<Reply>, from: usize) -> (r: Step)
        requires
            from <= log@.len(),
        ensures
            r@ == queue_root_next(root@, replies_from(log@, from as int)),
    {
        if from >= log.len() {
            return Step::Ask(Request::LoadNodeType { id: root.to_owned() });
        }
        let node_type = match &log[from] {
            Reply::Failed { message: _ } => {
                return Step::Finish(Outcome::Nothing);
            },
            Reply::MaybeText { text: None } => {
                return Step::Finish(Outcome::Nothing);
            },
            Reply::MaybeText { text: Some(t) } => t,
            _ => {
                return Step::Mismatch;
            },
        };
        if from + 1 >= log.len() {
            return Step::Ask(Request::IsEmbeddable { node_type: node_type.clone() });
        }
        match &log[from + 1] {
            Reply::Flag { value } => {
                if !*value {
                    return Step::Finish(Outcome::Nothing);
                }
            },
            _ => {
                return Step::Mismatch;
            },
        }
        NodeService::queue_state(root, log, from + 2)
    }

    fn queue_state(root: &str, log: &Vec<Reply>, from: usize) -> (r: Step)
        requires
            from <= log@.len(),
        ensures
            r@ == queue_state_next(root@, replies_from(log@, from as int)),
    {
        if from >= log.len() {
            return Step::Ask(Request::HasEmbeddings { id: root.to_owned() });
        }
        let has_embeddings = match &log[from] {
            Reply::Failed { message: _ } => false,
            Reply::Flag { value } => *value,
            _ => {
                return Step::Mismatch;
            },
        };
        if from + 1 >= log.len() {
            return Step::Ask(
                if has_embeddings {
                    Request::MarkStale { id: root.to_owned() }
                } else {
                    Request::CreateStaleMarker { id: root.to_owned() }
                },
            );
        }
        match &log[from + 1] {
            Reply::Failed { message: _ } => {
                return Step::Finish(Outcome::Nothing);
            },
            Reply::Done => {},
            _ => {
                return Step::Mismatch;
            },
        }
        if from + 2 >= log.len() {
            return Step::Ask(Request::WakeEmbedder);
        }
        match &log[from + 2] {
            Reply::Done => Step::Finish(Outcome::Nothing),
            _ => Step::Mismatch,
        }
    }
}

/// Queueing never fails.
pub proof fn law_queueing_never_fails(node_id: Seq<char>, log: Seq<ReplyView>)
    ensures
        !(queue_next(node_id, log) is Fail),
{
}

/// A root is marked only after its type was found to be embeddable.
pub proof fn law_only_embeddable_roots_are_queued(node_id: Seq<char>, log: Seq<ReplyView>)
    requires
        queue_next(node_id, log) matches StepView::Ask(request) && (request is MarkStale
            || request is CreateStaleMarker),
    ensures
        log[0] matches ReplyView::Text { text: root } && (queue_next(node_id, log) == StepView::Ask(
            RequestView::MarkStale { id: root },
        ) || queue_next(node_id, log) == StepView::Ask(RequestView::CreateStaleMarker { id: root })),
        log[1] matches ReplyView::MaybeText { text: Some(_) },
        log[2] == (ReplyView::Flag { value: true }),
{
}

} // verus!
