//! Deleting nodes.

use crate::error::{ErrorView, NodeServiceError};
use crate::node::{node_views, Node, NodeView};
use crate::protocol::{
    group_replies, replies, replies_from, Outcome, OutcomeView, Reply, ReplyView, Request,
    RequestView, Step, StepView,
};
use crate::service::NodeService;
use crate::text::same_text;
use vstd::prelude::*;
use vstd::string::*;

verus! {

broadcast use group_replies;

pub open spec fn deleted(existed: bool) -> StepView {
    StepView::Finish(OutcomeView::Deleted { existed })
}

/// The deletion of a node that has the version, with everything below it. To delete what is not
/// there is no failure.
pub open spec fn delete_next(id: Seq<char>, expected_version: i64, log: Seq<ReplyView>) -> StepView {
    if log.len() == 0 {
        StepView::Ask(RequestView::LoadNode { id })
    } else {
        match log[0] {
            ReplyView::Failed { message } => StepView::Fail(ErrorView::QueryFailed(message)),
            ReplyView::Node { node: None } => deleted(false),
            ReplyView::Node { node: Some(_) } => delete_root_next(id, expected_version, log.skip(1)),
            _ => StepView::Mismatch,
        }
    }
}

/// The root above the node is found before the node is gone. That it is not found does not matter.
pub open spec fn delete_root_next(
    id: Seq<char>,
    expected_version: i64,
    log: Seq<ReplyView>,
) -> StepView {
    if log.len() == 0 {
        StepView::Ask(RequestView::GetRoot { id })
    } else {
        match log[0] {
            ReplyView::Refused { error: _ } => delete_below_next(
                id,
                expected_version,
                None,
                log.skip(1),
            ),
            ReplyView::Text { text } => delete_below_next(
                id,
                expected_version,
                Some(text),
                log.skip(1),
            ),
            _ => StepView::Mismatch,
        }
    }
}

pub open spec fn delete_below_next(
    id: Seq<char>,
    expected_version: i64,
    root: Option<Seq<char>>,
    log: Seq<ReplyView>,
) -> StepView {
    if log.len() == 0 {
        StepView::Ask(RequestView::GetChildren { id })
    } else {
        match log[0] {
            ReplyView::Refused { error } => StepView::Fail(error),
            ReplyView::Nodes { nodes } => delete_children_next(
                id,
                expected_version,
                root,
                nodes,
                log.skip(1),
            ),
            _ => StepView::Mismatch,
        }
    }
}

/// The children go first, each with the version that it has.
pub open spec fn delete_children_next(
    id: Seq<char>,
    expected_version: i64,
    root: Option<Seq<char>>,
    children: Seq<NodeView>,
    log: Seq<ReplyView>,
) -> StepView
    decreases children.len(),
{
    if children.len() == 0 {
        delete_self_next(id, expected_version, root, log)
    } else if log.len() == 0 {
        StepView::Ask(
            RequestView::DeleteNode {
                id: children[0].id,
                expected_version: children[0].version,
            },
        )
    } else {
        match log[0] {
            ReplyView::Refused { error } => StepView::Fail(error),
            ReplyView::Flag { value: _ } => delete_children_next(
                id,
                expected_version,
                root,
                children.skip(1),
                log.skip(1),
            ),
            _ => StepView::Mismatch,
        }
    }
}

pub open spec fn delete_self_next(
    id: Seq<char>,
    expected_version: i64,
    root: Option<Seq<char>>,
    log: Seq<ReplyView>,
) -> StepView {
    if log.len() == 0 {
        StepView::Ask(RequestView::StoreVersionedDelete { id, expected_version })
    } else {
        match log[0] {
            ReplyView::Failed { message } => StepView::Fail(
                ErrorView::QueryFailed("Failed to delete node with version check: "@ + message),
            ),
            ReplyView::Count { value } => if value == 0 {
                delete_conflict_next(id, expected_version, log.skip(1))
            } else {
                delete_queue_next(id, root, log.skip(1))
            },
            _ => StepView::Mismatch,
        }
    }
}

/// Nothing was removed: the node has another version, or someone else removed it.
pub open spec fn delete_conflict_next(
    id: Seq<char>,
    expected_version: i64,
    log: Seq<ReplyView>,
) -> StepView {
    if log.len() == 0 {
        StepView::Ask(RequestView::LoadNode { id })
    } else {
        match log[0] {
            ReplyView::Failed { message } => StepView::Fail(ErrorView::QueryFailed(message)),
            ReplyView::Node { node: None } => deleted(false),
            ReplyView::Node { node: Some(current) } => StepView::Fail(
                ErrorView::VersionConflict {
                    node_id: id,
                    expected_version,
                    actual_version: current.version,
                },
            ),
            _ => StepView::Mismatch,
        }
    }
}

/// The root above a deleted node is queued for embedding, unless the node was the root.
pub open spec fn delete_queue_next(
    id: Seq<char>,
    root: Option<Seq<char>>,
    log: Seq<ReplyView>,
) -> StepView {
    match root {
        Some(root_id) if root_id != id => if log.len() == 0 {
            StepView::Ask(RequestView::QueueRoot { id: root_id })
        } else {
            match log[0] {
                ReplyView::Done => deleted(true),
                _ => StepView::Mismatch,
            }
        },
        _ => deleted(true),
    }
}

impl NodeService {
    /// Deletes a node that has the version the caller saw, and everything below it.
    pub fn delete_node(&self, node_id: &str, expected_version: i64, log: &Vec<Reply>) -> (r: Step)
        ensures
            r@ == delete_next(node_id@, expected_version, replies(log@)),
    {
        if log.len() == 0 {
            return Step::Ask(Request::LoadNode { id: node_id.to_owned() });
        }
        match &log[0] {
            Reply::Failed { message } => {
                return Step::Fail(NodeServiceError::QueryFailed(message.clone()));
            },
            Reply::Node { node: None } => {
                return Step::Finish(Outcome::Deleted { existed: false });
            },
            Reply::Node { node: Some(_) } => {},
            _ => {
                return Step::Mismatch;
            },
        }
        if log.len() == 1 {
            return Step::Ask(Request::GetRoot { id: node_id.to_owned() });
        }
        let root = match &log[1] {
            Reply::Refused { error: _ } => None,
            Reply::Text { text } => Some(text.as_str()),
            _ => {
                return Step::Mismatch;
            },
        };
        if log.len() == 2 {
            return Step::Ask(Request::GetChildren { id: node_id.to_owned() });
        }
        let children = match &log[2] {
            Reply::Refused { error } => {
                return Step::Fail(error.clone());
            },
            Reply::Nodes { nodes } => nodes,
            _ => {
                return Step::Mismatch;
            },
        };
        let ghost want = delete_next(node_id@, expected_version, replies(log@));
        let ghost all = node_views(children@);
        let ghost root_text = crate::hierarchy::optional_str(root);
        proof {
            assert(all.skip(0) =~= all);
        }
        let mut at: usize = 3;
        let mut i: usize = 0;
        while i < children.len()
            invariant
                i <= children@.len() == all.len(),
                at <= log@.len(),
                want == delete_children_next(
                    node_id@,
                    expected_version,
                    root_text,
                    all.skip(i as int),
                    replies_from(log@, at as int),
                ),
            decreases children@.len() - i,
        {
            let ghost left = all.skip(i as int);
            proof {
                assert(left[0] == children@[i as int]@);
                assert(left.skip(1) =~= all.skip(i + 1));
            }
            if at >= log.len() {
                return Step::Ask(
                    Request::DeleteNode {
                        id: children[i].id.clone(),
                        expected_version: children[i].version,
                    },
                );
            }
            match &log[at] {
                Reply::Refused { error } => {
                    return Step::Fail(error.clone());
                },
                Reply::Flag { value: _ } => {},
                _ => {
                    return Step::Mismatch;
                },
            }
            at += 1;
            i += 1;
        }
        NodeService::delete_self(node_id, expected_version, root, log, at)
    }

    fn delete_self(
        id: &str,
        expected_version: i64,
        root: Option<&str>,
        log: &Vec<Reply>,
        from: usize,
    ) -> (r: Step)
        requires
            from <= log@.len(),
        ensures
            r@ == delete_self_next(
                id@,
                expected_version,
                crate::hierarchy::optional_str(root),
                replies_from(log@, from as int),
            ),
    {
        if from >= log.len() {
            return Step::Ask(Request::StoreVersionedDelete { id: id.to_owned(), expected_version });
        }
        match &log[from] {
            Reply::Failed { message } => {
                let mut text = "Failed to delete node with version check: ".to_owned();
                text.append(message.as_str());
                Step::Fail(NodeServiceError::QueryFailed(text))
            },
            Reply::Count { value } => {
                if *value == 0 {
                    if from + 1 >= log.len() {
                        return Step::Ask(Request::LoadNode { id: id.to_owned() });
                    }
                    match &log[from + 1] {
                        Reply::Failed { message } => Step::Fail(
                            NodeServiceError::QueryFailed(message.clone()),
                        ),
                        Reply::Node { node: None } => Step::Finish(Outcome::Deleted { existed: false }),
                        Reply::Node { node: Some(current) } => Step::Fail(
                            NodeServiceError::version_conflict(id, expected_version, current.version),
                        ),
                        _ => Step::Mismatch,
                    }
                } else {
                    let root_id = match root {
                        None => {
                            return Step::Finish(Outcome::Deleted { existed: true });
                        },
                        Some(r) => r,
                    };
                    if same_text(root_id, id) {
                        return Step::Finish(Outcome::Deleted { existed: true });
                    }
                    if from + 1 >= log.len() {
                        return Step::Ask(Request::QueueRoot { id: root_id.to_owned() });
                    }
                    match &log[from + 1] {
                        Reply::Done => Step::Finish(Outcome::Deleted { existed: true }),
                        _ => Step::Mismatch,
                    }
                }
            },
            _ => Step::Mismatch,
        }
    }
}

/// To delete a node that is gone succeeds, touches nothing, and says that it did not exist.
pub proof fn law_delete_is_idempotent(id: Seq<char>, expected_version: i64, log: Seq<ReplyView>)
    requires
        log.len() > 0,
        log[0] == (ReplyView::Node { node: None }),
    ensures
        delete_next(id, expected_version, log) == deleted(false),
{
}

/// A node goes only after all of its children went.
pub proof fn law_children_go_first(
    id: Seq<char>,
    expected_version: i64,
    root: Option<Seq<char>>,
    children: Seq<NodeView>,
    log: Seq<ReplyView>,
)
    requires
        delete_children_next(id, expected_version, root, children, log) matches StepView::Ask(
            RequestView::StoreVersionedDelete { id: _, expected_version: _ },
        ),
    ensures
        delete_children_next(id, expected_version, root, children, log) == StepView::Ask(
            RequestView::StoreVersionedDelete { id, expected_version },
        ),
        log.len() == children.len(),
        forall|i: int| 0 <= i < children.len() ==> (#[trigger] log[i]) is Flag,
    decreases children.len(),
{
    if children.len() > 0 {
        let rest = log.skip(1);
        law_children_go_first(id, expected_version, root, children.skip(1), rest);
        assert forall|i: int| 0 <= i < children.len() implies (#[trigger] log[i]) is Flag by {
            if i > 0 {
                assert(rest[i - 1] == log[i]);
            }
        }
    }
}

} // verus!
