//! Updates of the fields of a task.

use crate::error::{ErrorView, NodeServiceError};
use crate::node::{TaskNodeUpdate, TaskNodeUpdateView};
use crate::protocol::{
    group_replies, replies, Outcome, OutcomeView, Reply, ReplyView, Request, RequestView, Step,
    StepView,
};
use crate::service::NodeService;
use crate::text::{contains_part, text_contains};
use vstd::prelude::*;

verus! {

broadcast use group_replies;

/// What a refused task update means.
pub open spec fn task_error(
    id: Seq<char>,
    expected_version: i64,
    full: Seq<char>,
    root: Seq<char>,
    shown: Seq<char>,
) -> ErrorView {
    if contains_part(full, "VersionMismatch"@) || contains_part(root, "VersionMismatch"@)
        || contains_part(root, "failed transaction"@) {
        ErrorView::VersionConflict { node_id: id, expected_version, actual_version: 0 }
    } else if contains_part(full, "not found"@) || contains_part(full, "Record not found"@)
        || contains_part(full, "$current[0].version"@) || contains_part(root, "not found"@)
        || contains_part(root, "$current"@) {
        ErrorView::NodeNotFound { id }
    } else {
        ErrorView::DatabaseError { context: "Failed to update task node '"@ + id + "': "@ + shown }
    }
}

/// An update of a task: it has to change something, and the store applies it to the version that the
/// caller saw.
pub open spec fn update_task_node_next(
    id: Seq<char>,
    expected_version: i64,
    update: TaskNodeUpdateView,
    log: Seq<ReplyView>,
) -> StepView {
    if update.empty() {
        StepView::Fail(ErrorView::InvalidUpdate("TaskNodeUpdate contains no changes"@))
    } else if log.len() == 0 {
        StepView::Ask(RequestView::StoreTaskUpdate { id, expected_version, update })
    } else {
        match log[0] {
            ReplyView::Json { value } => StepView::Finish(OutcomeView::Json { value }),
            ReplyView::FailedBecause { full, root, shown } => StepView::Fail(
                task_error(id, expected_version, full, root, shown),
            ),
            _ => StepView::Mismatch,
        }
    }
}

impl NodeService {
    /// The error of a task update that the store refused, by the words of its message: `full` is the
    /// whole chain of causes, `root` the first of them, and `shown` what the error displays.
    pub fn task_update_error(
        id: &str,
        expected_version: i64,
        full: &str,
        root: &str,
        shown: &str,
    ) -> (r: NodeServiceError)
        ensures
            r@ == task_error(id@, expected_version, full@, root@, shown@),
    {
        if text_contains(full, "VersionMismatch") || text_contains(root, "VersionMismatch")
            || text_contains(root, "failed transaction") {
            return NodeServiceError::version_conflict(id, expected_version, 0);
        }
        if text_contains(full, "not found") || text_contains(full, "Record not found")
            || text_contains(full, "$current[0].version") || text_contains(root, "not found")
            || text_contains(root, "$current") {
            return NodeServiceError::node_not_found(id);
        }
        let mut context = "Failed to update task node '".to_owned();
        context.append(id);
        context.append("': ");
        context.append(shown);
        NodeServiceError::DatabaseError { context }
    }

    /// Changes the fields of a task, if it still has the version that the caller saw.
    pub fn update_task_node(
        &self,
        id: &str,
        expected_version: i64,
        update: &TaskNodeUpdate,
        log: &Vec<Reply>,
    ) -> (r: Step)
        ensures
            r@ == update_task_node_next(id@, expected_version, update@, replies(log@)),
    {
        if update.is_empty() {
            return Step::Fail(
                NodeServiceError::invalid_update("TaskNodeUpdate contains no changes"),
            );
        }
        if log.len() == 0 {
            return Step::Ask(
                Request::StoreTaskUpdate {
                    id: id.to_owned(),
                    expected_version,
                    update: update.clone(),
                },
            );
        }
        match &log[0] {
            Reply::Json { value } => Step::Finish(Outcome::Json { value: value.clone() }),
            Reply::FailedBecause { full, root, shown } => Step::Fail(
                Self::task_update_error(
                    id,
                    expected_version,
                    full.as_str(),
                    root.as_str(),
                    shown.as_str(),
                ),
            ),
            _ => Step::Mismatch,
        }
    }
}

/// A task update reaches the store unchanged and with the version that the caller saw, and an update
/// without changes never does.
pub proof fn law_task_updates_are_checked(
    id: Seq<char>,
    expected_version: i64,
    update: TaskNodeUpdateView,
    log: Seq<ReplyView>,
)
    ensures
        update_task_node_next(id, expected_version, update, log) matches StepView::Ask(request)
            ==> !update.empty() && request == (RequestView::StoreTaskUpdate {
            id,
            expected_version,
            update,
        }),
        update_task_node_next(id, expected_version, update, log) is Finish ==> !update.empty()
            && log[0] is Json,
{
}

} // verus!
