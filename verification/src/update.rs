//! Updating nodes.

use crate::error::{ErrorView, NodeServiceError};
use crate::node::{
    clone_optional, fields_view, optional_text, Node, NodeUpdate, NodeUpdateView, NodeView,
    SchemaField, SchemaFieldView,
};
use crate::properties::{
    merged_properties, namespace_not_an_object, namespaced, properties_with_defaults,
};
use crate::protocol::{
    group_replies, replies, replies_from, Outcome, OutcomeView, Reply, ReplyView, Request,
    RequestView, Step, StepView,
};
use crate::schema::first_error;
use crate::service::NodeService;
use crate::text::same_text;
use vstd::prelude::*;
use vstd::string::*;

verus! {

broadcast use group_replies;

pub open spec fn no_changes() -> ErrorView {
    ErrorView::InvalidUpdate("Update contains no changes"@)
}

/// A node with an update applied: type and content are replaced, and properties are merged, in
/// storage form unless the node is a schema.
pub open spec fn updated_node(node: NodeView, update: NodeUpdateView) -> NodeView {
    let node_type = match update.node_type {
        Some(t) => t,
        None => node.node_type,
    };
    NodeView {
        node_type,
        content: match update.content {
            Some(c) => c,
            None => node.content,
        },
        properties: match update.properties {
            Some(p) => merged_properties(
                node.properties,
                if node_type == "schema"@ {
                    p
                } else {
                    namespaced(node_type, p, Set::empty())
                },
            ),
            None => node.properties,
        },
        ..node
    }
}

/// The title is computed anew when content, type or properties change, unless the update gives one.
pub open spec fn title_affected(before: NodeView, after: NodeView, update: NodeUpdateView) -> bool {
    update.title is None && (before.content != after.content || before.node_type != after.node_type
        || update.properties is Some)
}

/// The change that is stored.
pub open spec fn stored_update(
    after: NodeView,
    title: Option<Option<Seq<char>>>,
    lifecycle_status: Option<Seq<char>>,
) -> NodeUpdateView {
    NodeUpdateView {
        node_type: Some(after.node_type),
        content: Some(after.content),
        properties: Some(after.properties),
        title,
        lifecycle_status,
    }
}

/// The update of a node without a version.
pub open spec fn update_unchecked_next(
    id: Seq<char>,
    update: NodeUpdateView,
    log: Seq<ReplyView>,
) -> StepView {
    if update.empty() {
        StepView::Fail(no_changes())
    } else if log.len() == 0 {
        StepView::Ask(RequestView::GetNode { id })
    } else {
        match log[0] {
            ReplyView::Refused { error } => StepView::Fail(error),
            ReplyView::Node { node: None } => StepView::Fail(ErrorView::NodeNotFound { id }),
            ReplyView::Node { node: Some(before) } => unchecked_behavior_next(
                id,
                update,
                before,
                updated_node(before, update),
                log.skip(1),
            ),
            _ => StepView::Mismatch,
        }
    }
}

pub open spec fn unchecked_behavior_next(
    id: Seq<char>,
    update: NodeUpdateView,
    before: NodeView,
    after: NodeView,
    log: Seq<ReplyView>,
) -> StepView {
    if log.len() == 0 {
        StepView::Ask(RequestView::ValidateBehavior { node: after })
    } else {
        match log[0] {
            ReplyView::Refused { error } => StepView::Fail(error),
            ReplyView::Done => unchecked_schema_next(id, update, before, after, log.skip(1)),
            _ => StepView::Mismatch,
        }
    }
}

/// The schema of the type checks the node; a node that changes its type first gets the defaults of
/// the new type.
pub open spec fn unchecked_schema_next(
    id: Seq<char>,
    update: NodeUpdateView,
    before: NodeView,
    after: NodeView,
    log: Seq<ReplyView>,
) -> StepView {
    if after.node_type == "schema"@ {
        unchecked_title_next(id, update, before, after, log)
    } else if log.len() == 0 {
        StepView::Ask(RequestView::LoadSchema { node_type: after.node_type })
    } else {
        match log[0] {
            ReplyView::Failed { message } => StepView::Fail(ErrorView::QueryFailed(message)),
            ReplyView::Schema { schema: Some(_), fields: Some(fields) } => match checked_against(
                after,
                fields,
                before.node_type != after.node_type,
            ) {
                Ok(checked) => unchecked_title_next(id, update, before, checked, log.skip(1)),
                Err(error) => StepView::Fail(error),
            },
            ReplyView::Schema { schema: _, fields: _ } => unchecked_title_next(
                id,
                update,
                before,
                after,
                log.skip(1),
            ),
            _ => StepView::Mismatch,
        }
    }
}

/// A node that passes the check of its schema, with defaults filled in if it takes them.
pub open spec fn checked_against(
    node: NodeView,
    fields: Seq<SchemaFieldView>,
    take_defaults: bool,
) -> Result<NodeView, ErrorView> {
    let filled = if take_defaults {
        properties_with_defaults(node.node_type, node.properties, fields)
    } else {
        Some(node.properties)
    };
    match filled {
        None => Err(ErrorView::InvalidUpdate(namespace_not_an_object(node.node_type))),
        Some(properties) => {
            let full = NodeView { properties, ..node };
            match first_error(full, fields) {
                Some(message) => Err(ErrorView::InvalidUpdate(message)),
                None => Ok(full),
            }
        },
    }
}

pub open spec fn unchecked_title_next(
    id: Seq<char>,
    update: NodeUpdateView,
    before: NodeView,
    after: NodeView,
    log: Seq<ReplyView>,
) -> StepView {
    if !title_affected(before, after, update) {
        unchecked_store_next(id, update, before, after, update.title, log)
    } else if log.len() == 0 {
        StepView::Ask(RequestView::ComputeTitle { node: after, is_root: None })
    } else {
        match log[0] {
            ReplyView::Refused { error } => StepView::Fail(error),
            ReplyView::MaybeText { text } => unchecked_store_next(
                id,
                update,
                before,
                after,
                Some(text),
                log.skip(1),
            ),
            _ => StepView::Mismatch,
        }
    }
}

pub open spec fn unchecked_store_next(
    id: Seq<char>,
    update: NodeUpdateView,
    before: NodeView,
    after: NodeView,
    title: Option<Option<Seq<char>>>,
    log: Seq<ReplyView>,
) -> StepView {
    if log.len() == 0 {
        let change = stored_update(after, title, update.lifecycle_status);
        StepView::Ask(
            if after.node_type == "schema"@ {
                RequestView::StoreSchemaUpdate { id, update: change }
            } else {
                RequestView::StoreUpdate { id, update: change }
            },
        )
    } else {
        match log[0] {
            ReplyView::Refused { error } => StepView::Fail(error),
            ReplyView::Failed { message } => StepView::Fail(ErrorView::QueryFailed(message)),
            ReplyView::Done => mentions_follow_next(
                id,
                before,
                after,
                OutcomeView::Nothing,
                log.skip(1),
            ),
            _ => StepView::Mismatch,
        }
    }
}

/// When the content changed, the mentions follow. That this fails does not matter.
pub open spec fn mentions_follow_next(
    id: Seq<char>,
    before: NodeView,
    after: NodeView,
    outcome: OutcomeView,
    log: Seq<ReplyView>,
) -> StepView {
    if before.content == after.content {
        StepView::Finish(outcome)
    } else if log.len() == 0 {
        StepView::Ask(
            RequestView::SyncMentions {
                id,
                old_content: before.content,
                new_content: after.content,
            },
        )
    } else {
        match log[0] {
            ReplyView::Done | ReplyView::Refused { error: _ } => StepView::Finish(outcome),
            _ => StepView::Mismatch,
        }
    }
}

/// The update of a node that has the version. A conflict is no failure here: there is then no node.
pub open spec fn update_versioned_next(
    id: Seq<char>,
    expected_version: i64,
    update: NodeUpdateView,
    log: Seq<ReplyView>,
) -> StepView {
    if update.empty() {
        StepView::Fail(no_changes())
    } else if log.len() == 0 {
        StepView::Ask(RequestView::GetNode { id })
    } else {
        match log[0] {
            ReplyView::Refused { error } => StepView::Fail(error),
            ReplyView::Node { node: None } => StepView::Fail(ErrorView::NodeNotFound { id }),
            ReplyView::Node { node: Some(before) } => versioned_behavior_next(
                id,
                expected_version,
                update,
                before,
                updated_node(before, update),
                log.skip(1),
            ),
            _ => StepView::Mismatch,
        }
    }
}

pub open spec fn versioned_behavior_next(
    id: Seq<char>,
    expected_version: i64,
    update: NodeUpdateView,
    before: NodeView,
    after: NodeView,
    log: Seq<ReplyView>,
) -> StepView {
    if log.len() == 0 {
        StepView::Ask(RequestView::ValidateBehavior { node: after })
    } else {
        match log[0] {
            ReplyView::Refused { error } => StepView::Fail(error),
            ReplyView::Done => versioned_schema_next(
                id,
                expected_version,
                update,
                before,
                after,
                log.skip(1),
            ),
            _ => StepView::Mismatch,
        }
    }
}

/// Of all types only tasks have a schema with fields, so only they are checked against it.
pub open spec fn versioned_schema_next(
    id: Seq<char>,
    expected_version: i64,
    update: NodeUpdateView,
    before: NodeView,
    after: NodeView,
    log: Seq<ReplyView>,
) -> StepView {
    if after.node_type != "task"@ {
        versioned_playbook_next(id, expected_version, update, before, after, log)
    } else if log.len() == 0 {
        StepView::Ask(RequestView::LoadSchema { node_type: after.node_type })
    } else {
        match log[0] {
            ReplyView::Failed { message } => StepView::Fail(ErrorView::QueryFailed(message)),
            ReplyView::Schema { schema: Some(_), fields: Some(fields) } => match first_error(
                after,
                fields,
            ) {
                Some(message) => StepView::Fail(ErrorView::InvalidUpdate(message)),
                None => versioned_playbook_next(
                    id,
                    expected_version,
                    update,
                    before,
                    after,
                    log.skip(1),
                ),
            },
            ReplyView::Schema { schema: _, fields: _ } => versioned_playbook_next(
                id,
                expected_version,
                update,
                before,
                after,
                log.skip(1),
            ),
            _ => StepView::Mismatch,
        }
    }
}

pub open spec fn versioned_playbook_next(
    id: Seq<char>,
    expected_version: i64,
    update: NodeUpdateView,
    before: NodeView,
    after: NodeView,
    log: Seq<ReplyView>,
) -> StepView {
    if !(after.node_type == "playbook"@ && update.properties is Some) {
        versioned_title_next(id, expected_version, update, before, after, log)
    } else if log.len() == 0 {
        StepView::Ask(RequestView::ValidatePlaybook { properties: after.properties })
    } else {
        match log[0] {
            ReplyView::Refused { error } => StepView::Fail(error),
            ReplyView::Done => versioned_title_next(
                id,
                expected_version,
                update,
                before,
                after,
                log.skip(1),
            ),
            _ => StepView::Mismatch,
        }
    }
}

pub open spec fn versioned_title_next(
    id: Seq<char>,
    expected_version: i64,
    update: NodeUpdateView,
    before: NodeView,
    after: NodeView,
    log: Seq<ReplyView>,
) -> StepView {
    if !title_affected(before, after, update) {
        versioned_store_next(id, expected_version, update, before, after, update.title, log)
    } else if log.len() == 0 {
        StepView::Ask(RequestView::ComputeTitle { node: after, is_root: None })
    } else {
        match log[0] {
            ReplyView::Refused { error } => StepView::Fail(error),
            ReplyView::MaybeText { text } => versioned_store_next(
                id,
                expected_version,
                update,
                before,
                after,
                Some(text),
                log.skip(1),
            ),
            _ => StepView::Mismatch,
        }
    }
}

pub open spec fn versioned_store_next(
    id: Seq<char>,
    expected_version: i64,
    update: NodeUpdateView,
    before: NodeView,
    after: NodeView,
    title: Option<Option<Seq<char>>>,
    log: Seq<ReplyView>,
) -> StepView {
    if log.len() == 0 {
        StepView::Ask(
            RequestView::StoreVersionedUpdate {
                id,
                expected_version,
                update: stored_update(after, title, update.lifecycle_status),
            },
        )
    } else {
        match log[0] {
            ReplyView::Failed { message } => StepView::Fail(ErrorView::QueryFailed(message)),
            ReplyView::Node { node: None } => StepView::Finish(OutcomeView::MaybeNode { node: None }),
            ReplyView::Node { node: Some(stored) } => versioned_queue_next(
                id,
                before,
                after,
                stored,
                log.skip(1),
            ),
            _ => StepView::Mismatch,
        }
    }
}

pub open spec fn versioned_queue_next(
    id: Seq<char>,
    before: NodeView,
    after: NodeView,
    stored: NodeView,
    log: Seq<ReplyView>,
) -> StepView {
    let outcome = OutcomeView::MaybeNode { node: Some(stored) };
    if before.content == after.content {
        StepView::Finish(outcome)
    } else if log.len() == 0 {
        StepView::Ask(RequestView::QueueRootInBackground { id })
    } else {
        match log[0] {
            ReplyView::Done => mentions_follow_next(id, before, after, outcome, log.skip(1)),
            _ => StepView::Mismatch,
        }
    }
}

/// The update that callers use: a conflict is an error that names both versions.
pub open spec fn update_next(
    id: Seq<char>,
    expected_version: i64,
    update: NodeUpdateView,
    log: Seq<ReplyView>,
) -> StepView {
    if update.empty() {
        StepView::Fail(no_changes())
    } else if log.len() == 0 {
        StepView::Ask(RequestView::VersionedUpdate { id, expected_version, update })
    } else {
        match log[0] {
            ReplyView::Refused { error } => StepView::Fail(error),
            ReplyView::Node { node: Some(node) } => StepView::Finish(OutcomeView::Node { node }),
            ReplyView::Node { node: None } => update_conflict_next(id, expected_version, log.skip(1)),
            _ => StepView::Mismatch,
        }
    }
}

pub open spec fn update_conflict_next(
    id: Seq<char>,
    expected_version: i64,
    log: Seq<ReplyView>,
) -> StepView {
    if log.len() == 0 {
        StepView::Ask(RequestView::LoadNode { id })
    } else {
        match log[0] {
            ReplyView::Failed { message } => StepView::Fail(ErrorView::QueryFailed(message)),
            ReplyView::Node { node } => StepView::Fail(
                ErrorView::VersionConflict {
                    node_id: id,
                    expected_version,
                    actual_version: match node {
                        Some(n) => n.version,
                        None => 0,
                    },
                },
            ),
            _ => StepView::Mismatch,
        }
    }
}

/// Applies an update to a node.
pub fn apply_update(node: &Node, update: &NodeUpdate) -> (r: Node)
    ensures
        r@ == updated_node(node@, update@),
{
    let mut out = node.clone();
    if let Some(node_type) = &update.node_type {
        out.node_type = node_type.clone();
    }
    if let Some(content) = &update.content {
        out.content = content.clone();
    }
    if let Some(properties) = &update.properties {
        let mut merged = out.properties.clone();
        let new = if same_text(out.node_type.as_str(), "schema") {
            properties.clone()
        } else {
            NodeService::normalize_flat_properties_to_namespace(
                out.node_type.as_str(),
                properties,
                None,
            )
        };
        NodeService::deep_merge_namespaced_properties(&mut merged, new);
        out.properties = merged;
    }
    out
}

fn affects_title(before: &Node, after: &Node, update: &NodeUpdate) -> (r: bool)
    ensures
        r == title_affected(before@, after@, update@),
{
    update.title.is_none() && (!same_text(before.content.as_str(), after.content.as_str())
        || !same_text(before.node_type.as_str(), after.node_type.as_str())
        || update.properties.is_some())
}

fn make_stored_update(after: &Node, title: Option<Option<String>>, lifecycle_status: Option<String>) -> (r:
    NodeUpdate)
    ensures
        r@ == stored_update(
            after@,
            match title {
                Some(t) => Some(optional_text(t)),
                None => None,
            },
            optional_text(lifecycle_status),
        ),
{
    NodeUpdate {
        node_type: Some(after.node_type.clone()),
        content: Some(after.content.clone()),
        properties: Some(after.properties.clone()),
        title,
        lifecycle_status,
    }
}

pub open spec fn optional_title(title: Option<Option<String>>) -> Option<Option<Seq<char>>> {
    match title {
        Some(t) => Some(optional_text(t)),
        None => None,
    }
}

fn clone_title(title: &Option<Option<String>>) -> (r: Option<Option<String>>)
    ensures
        optional_title(r) == optional_title(*title),
{
    match title {
        Some(t) => Some(clone_optional(t)),
        None => None,
    }
}

impl NodeService {
    /// Updates a node without a look at its version.
    pub fn update_node_unchecked(&self, id: &str, update: &NodeUpdate, log: &Vec<Reply>) -> (r: Step)
        ensures
            r@ == update_unchecked_next(id@, update@, replies(log@)),
    {
        if update.is_empty() {
            return Step::Fail(NodeServiceError::invalid_update("Update contains no changes"));
        }
        if log.len() == 0 {
            return Step::Ask(Request::GetNode { id: id.to_owned() });
        }
        let before = match &log[0] {
            Reply::Refused { error } => {
                return Step::Fail(error.clone());
            },
            Reply::Node { node: None } => {
                return Step::Fail(NodeServiceError::node_not_found(id));
            },
            Reply::Node { node: Some(node) } => node,
            _ => {
                return Step::Mismatch;
            },
        };
        let after = apply_update(before, update);
        if log.len() == 1 {
            return Step::Ask(Request::ValidateBehavior { node: after });
        }
        match &log[1] {
            Reply::Refused { error } => {
                return Step::Fail(error.clone());
            },
            Reply::Done => {},
            _ => {
                return Step::Mismatch;
            },
        }
        if same_text(after.node_type.as_str(), "schema") {
            return NodeService::unchecked_title(id, update, before, after, log, 2);
        }
        if log.len() == 2 {
            return Step::Ask(Request::LoadSchema { node_type: after.node_type });
        }
        match &log[2] {
            Reply::Failed { message } => Step::Fail(NodeServiceError::QueryFailed(message.clone())),
            Reply::Schema { schema: Some(_), fields: Some(fields) } => {
                let changed = !same_text(before.node_type.as_str(), after.node_type.as_str());
                match self.check_against(after, fields, changed) {
                    Ok(checked) => NodeService::unchecked_title(id, update, before, checked, log, 3),
                    Err(e) => Step::Fail(e),
                }
            },
            Reply::Schema { schema: _, fields: _ } => NodeService::unchecked_title(
                id,
                update,
                before,
                after,
                log,
                3,
            ),
            _ => Step::Mismatch,
        }
    }

    fn check_against(&self, node: Node, fields: &Vec<SchemaField>, take_defaults: bool) -> (r: Result<
        Node,
        NodeServiceError,
    >)
        ensures
            match checked_against(node@, fields_view(fields@), take_defaults) {
                Ok(checked) => r matches Ok(n) && n@ == checked,
                Err(error) => r matches Err(e) && e@ == error,
            },
    {
        let mut out = node;
        if take_defaults {
            match self.apply_schema_defaults_with_fields(&mut out, fields) {
                Err(e) => {
                    return Err(e);
                },
                Ok(()) => {},
            }
        }
        match self.validate_node_with_fields(&out, fields) {
            Err(e) => Err(e),
            Ok(()) => Ok(out),
        }
    }

    fn unchecked_title(
        id: &str,
        update: &NodeUpdate,
        before: &Node,
        after: Node,
        log: &Vec<Reply>,
        from: usize,
    ) -> (r: Step)
        requires
            from <= log@.len(),
        ensures
            r@ == unchecked_title_next(
                id@,
                update@,
                before@,
                after@,
                replies_from(log@, from as int),
            ),
    {
        if !affects_title(before, &after, update) {
            return NodeService::unchecked_store(
                id,
                update,
                before,
                &after,
                clone_title(&update.title),
                log,
                from,
            );
        }
        if from >= log.len() {
            return Step::Ask(Request::ComputeTitle { node: after, is_root: None });
        }
        match &log[from] {
            Reply::Refused { error } => Step::Fail(error.clone()),
            Reply::MaybeText { text } => NodeService::unchecked_store(
                id,
                update,
                before,
                &after,
                Some(clone_optional(text)),
                log,
                from + 1,
            ),
            _ => Step::Mismatch,
        }
    }

    fn unchecked_store(
        id: &str,
        update: &NodeUpdate,
        before: &Node,
        after: &Node,
        title: Option<Option<String>>,
        log: &Vec<Reply>,
        from: usize,
    ) -> (r: Step)
        requires
            from <= log@.len(),
        ensures
            r@ == unchecked_store_next(
                id@,
                update@,
                before@,
                after@,
                optional_title(title),
                replies_from(log@, from as int),
            ),
    {
        if from >= log.len() {
            let change = make_stored_update(after, title, clone_optional(&update.lifecycle_status));
            return Step::Ask(
                if same_text(after.node_type.as_str(), "schema") {
                    Request::StoreSchemaUpdate { id: id.to_owned(), update: change }
                } else {
                    Request::StoreUpdate { id: id.to_owned(), update: change }
                },
            );
        }
        match &log[from] {
            Reply::Refused { error } => Step::Fail(error.clone()),
            Reply::Failed { message } => Step::Fail(NodeServiceError::QueryFailed(message.clone())),
            Reply::Done => NodeService::mentions_follow(
                id,
                before,
                after,
                Outcome::Nothing,
                log,
                from + 1,
            ),
            _ => Step::Mismatch,
        }
    }

    fn mentions_follow(
        id: &str,
        before: &Node,
        after: &Node,
        outcome: Outcome,
        log: &Vec<Reply>,
        from: usize,
    ) -> (r: Step)
        requires
            from <= log@.len(),
        ensures
            r@ == mentions_follow_next(
                id@,
                before@,
                after@,
                outcome@,
                replies_from(log@, from as int),
            ),
    {
        if same_text(before.content.as_str(), after.content.as_str()) {
            return Step::Finish(outcome);
        }
        if from >= log.len() {
            return Step::Ask(
                Request::SyncMentions {
                    id: id.to_owned(),
                    old_content: before.content.clone(),
                    new_content: after.content.clone(),
                },
            );
        }
        match &log[from] {
            Reply::Done => Step::Finish(outcome),
            Reply::Refused { error: _ } => Step::Finish(outcome),
            _ => Step::Mismatch,
        }
    }

    /// Updates a node that has the version the caller saw. If it has another, nothing is stored and
    /// there is no node in the outcome.
    pub fn update_with_version_check_returning_node(
        &self,
        id: &str,
        expected_version: i64,
        update: &NodeUpdate,
        log: &Vec<Reply>,
    ) -> (r: Step)
        ensures
            r@ == update_versioned_next(id@, expected_version, update@, replies(log@)),
    {
        if update.is_empty() {
            return Step::Fail(NodeServiceError::invalid_update("Update contains no changes"));
        }
        if log.len() == 0 {
            return Step::Ask(Request::GetNode { id: id.to_owned() });
        }
        let before = match &log[0] {
            Reply::Refused { error } => {
                return Step::Fail(error.clone());
            },
            Reply::Node { node: None } => {
                return Step::Fail(NodeServiceError::node_not_found(id));
            },
            Reply::Node { node: Some(node) } => node,
            _ => {
                return Step::Mismatch;
            },
        };
        let after = apply_update(before, update);
        if log.len() == 1 {
            return Step::Ask(Request::ValidateBehavior { node: after });
        }
        match &log[1] {
            Reply::Refused { error } => {
                return Step::Fail(error.clone());
            },
            Reply::Done => {},
            _ => {
                return Step::Mismatch;
            },
        }
        if !same_text(after.node_type.as_str(), "task") {
            return NodeService::versioned_playbook(id, expected_version, update, before, after, log, 2);
        }
        if log.len() == 2 {
            return Step::Ask(Request::LoadSchema { node_type: after.node_type });
        }
        match &log[2] {
            Reply::Failed { message } => Step::Fail(NodeServiceError::QueryFailed(message.clone())),
            Reply::Schema { schema: Some(_), fields: Some(fields) } => {
                match self.validate_node_with_fields(&after, fields) {
                    Err(e) => Step::Fail(e),
                    Ok(()) => NodeService::versioned_playbook(
                        id,
                        expected_version,
                        update,
                        before,
                        after,
                        log,
                        3,
                    ),
                }
            },
            Reply::Schema { schema: _, fields: _ } => NodeService::versioned_playbook(
                id,
                expected_version,
                update,
                before,
                after,
                log,
                3,
            ),
            _ => Step::Mismatch,
        }
    }

    fn versioned_playbook(
        id: &str,
        expected_version: i64,
        update: &NodeUpdate,
        before: &Node,
        after: Node,
        log: &Vec<Reply>,
        from: usize,
    ) -> (r: Step)
        requires
            from <= log@.len(),
        ensures
            r@ == versioned_playbook_next(
                id@,
                expected_version,
                update@,
                before@,
                after@,
                replies_from(log@, from as int),
            ),
    {
        if !(same_text(after.node_type.as_str(), "playbook") && update.properties.is_some()) {
            return NodeService::versioned_title(
                id,
                expected_version,
                update,
                before,
                after,
                log,
                from,
            );
        }
        if from >= log.len() {
            return Step::Ask(Request::ValidatePlaybook { properties: after.properties });
        }
        match &log[from] {
            Reply::Refused { error } => Step::Fail(error.clone()),
            Reply::Done => NodeService::versioned_title(
                id,
                expected_version,
                update,
                before,
                after,
                log,
                from + 1,
            ),
            _ => Step::Mismatch,
        }
    }

    fn versioned_title(
        id: &str,
        expected_version: i64,
        update: &NodeUpdate,
        before: &Node,
        after: Node,
        log: &Vec<Reply>,
        from: usize,
    ) -> (r: Step)
        requires
            from <= log@.len(),
        ensures
            r@ == versioned_title_next(
                id@,
                expected_version,
                update@,
                before@,
                after@,
                replies_from(log@, from as int),
            ),
    {
        if !affects_title(before, &after, update) {
            return NodeService::versioned_store(
                id,
                expected_version,
                update,
                before,
                &after,
                clone_title(&update.title),
                log,
                from,
            );
        }
        if from >= log.len() {
            return Step::Ask(Request::ComputeTitle { node: after, is_root: None });
        }
        match &log[from] {
            Reply::Refused { error } => Step::Fail(error.clone()),
            Reply::MaybeText { text } => NodeService::versioned_store(
                id,
                expected_version,
                update,
                before,
                &after,
                Some(clone_optional(text)),
                log,
                from + 1,
            ),
            _ => Step::Mismatch,
        }
    }

    fn versioned_store(
        id: &str,
        expected_version: i64,
        update: &NodeUpdate,
        before: &Node,
        after: &Node,
        title: Option<Option<String>>,
        log: &Vec<Reply>,
        from: usize,
    ) -> (r: Step)
        requires
            from <= log@.len(),
        ensures
            r@ == versioned_store_next(
                id@,
                expected_version,
                update@,
                before@,
                after@,
                optional_title(title),
                replies_from(log@, from as int),
            ),
    {
        if from >= log.len() {
            let change = make_stored_update(after, title, clone_optional(&update.lifecycle_status));
            return Step::Ask(
                Request::StoreVersionedUpdate { id: id.to_owned(), expected_version, update: change },
            );
        }
        let stored = match &log[from] {
            Reply::Failed { message } => {
                return Step::Fail(NodeServiceError::QueryFailed(message.clone()));
            },
            Reply::Node { node: None } => {
                return Step::Finish(Outcome::MaybeNode { node: None });
            },
            Reply::Node { node: Some(stored) } => stored,
            _ => {
                return Step::Mismatch;
            },
        };
        let outcome = Outcome::MaybeNode { node: Some(stored.clone()) };
        if same_text(before.content.as_str(), after.content.as_str()) {
            return Step::Finish(outcome);
        }
        if from + 1 >= log.len() {
            return Step::Ask(Request::QueueRootInBackground { id: id.to_owned() });
        }
        match &log[from + 1] {
            Reply::Done => NodeService::mentions_follow(id, before, after, outcome, log, from + 2),
            _ => Step::Mismatch,
        }
    }

    /// Updates a node that has the version the caller saw, and fails if it has another.
    pub fn update_node(
        &self,
        node_id: &str,
        expected_version: i64,
        update: &NodeUpdate,
        log: &Vec<Reply>,
    ) -> (r: Step)
        ensures
            r@ == update_next(node_id@, expected_version, update@, replies(log@)),
    {
        if update.is_empty() {
            return Step::Fail(NodeServiceError::invalid_update("Update contains no changes"));
        }
        if log.len() == 0 {
            return Step::Ask(
                Request::VersionedUpdate {
                    id: node_id.to_owned(),
                    expected_version,
                    update: update.clone(),
                },
            );
        }
        match &log[0] {
            Reply::Refused { error } => {
                return Step::Fail(error.clone());
            },
            Reply::Node { node: Some(node) } => {
                return Step::Finish(Outcome::Node { node: node.clone() });
            },
            Reply::Node { node: None } => {},
            _ => {
                return Step::Mismatch;
            },
        }
        if log.len() == 1 {
            return Step::Ask(Request::LoadNode { id: node_id.to_owned() });
        }
        match &log[1] {
            Reply::Failed { message } => Step::Fail(NodeServiceError::QueryFailed(message.clone())),
            Reply::Node { node } => {
                let actual = match node {
                    Some(n) => n.version,
                    None => 0,
                };
                Step::Fail(NodeServiceError::version_conflict(node_id, expected_version, actual))
            },
            _ => Step::Mismatch,
        }
    }
}

/// A change of type keeps the properties that the node had under its other types: what the new
/// properties do not name stays.
pub proof fn law_type_change_keeps_other_namespaces(
    node: NodeView,
    update: NodeUpdateView,
    ns: Seq<char>,
)
    requires
        node.properties is Object,
        update.properties matches Some(p) ==> p is Object,
        update.properties matches Some(p) ==> (updated_node(node, update).node_type == "schema"@
            ==> p.member(ns) is None) && (updated_node(node, update).node_type != "schema"@
            ==> namespaced(updated_node(node, update).node_type, p, Set::empty()).member(ns) is None),
    ensures
        updated_node(node, update).properties.member(ns) == node.properties.member(ns),
{
}

/// An update changes neither the identifier nor the version nor the times of a node; those are the
/// store's.
pub proof fn law_updates_keep_identity(node: NodeView, update: NodeUpdateView)
    ensures
        updated_node(node, update).id == node.id,
        updated_node(node, update).version == node.version,
        updated_node(node, update).created_at == node.created_at,
{
}

/// What an update gives is what is stored: type and content, a title, and a status.
pub proof fn law_given_fields_are_stored(
    id: Seq<char>,
    expected_version: i64,
    update: NodeUpdateView,
    log: Seq<ReplyView>,
    change: NodeUpdateView,
)
    requires
        ({
            ||| update_unchecked_next(id, update, log) == StepView::Ask(
                RequestView::StoreUpdate { id, update: change },
            )
            ||| update_unchecked_next(id, update, log) == StepView::Ask(
                RequestView::StoreSchemaUpdate { id, update: change },
            )
            ||| update_versioned_next(id, expected_version, update, log) == StepView::Ask(
                RequestView::StoreVersionedUpdate { id, expected_version, update: change },
            )
        }),
    ensures
        update.node_type is Some ==> change.node_type == update.node_type,
        update.content is Some ==> change.content == update.content,
        update.title is Some ==> change.title == update.title,
        change.lifecycle_status == update.lifecycle_status,
{
}

/// A versioned update is stored only with the version that the caller saw, and only after the
/// behavior of the type accepted the result.
pub proof fn law_versioned_updates_are_checked(
    id: Seq<char>,
    expected_version: i64,
    update: NodeUpdateView,
    log: Seq<ReplyView>,
)
    requires
        update_versioned_next(id, expected_version, update, log) matches StepView::Ask(
            RequestView::StoreVersionedUpdate { id: _, expected_version: _, update: _ },
        ),
    ensures
        update_versioned_next(id, expected_version, update, log) matches StepView::Ask(
            RequestView::StoreVersionedUpdate { id: i, expected_version: v, update: u },
        ) && i == id && v == expected_version && u.lifecycle_status == update.lifecycle_status,
        log[0] matches ReplyView::Node { node: Some(_) },
        log[1] == ReplyView::Done,
{
}

/// A conflict is reported with the version that the node has, and nothing was stored.
pub proof fn law_conflicts_name_the_versions(
    id: Seq<char>,
    expected_version: i64,
    update: NodeUpdateView,
    current: NodeView,
)
    requires
        !update.empty(),
    ensures
        update_next(
            id,
            expected_version,
            update,
            seq![
                ReplyView::Node { node: None },
                ReplyView::Node { node: Some(current) },
            ],
        ) == StepView::Fail(
            ErrorView::VersionConflict {
                node_id: id,
                expected_version,
                actual_version: current.version,
            },
        ),
{
    let log = seq![ReplyView::Node { node: None }, ReplyView::Node { node: Some(current) }];
    assert(log.skip(1)[0] == (ReplyView::Node { node: Some(current) }));
}

} // verus!
