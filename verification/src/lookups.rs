//! Operations that ask the store one question.

use crate::bulk::schema_error;
use crate::error::{ErrorView, NodeServiceError};
use crate::json::Value;
use crate::node::{
    clone_nodes, clone_references, clone_texts, optional_json, optional_node, texts, Node, NodeView,
};
use crate::protocol::{
    group_replies, replies, Outcome, OutcomeView, Reply, ReplyView, Request, RequestView, Step,
    StepView,
};
use crate::schema_list::{by_id, sort_by_id};
use crate::service::NodeService;
use vstd::prelude::*;
use vstd::string::*;

verus! {

broadcast use group_replies;

/// A limit as the store takes it. One beyond the range of signed numbers wraps around.
pub open spec fn signed_limit(limit: Option<usize>) -> Option<i64> {
    match limit {
        Some(n) => Some(n as i64),
        None => None,
    }
}

fn to_signed(limit: Option<usize>) -> (r: Option<i64>)
    ensures
        r == signed_limit(limit),
{
    match limit {
        Some(n) => Some(
            #[verifier::truncate]
            (n as i64),
        ),
        None => None,
    }
}

fn clone_optional_node(node: &Option<Node>) -> (r: Option<Node>)
    ensures
        optional_node(r) == optional_node(*node),
{
    match node {
        Some(n) => Some(n.clone()),
        None => None,
    }
}

fn clone_optional_value(value: &Option<Value>) -> (r: Option<Value>)
    ensures
        optional_json(r) == optional_json(*value),
{
    match value {
        Some(v) => Some(v.clone()),
        None => None,
    }
}

/// The children of a node, in order.
pub open spec fn get_children_next(parent_id: Seq<char>, log: Seq<ReplyView>) -> StepView {
    if log.len() == 0 {
        StepView::Ask(RequestView::LoadChildren { id: parent_id })
    } else {
        match log[0] {
            ReplyView::Failed { message } => StepView::Fail(ErrorView::QueryFailed(message)),
            ReplyView::Nodes { nodes } => StepView::Finish(OutcomeView::Nodes { nodes }),
            _ => StepView::Mismatch,
        }
    }
}

/// The nodes without a parent.
pub open spec fn get_roots_next(limit: Option<usize>, offset: Option<usize>, log: Seq<ReplyView>) -> StepView {
    if log.len() == 0 {
        StepView::Ask(RequestView::LoadRoots { limit, offset })
    } else {
        match log[0] {
            ReplyView::Failed { message } => StepView::Fail(ErrorView::QueryFailed(message)),
            ReplyView::Nodes { nodes } => StepView::Finish(OutcomeView::Nodes { nodes }),
            _ => StepView::Mismatch,
        }
    }
}

/// All nodes below a node.
pub open spec fn get_descendants_next(root_id: Seq<char>, log: Seq<ReplyView>) -> StepView {
    if log.len() == 0 {
        StepView::Ask(RequestView::LoadDescendants { id: root_id })
    } else {
        match log[0] {
            ReplyView::Failed { message } => StepView::Fail(ErrorView::QueryFailed(message)),
            ReplyView::Nodes { nodes } => StepView::Finish(OutcomeView::Nodes { nodes }),
            _ => StepView::Mismatch,
        }
    }
}

/// All nodes that belong to a root.
pub open spec fn get_nodes_by_root_id_next(root_node_id: Seq<char>, log: Seq<ReplyView>) -> StepView {
    if log.len() == 0 {
        StepView::Ask(RequestView::LoadDescendants { id: root_node_id })
    } else {
        match log[0] {
            ReplyView::Failed { message } => StepView::Fail(ErrorView::QueryFailed(message)),
            ReplyView::Nodes { nodes } => StepView::Finish(OutcomeView::Nodes { nodes }),
            _ => StepView::Mismatch,
        }
    }
}

/// The parent of a node, if it has one.
pub open spec fn get_parent_next(node_id: Seq<char>, log: Seq<ReplyView>) -> StepView {
    if log.len() == 0 {
        StepView::Ask(RequestView::LoadParent { id: node_id })
    } else {
        match log[0] {
            ReplyView::Failed { message } => StepView::Fail(ErrorView::QueryFailed(message)),
            ReplyView::Node { node } => StepView::Finish(OutcomeView::MaybeNode { node }),
            _ => StepView::Mismatch,
        }
    }
}

/// The nodes that can be mentioned and match a text.
pub open spec fn mention_autocomplete_next(query: Seq<char>, limit: Option<usize>, log: Seq<ReplyView>) -> StepView {
    if log.len() == 0 {
        StepView::Ask(RequestView::SearchMentionable { query, limit: signed_limit(limit) })
    } else {
        match log[0] {
            ReplyView::Failed { message } => StepView::Fail(ErrorView::QueryFailed(message)),
            ReplyView::Nodes { nodes } => StepView::Finish(OutcomeView::Nodes { nodes }),
            _ => StepView::Mismatch,
        }
    }
}

/// The removal of a node, whatever its version. That there is none is an error.
pub open spec fn delete_node_unchecked_next(id: Seq<char>, log: Seq<ReplyView>) -> StepView {
    if log.len() == 0 {
        StepView::Ask(RequestView::StoreDelete { id })
    } else {
        match log[0] {
            ReplyView::Failed { message } => StepView::Fail(
                ErrorView::DatabaseError { context: "Database operation failed: "@ + message },
            ),
            ReplyView::Flag { value: true } => StepView::Finish(
                OutcomeView::Deleted { existed: true },
            ),
            ReplyView::Flag { value: false } => StepView::Fail(ErrorView::NodeNotFound { id }),
            _ => StepView::Mismatch,
        }
    }
}

/// The removal of a node that has the version. The outcome is the number of nodes that were removed.
pub open spec fn delete_with_version_check_next(id: Seq<char>, expected_version: i64, log: Seq<ReplyView>) -> StepView {
    if log.len() == 0 {
        StepView::Ask(RequestView::StoreVersionedDelete { id, expected_version })
    } else {
        match log[0] {
            ReplyView::Failed { message } => StepView::Fail(
                ErrorView::QueryFailed("Failed to delete node with version check: "@ + message),
            ),
            ReplyView::Count { value } => StepView::Finish(OutcomeView::Count { count: value }),
            _ => StepView::Mismatch,
        }
    }
}

/// The schema of a type, if there is one.
pub open spec fn get_schema_for_type_next(node_type: Seq<char>, log: Seq<ReplyView>) -> StepView {
    if log.len() == 0 {
        StepView::Ask(RequestView::LoadSchema { node_type })
    } else {
        match log[0] {
            ReplyView::Failed { message } => StepView::Fail(ErrorView::QueryFailed(message)),
            ReplyView::Schema { schema, fields: _ } => StepView::Finish(
                OutcomeView::MaybeJson { value: schema },
            ),
            _ => StepView::Mismatch,
        }
    }
}

/// The identifiers of the nodes that a node mentions.
pub open spec fn get_mentions_next(node_id: Seq<char>, log: Seq<ReplyView>) -> StepView {
    if log.len() == 0 {
        StepView::Ask(RequestView::LoadMentions { id: node_id })
    } else {
        match log[0] {
            ReplyView::Failed { message } => StepView::Fail(ErrorView::QueryFailed(message)),
            ReplyView::Texts { items } => StepView::Finish(OutcomeView::Ids { ids: items }),
            _ => StepView::Mismatch,
        }
    }
}

/// The identifiers of the nodes that mention a node.
pub open spec fn get_mentioned_by_next(node_id: Seq<char>, log: Seq<ReplyView>) -> StepView {
    if log.len() == 0 {
        StepView::Ask(RequestView::LoadMentionedBy { id: node_id })
    } else {
        match log[0] {
            ReplyView::Failed { message } => StepView::Fail(ErrorView::QueryFailed(message)),
            ReplyView::Texts { items } => StepView::Finish(OutcomeView::Ids { ids: items }),
            _ => StepView::Mismatch,
        }
    }
}

/// The containers from which a node is mentioned.
pub open spec fn get_mentioning_containers_next(node_id: Seq<char>, log: Seq<ReplyView>) -> StepView {
    if log.len() == 0 {
        StepView::Ask(RequestView::LoadMentionContainers { id: node_id })
    } else {
        match log[0] {
            ReplyView::Failed { message } => StepView::Fail(ErrorView::QueryFailed(message)),
            ReplyView::References { items } => StepView::Finish(OutcomeView::References { items }),
            _ => StepView::Mismatch,
        }
    }
}

/// A task with its fields, if it exists.
pub open spec fn get_task_node_next(id: Seq<char>, log: Seq<ReplyView>) -> StepView {
    if log.len() == 0 {
        StepView::Ask(RequestView::LoadTask { id })
    } else {
        match log[0] {
            ReplyView::Failed { message } => StepView::Fail(
                ErrorView::DatabaseError { context: "Failed to get task node '"@ + id + "': "@ + message },
            ),
            ReplyView::MaybeValue { value } => StepView::Finish(OutcomeView::MaybeJson { value }),
            _ => StepView::Mismatch,
        }
    }
}

/// The schema node of a type, if there is one.
pub open spec fn get_schema_node_next(id: Seq<char>, log: Seq<ReplyView>) -> StepView {
    if log.len() == 0 {
        StepView::Ask(RequestView::LoadSchemaNode { id })
    } else {
        match log[0] {
            ReplyView::Failed { message } => StepView::Fail(
                ErrorView::DatabaseError { context: "Failed to get schema node '"@ + id + "': "@ + message },
            ),
            ReplyView::MaybeValue { value } => StepView::Finish(OutcomeView::MaybeJson { value }),
            _ => StepView::Mismatch,
        }
    }
}

/// The schema node of a type with its relationships, if there is one.
pub open spec fn get_schema_with_relationships_next(schema_id: Seq<char>, log: Seq<ReplyView>) -> StepView {
    if log.len() == 0 {
        StepView::Ask(RequestView::LoadSchemaNode { id: schema_id })
    } else {
        match log[0] {
            ReplyView::Failed { message } => StepView::Fail(
                ErrorView::DatabaseError { context: "Failed to get schema node '"@ + schema_id + "': "@ + message },
            ),
            ReplyView::MaybeValue { value } => StepView::Finish(OutcomeView::MaybeJson { value }),
            _ => StepView::Mismatch,
        }
    }
}

/// All schema nodes, in the order of their identifiers.
pub open spec fn get_all_schemas_next(log: Seq<ReplyView>) -> StepView {
    if log.len() == 0 {
        StepView::Ask(RequestView::LoadAllSchemas)
    } else {
        match log[0] {
            ReplyView::Failed { message } => StepView::Fail(
                ErrorView::DatabaseError { context: "Failed to get all schemas: "@ + message },
            ),
            ReplyView::Values { values } => StepView::Finish(
                OutcomeView::Values { values: by_id(values) },
            ),
            _ => StepView::Mismatch,
        }
    }
}

/// Whether a node has no parent.
pub open spec fn is_root_next(node_id: Seq<char>, log: Seq<ReplyView>) -> StepView {
    if log.len() == 0 {
        StepView::Ask(RequestView::GetParent { id: node_id })
    } else {
        match log[0] {
            ReplyView::Refused { error } => StepView::Fail(error),
            ReplyView::Node { node } => StepView::Finish(
                OutcomeView::Flag { value: node is None },
            ),
            _ => StepView::Mismatch,
        }
    }
}

/// The check of a node against the schema of its type.
pub open spec fn validate_next(node: NodeView, log: Seq<ReplyView>) -> StepView {
    if log.len() == 0 {
        StepView::Ask(RequestView::LoadSchema { node_type: node.node_type })
    } else {
        match log[0] {
            ReplyView::Failed { message } => StepView::Fail(ErrorView::QueryFailed(message)),
            ReplyView::Schema { schema, fields } => match schema_error(node, schema, fields) {
                Some(message) => StepView::Fail(ErrorView::InvalidUpdate(message)),
                None => StepView::Finish(OutcomeView::Nothing),
            },
            _ => StepView::Mismatch,
        }
    }
}

/// A node with the identifiers of the nodes that it mentions.
pub open spec fn populate_mentions_next(node: NodeView, log: Seq<ReplyView>) -> StepView {
    if log.len() == 0 {
        StepView::Ask(RequestView::LoadMentions { id: node.id })
    } else {
        match log[0] {
            ReplyView::Failed { message } => StepView::Fail(
                ErrorView::QueryFailed("Failed to get outgoing mentions: "@ + message),
            ),
            ReplyView::Texts { items } => StepView::Finish(
                OutcomeView::Node { node: NodeView { mentions: items, ..node } },
            ),
            _ => StepView::Mismatch,
        }
    }
}

/// The nodes with some identifiers.
pub open spec fn get_nodes_next(ids: Seq<Seq<char>>, log: Seq<ReplyView>) -> StepView {
    if log.len() == 0 {
        StepView::Ask(RequestView::LoadNodes { ids })
    } else {
        match log[0] {
            ReplyView::Failed { message } => StepView::Fail(ErrorView::QueryFailed(message)),
            ReplyView::Nodes { nodes } => StepView::Finish(OutcomeView::Nodes { nodes }),
            _ => StepView::Mismatch,
        }
    }
}

impl NodeService {
    /// The children of a node, in order.
    pub fn get_children(&self, parent_id: &str, log: &Vec<Reply>) -> (r: Step)
        ensures
            r@ == get_children_next(parent_id@, replies(log@)),
    {
        if log.len() == 0 {
            return Step::Ask(Request::LoadChildren { id: parent_id.to_string() });
        }
        match &log[0] {
            Reply::Failed { message } => Step::Fail(NodeServiceError::QueryFailed(message.clone())),
            Reply::Nodes { nodes } => Step::Finish(Outcome::Nodes { nodes: clone_nodes(nodes) }),
            _ => Step::Mismatch,
        }
    }

    /// The nodes without a parent.
    pub fn get_roots(&self, limit: Option<usize>, offset: Option<usize>, log: &Vec<Reply>) -> (r: Step)
        ensures
            r@ == get_roots_next(limit, offset, replies(log@)),
    {
        if log.len() == 0 {
            return Step::Ask(Request::LoadRoots { limit, offset });
        }
        match &log[0] {
            Reply::Failed { message } => Step::Fail(NodeServiceError::QueryFailed(message.clone())),
            Reply::Nodes { nodes } => Step::Finish(Outcome::Nodes { nodes: clone_nodes(nodes) }),
            _ => Step::Mismatch,
        }
    }

    /// All nodes below a node.
    pub fn get_descendants(&self, root_id: &str, log: &Vec<Reply>) -> (r: Step)
        ensures
            r@ == get_descendants_next(root_id@, replies(log@)),
    {
        if log.len() == 0 {
            return Step::Ask(Request::LoadDescendants { id: root_id.to_string() });
        }
        match &log[0] {
            Reply::Failed { message } => Step::Fail(NodeServiceError::QueryFailed(message.clone())),
            Reply::Nodes { nodes } => Step::Finish(Outcome::Nodes { nodes: clone_nodes(nodes) }),
            _ => Step::Mismatch,
        }
    }

    /// All nodes that belong to a root.
    pub fn get_nodes_by_root_id(&self, root_node_id: &str, log: &Vec<Reply>) -> (r: Step)
        ensures
            r@ == get_nodes_by_root_id_next(root_node_id@, replies(log@)),
    {
        if log.len() == 0 {
            return Step::Ask(Request::LoadDescendants { id: root_node_id.to_string() });
        }
        match &log[0] {
            Reply::Failed { message } => Step::Fail(NodeServiceError::QueryFailed(message.clone())),
            Reply::Nodes { nodes } => Step::Finish(Outcome::Nodes { nodes: clone_nodes(nodes) }),
            _ => Step::Mismatch,
        }
    }

    /// The parent of a node, if it has one.
    pub fn get_parent(&self, node_id: &str, log: &Vec<Reply>) -> (r: Step)
        ensures
            r@ == get_parent_next(node_id@, replies(log@)),
    {
        if log.len() == 0 {
            return Step::Ask(Request::LoadParent { id: node_id.to_string() });
        }
        match &log[0] {
            Reply::Failed { message } => Step::Fail(NodeServiceError::QueryFailed(message.clone())),
            Reply::Node { node } => Step::Finish(
                Outcome::MaybeNode { node: clone_optional_node(node) },
            ),
            _ => Step::Mismatch,
        }
    }

    /// The nodes that can be mentioned and match a text.
    pub fn mention_autocomplete(&self, query: &str, limit: Option<usize>, log: &Vec<Reply>) -> (r: Step)
        ensures
            r@ == mention_autocomplete_next(query@, limit, replies(log@)),
    {
        if log.len() == 0 {
            return Step::Ask(Request::SearchMentionable { query: query.to_string(), limit: to_signed(limit) });
        }
        match &log[0] {
            Reply::Failed { message } => Step::Fail(NodeServiceError::QueryFailed(message.clone())),
            Reply::Nodes { nodes } => Step::Finish(Outcome::Nodes { nodes: clone_nodes(nodes) }),
            _ => Step::Mismatch,
        }
    }

    /// The removal of a node, whatever its version. That there is none is an error.
    pub fn delete_node_unchecked(&self, id: &str, log: &Vec<Reply>) -> (r: Step)
        ensures
            r@ == delete_node_unchecked_next(id@, replies(log@)),
    {
        if log.len() == 0 {
            return Step::Ask(Request::StoreDelete { id: id.to_string() });
        }
        match &log[0] {
            Reply::Failed { message } => {
                let mut text = "Database operation failed: ".to_string();
                text.append(message.as_str());
                Step::Fail(NodeServiceError::DatabaseError { context: text })
            },
            Reply::Flag { value: true } => Step::Finish(Outcome::Deleted { existed: true }),
            Reply::Flag { value: false } => Step::Fail(NodeServiceError::node_not_found(id)),
            _ => Step::Mismatch,
        }
    }

    /// The removal of a node that has the version. The outcome is the number of nodes that were removed.
    pub fn delete_with_version_check(&self, id: &str, expected_version: i64, log: &Vec<Reply>) -> (r: Step)
        ensures
            r@ == delete_with_version_check_next(id@, expected_version, replies(log@)),
    {
        if log.len() == 0 {
            return Step::Ask(Request::StoreVersionedDelete { id: id.to_string(), expected_version });
        }
        match &log[0] {
            Reply::Failed { message } => {
                let mut text = "Failed to delete node with version check: ".to_string();
                text.append(message.as_str());
                Step::Fail(NodeServiceError::QueryFailed(text))
            },
            Reply::Count { value } => Step::Finish(Outcome::Count { count: *value }),
            _ => Step::Mismatch,
        }
    }

    /// The schema of a type, if there is one.
    pub fn get_schema_for_type(&self, node_type: &str, log: &Vec<Reply>) -> (r: Step)
        ensures
            r@ == get_schema_for_type_next(node_type@, replies(log@)),
    {
        if log.len() == 0 {
            return Step::Ask(Request::LoadSchema { node_type: node_type.to_string() });
        }
        match &log[0] {
            Reply::Failed { message } => Step::Fail(NodeServiceError::QueryFailed(message.clone())),
            Reply::Schema { schema, fields: _ } => Step::Finish(
                Outcome::MaybeJson { value: clone_optional_value(schema) },
            ),
            _ => Step::Mismatch,
        }
    }

    /// The identifiers of the nodes that a node mentions.
    pub fn get_mentions(&self, node_id: &str, log: &Vec<Reply>) -> (r: Step)
        ensures
            r@ == get_mentions_next(node_id@, replies(log@)),
    {
        if log.len() == 0 {
            return Step::Ask(Request::LoadMentions { id: node_id.to_string() });
        }
        match &log[0] {
            Reply::Failed { message } => Step::Fail(NodeServiceError::QueryFailed(message.clone())),
            Reply::Texts { items } => Step::Finish(Outcome::Ids { ids: clone_texts(items) }),
            _ => Step::Mismatch,
        }
    }

    /// The identifiers of the nodes that mention a node.
    pub fn get_mentioned_by(&self, node_id: &str, log: &Vec<Reply>) -> (r: Step)
        ensures
            r@ == get_mentioned_by_next(node_id@, replies(log@)),
    {
        if log.len() == 0 {
            return Step::Ask(Request::LoadMentionedBy { id: node_id.to_string() });
        }
        match &log[0] {
            Reply::Failed { message } => Step::Fail(NodeServiceError::QueryFailed(message.clone())),
            Reply::Texts { items } => Step::Finish(Outcome::Ids { ids: clone_texts(items) }),
            _ => Step::Mismatch,
        }
    }

    /// The containers from which a node is mentioned.
    pub fn get_mentioning_containers(&self, node_id: &str, log: &Vec<Reply>) -> (r: Step)
        ensures
            r@ == get_mentioning_containers_next(node_id@, replies(log@)),
    {
        if log.len() == 0 {
            return Step::Ask(Request::LoadMentionContainers { id: node_id.to_string() });
        }
        match &log[0] {
            Reply::Failed { message } => Step::Fail(NodeServiceError::QueryFailed(message.clone())),
            Reply::References { items } => Step::Finish(
                Outcome::References { items: clone_references(items) },
            ),
            _ => Step::Mismatch,
        }
    }

    /// A task with its fields, if it exists.
    pub fn get_task_node(&self, id: &str, log: &Vec<Reply>) -> (r: Step)
        ensures
            r@ == get_task_node_next(id@, replies(log@)),
    {
        if log.len() == 0 {
            return Step::Ask(Request::LoadTask { id: id.to_string() });
        }
        match &log[0] {
            Reply::Failed { message } => {
                let mut text = "Failed to get task node '".to_string();
                text.append(id);
                text.append("': ");
                text.append(message.as_str());
                Step::Fail(NodeServiceError::DatabaseError { context: text })
            },
            Reply::MaybeValue { value } => Step::Finish(
                Outcome::MaybeJson { value: clone_optional_value(value) },
            ),
            _ => Step::Mismatch,
        }
    }

    /// The schema node of a type, if there is one.
    pub fn get_schema_node(&self, id: &str, log: &Vec<Reply>) -> (r: Step)
        ensures
            r@ == get_schema_node_next(id@, replies(log@)),
    {
        if log.len() == 0 {
            return Step::Ask(Request::LoadSchemaNode { id: id.to_string() });
        }
        match &log[0] {
            Reply::Failed { message } => {
                let mut text = "Failed to get schema node '".to_string();
                text.append(id);
                text.append("': ");
                text.append(message.as_str());
                Step::Fail(NodeServiceError::DatabaseError { context: text })
            },
            Reply::MaybeValue { value } => Step::Finish(
                Outcome::MaybeJson { value: clone_optional_value(value) },
            ),
            _ => Step::Mismatch,
        }
    }

    /// The schema node of a type with its relationships, if there is one.
    pub fn get_schema_with_relationships(&self, schema_id: &str, log: &Vec<Reply>) -> (r: Step)
        ensures
            r@ == get_schema_with_relationships_next(schema_id@, replies(log@)),
    {
        if log.len() == 0 {
            return Step::Ask(Request::LoadSchemaNode { id: schema_id.to_string() });
        }
        match &log[0] {
            Reply::Failed { message } => {
                let mut text = "Failed to get schema node '".to_string();
                text.append(schema_id);
                text.append("': ");
                text.append(message.as_str());
                Step::Fail(NodeServiceError::DatabaseError { context: text })
            },
            Reply::MaybeValue { value } => Step::Finish(
                Outcome::MaybeJson { value: clone_optional_value(value) },
            ),
            _ => Step::Mismatch,
        }
    }

    /// All schema nodes, in the order of their identifiers.
    pub fn get_all_schemas(&self, log: &Vec<Reply>) -> (r: Step)
        ensures
            r@ == get_all_schemas_next(replies(log@)),
    {
        if log.len() == 0 {
            return Step::Ask(Request::LoadAllSchemas);
        }
        match &log[0] {
            Reply::Failed { message } => {
                let mut text = "Failed to get all schemas: ".to_string();
                text.append(message.as_str());
                Step::Fail(NodeServiceError::DatabaseError { context: text })
            },
            Reply::Values { values } => Step::Finish(
                Outcome::Values { values: sort_by_id(values) },
            ),
            _ => Step::Mismatch,
        }
    }

    /// Whether a node has no parent.
    pub fn is_root_node(&self, node_id: &str, log: &Vec<Reply>) -> (r: Step)
        ensures
            r@ == is_root_next(node_id@, replies(log@)),
    {
        if log.len() == 0 {
            return Step::Ask(Request::GetParent { id: node_id.to_string() });
        }
        match &log[0] {
            Reply::Refused { error } => Step::Fail(error.clone()),
            Reply::Node { node } => Step::Finish(Outcome::Flag { value: node.is_none() }),
            _ => Step::Mismatch,
        }
    }

    /// Checks a node against the schema of its type. A type without a schema is not checked.
    pub fn validate_node_against_schema(&self, node: &Node, log: &Vec<Reply>) -> (r: Step)
        ensures
            r@ == validate_next(node@, replies(log@)),
    {
        if log.len() == 0 {
            return Step::Ask(Request::LoadSchema { node_type: node.node_type.clone() });
        }
        match &log[0] {
            Reply::Failed { message } => Step::Fail(NodeServiceError::QueryFailed(message.clone())),
            Reply::Schema { schema: Some(_), fields: Some(fields) } => {
                match self.validate_node_with_fields(node, fields) {
                    Err(e) => Step::Fail(e),
                    Ok(()) => Step::Finish(Outcome::Nothing),
                }
            },
            Reply::Schema { schema: _, fields: _ } => Step::Finish(Outcome::Nothing),
            _ => Step::Mismatch,
        }
    }

    /// Fills in the identifiers of the nodes that a node mentions.
    pub fn populate_mentions(&self, node: &Node, log: &Vec<Reply>) -> (r: Step)
        ensures
            r@ == populate_mentions_next(node@, replies(log@)),
    {
        if log.len() == 0 {
            return Step::Ask(Request::LoadMentions { id: node.id.clone() });
        }
        match &log[0] {
            Reply::Failed { message } => {
                let mut text = "Failed to get outgoing mentions: ".to_string();
                text.append(message.as_str());
                Step::Fail(NodeServiceError::QueryFailed(text))
            },
            Reply::Texts { items } => {
                let mut filled = node.clone();
                filled.mentions = clone_texts(items);
                Step::Finish(Outcome::Node { node: filled })
            },
            _ => Step::Mismatch,
        }
    }

    /// The nodes with some identifiers.
    pub fn get_nodes(&self, ids: &Vec<String>, log: &Vec<Reply>) -> (r: Step)
        ensures
            r@ == get_nodes_next(texts(ids@), replies(log@)),
    {
        if log.len() == 0 {
            return Step::Ask(Request::LoadNodes { ids: clone_texts(ids) });
        }
        match &log[0] {
            Reply::Failed { message } => Step::Fail(NodeServiceError::QueryFailed(message.clone())),
            Reply::Nodes { nodes } => Step::Finish(Outcome::Nodes { nodes: clone_nodes(nodes) }),
            _ => Step::Mismatch,
        }
    }
}

} // verus!
