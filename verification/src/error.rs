//! Errors of the node service.

use vstd::prelude::*;

verus! {

/// Why a node service operation failed.
#[derive(Debug)]
pub enum NodeServiceError {
    NodeNotFound { id: String },
    InvalidParent { parent_id: String },
    InvalidUpdate(String),
    /// A mention or a hierarchy link that a node may not have.
    ValidationFailed(String),
    VersionConflict { node_id: String, expected_version: i64, actual_version: i64 },
    QueryFailed(String),
    HierarchyViolation(String),
    CircularReference(String),
    BulkOperationFailed(String),
    SerializationError(String),
    DatabaseError { context: String },
    InitializationError(String),
    PlaybookValidationFailed { errors: String },
    /// An operation with an argument that it does not take.
    InvalidOperation(String),
    /// The schema of a type is missing.
    SchemaNotFound(String),
    /// The schema of a type does not define a relationship.
    RelationshipNotFound(String),
    /// The target of a relationship has another type than its schema says.
    TargetTypeMismatch(String),
    /// A relationship that a node has once would get a second edge.
    CardinalityViolation(String),
}

/// The mathematical value of a [`NodeServiceError`].
#[verifier::ext_equal]
pub enum ErrorView {
    NodeNotFound { id: Seq<char> },
    InvalidParent { parent_id: Seq<char> },
    InvalidUpdate(Seq<char>),
    ValidationFailed(Seq<char>),
    VersionConflict { node_id: Seq<char>, expected_version: i64, actual_version: i64 },
    QueryFailed(Seq<char>),
    HierarchyViolation(Seq<char>),
    CircularReference(Seq<char>),
    BulkOperationFailed(Seq<char>),
    SerializationError(Seq<char>),
    DatabaseError { context: Seq<char> },
    InitializationError(Seq<char>),
    PlaybookValidationFailed { errors: Seq<char> },
    InvalidOperation(Seq<char>),
    SchemaNotFound(Seq<char>),
    RelationshipNotFound(Seq<char>),
    TargetTypeMismatch(Seq<char>),
    CardinalityViolation(Seq<char>),
}

impl View for NodeServiceError {
    type V = ErrorView;

    open spec fn view(&self) -> ErrorView {
        match *self {
            NodeServiceError::NodeNotFound { id } => ErrorView::NodeNotFound { id: id@ },
            NodeServiceError::InvalidParent { parent_id } => ErrorView::InvalidParent {
                parent_id: parent_id@,
            },
            NodeServiceError::InvalidUpdate(m) => ErrorView::InvalidUpdate(m@),
            NodeServiceError::ValidationFailed(m) => ErrorView::ValidationFailed(m@),
            NodeServiceError::VersionConflict { node_id, expected_version, actual_version } =>
                ErrorView::VersionConflict { node_id: node_id@, expected_version, actual_version },
            NodeServiceError::QueryFailed(m) => ErrorView::QueryFailed(m@),
            NodeServiceError::HierarchyViolation(m) => ErrorView::HierarchyViolation(m@),
            NodeServiceError::CircularReference(m) => ErrorView::CircularReference(m@),
            NodeServiceError::BulkOperationFailed(m) => ErrorView::BulkOperationFailed(m@),
            NodeServiceError::SerializationError(m) => ErrorView::SerializationError(m@),
            NodeServiceError::DatabaseError { context } => ErrorView::DatabaseError {
                context: context@,
            },
            NodeServiceError::InitializationError(m) => ErrorView::InitializationError(m@),
            NodeServiceError::PlaybookValidationFailed { errors } =>
                ErrorView::PlaybookValidationFailed { errors: errors@ },
            NodeServiceError::InvalidOperation(m) => ErrorView::InvalidOperation(m@),
            NodeServiceError::SchemaNotFound(m) => ErrorView::SchemaNotFound(m@),
            NodeServiceError::RelationshipNotFound(m) => ErrorView::RelationshipNotFound(m@),
            NodeServiceError::TargetTypeMismatch(m) => ErrorView::TargetTypeMismatch(m@),
            NodeServiceError::CardinalityViolation(m) => ErrorView::CardinalityViolation(m@),
        }
    }
}

impl Clone for NodeServiceError {
    fn clone(&self) -> (r: NodeServiceError)
        ensures
            r@ == self@,
    {
        match self {
            NodeServiceError::NodeNotFound { id } => NodeServiceError::NodeNotFound {
                id: id.clone(),
            },
            NodeServiceError::InvalidParent { parent_id } => NodeServiceError::InvalidParent {
                parent_id: parent_id.clone(),
            },
            NodeServiceError::InvalidUpdate(m) => NodeServiceError::InvalidUpdate(m.clone()),
            NodeServiceError::ValidationFailed(m) => NodeServiceError::ValidationFailed(m.clone()),
            NodeServiceError::VersionConflict { node_id, expected_version, actual_version } =>
                NodeServiceError::VersionConflict {
                node_id: node_id.clone(),
                expected_version: *expected_version,
                actual_version: *actual_version,
            },
            NodeServiceError::QueryFailed(m) => NodeServiceError::QueryFailed(m.clone()),
            NodeServiceError::HierarchyViolation(m) => NodeServiceError::HierarchyViolation(
                m.clone(),
            ),
            NodeServiceError::CircularReference(m) => NodeServiceError::CircularReference(
                m.clone(),
            ),
            NodeServiceError::BulkOperationFailed(m) => NodeServiceError::BulkOperationFailed(
                m.clone(),
            ),
            NodeServiceError::SerializationError(m) => NodeServiceError::SerializationError(
                m.clone(),
            ),
            NodeServiceError::DatabaseError { context } => NodeServiceError::DatabaseError {
                context: context.clone(),
            },
            NodeServiceError::InitializationError(m) => NodeServiceError::InitializationError(
                m.clone(),
            ),
            NodeServiceError::PlaybookValidationFailed { errors } =>
                NodeServiceError::PlaybookValidationFailed { errors: errors.clone() },
            NodeServiceError::InvalidOperation(m) => NodeServiceError::InvalidOperation(m.clone()),
            NodeServiceError::SchemaNotFound(m) => NodeServiceError::SchemaNotFound(m.clone()),
            NodeServiceError::RelationshipNotFound(m) => NodeServiceError::RelationshipNotFound(
                m.clone(),
            ),
            NodeServiceError::TargetTypeMismatch(m) => NodeServiceError::TargetTypeMismatch(
                m.clone(),
            ),
            NodeServiceError::CardinalityViolation(m) => NodeServiceError::CardinalityViolation(
                m.clone(),
            ),
        }
    }
}

impl NodeServiceError {
    pub fn node_not_found(id: &str) -> (r: NodeServiceError)
        ensures
            r@ == (ErrorView::NodeNotFound { id: id@ }),
    {
        NodeServiceError::NodeNotFound { id: id.to_owned() }
    }

    pub fn invalid_parent(parent_id: &str) -> (r: NodeServiceError)
        ensures
            r@ == (ErrorView::InvalidParent { parent_id: parent_id@ }),
    {
        NodeServiceError::InvalidParent { parent_id: parent_id.to_owned() }
    }

    pub fn invalid_update(message: &str) -> (r: NodeServiceError)
        ensures
            r@ == ErrorView::InvalidUpdate(message@),
    {
        NodeServiceError::InvalidUpdate(message.to_owned())
    }

    pub fn query_failed(message: &str) -> (r: NodeServiceError)
        ensures
            r@ == ErrorView::QueryFailed(message@),
    {
        NodeServiceError::QueryFailed(message.to_owned())
    }

    pub fn version_conflict(node_id: &str, expected_version: i64, actual_version: i64) -> (r:
        NodeServiceError)
        ensures
            r@ == (ErrorView::VersionConflict {
                node_id: node_id@,
                expected_version,
                actual_version,
            }),
    {
        NodeServiceError::VersionConflict {
            node_id: node_id.to_owned(),
            expected_version,
            actual_version,
        }
    }
}

} // verus!
