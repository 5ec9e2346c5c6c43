//! How an operation talks to its surroundings.
//!
//! An operation is a function of its arguments and of the replies that it got so far. It says what
//! is to be done next: perform a request and call again with the reply at the end of the list, hand
//! an outcome to the caller, or fail.

use crate::chunking::ChunkInfo;
use crate::create::{CreateNodeParams, CreateNodeParamsView};
use crate::error::{ErrorView, NodeServiceError};
use crate::events::{DomainEvent, DomainEventView};
use crate::hits::{hit_views, SearchHit, SearchHitView};
use crate::json::{list_view, Json, Number, Value};
use crate::node::{
    bulk_views, node_views, optional_fields, optional_json, optional_node, optional_relationships,
    optional_text, references, texts, update_views, BulkNode, BulkNodeView, CompletenessResult,
    CompletenessResultView, Node, NodeReference, NodeReferenceView, NodeUpdate, NodeUpdateView,
    NodeView, SchemaField, SchemaFieldView, SchemaRelationship, SchemaRelationshipView,
    TaskNodeUpdate, TaskNodeUpdateView,
};
use crate::query::{NodeQuery, NodeQueryView};
use crate::tree::{edge_views, ChildEdge, ChildEdgeView, SubtreeData, SubtreeDataView};
use vstd::prelude::*;

verus! {

/// What an operation asks its surroundings to do.
#[derive(Debug)]
#[allow(inconsistent_fields)]
pub enum Request {
    /// Load a node as it is stored.
    LoadNode { id: String },
    /// Load the identifier of the parent of a node.
    LoadParentId { id: String },
    /// Load the type of a node.
    LoadNodeType { id: String },
    /// Load the schema of a node type, with its fields if they can be read.
    LoadSchema { node_type: String },
    /// Load the title template of the schema of a node type.
    LoadTitleTemplate { node_type: String },
    /// Store a new node.
    InsertNode { node: Node },
    /// Store a new schema node together with the tables of its relationships.
    InsertSchemaNode { node: Node },
    /// Store a change of a node.
    StoreUpdate { id: String, update: NodeUpdate },
    /// Store a change of a schema node together with the tables of its relationships.
    StoreSchemaUpdate { id: String, update: NodeUpdate },
    /// Store a change of a node if it has the version.
    StoreVersionedUpdate { id: String, expected_version: i64, update: NodeUpdate },
    /// Remove a node if it has the version.
    StoreVersionedDelete { id: String, expected_version: i64 },
    /// Put a node under a parent, after a sibling or at the beginning.
    StoreMove { id: String, parent: Option<String>, after: Option<String> },
    /// Store a mention.
    StoreMention { from: String, to: String },
    /// Remove a mention.
    StoreUnmention { from: String, to: String },
    /// Ask whether a root has embeddings.
    HasEmbeddings { id: String },
    /// Mark the embeddings of a root as stale.
    MarkStale { id: String },
    /// Note a root for which no embedding exists yet.
    CreateStaleMarker { id: String },
    /// Get a node as readers see it.
    GetNode { id: String },
    /// Ask whether a node exists.
    NodeExists { id: String },
    /// Get the parent of a node.
    GetParent { id: String },
    /// Get the children of a node in order.
    GetChildren { id: String },
    /// Get the identifier of the root above a node.
    GetRoot { id: String },
    /// Ask whether a node is a root.
    IsRoot { id: String },
    /// Ask whether a node lies below another.
    IsDescendant { ancestor: String, id: String },
    /// Make sure that the node of a date exists.
    EnsureDate { id: String },
    /// Create a node.
    CreateNode { node: Node },
    /// Compute the title of a node.
    ComputeTitle { node: Node, is_root: Option<bool> },
    /// Put a new node under its parent.
    CreateParentEdge { child: String, parent: String, after: Option<String> },
    /// Queue the root above a node for embedding.
    QueueRoot { id: String },
    /// Queue the root above a node for embedding without waiting for it.
    QueueRootInBackground { id: String },
    /// Bring the stored mentions of a node in line with its content.
    SyncMentions { id: String, old_content: String, new_content: String },
    /// Create a mention.
    CreateMention { from: String, to: String },
    /// Delete a mention.
    DeleteMention { from: String, to: String },
    /// Delete a node and what lies below it.
    DeleteNode { id: String, expected_version: i64 },
    /// Put a child after a sibling.
    ReorderChild { id: String, after: Option<String> },
    /// Raise the version of a node.
    BumpVersion { id: String, expected_version: i64 },
    /// Let the behavior of its type check a node.
    ValidateBehavior { node: Node },
    /// Ask whether nodes of a type can be embedded.
    IsEmbeddable { node_type: String },
    /// Check the rules of a playbook.
    ValidatePlaybook { properties: Value },
    /// Fill in the mentions of a node.
    PopulateMentions { node: Node },
    /// Bring a node to a version of its schema.
    Migrate { node: Node, target: u32 },
    /// Take the markdown marks out of a text.
    StripMarkdown { content: String },
    /// Fill a title template with properties.
    InterpolateTitle { template: String, properties: Value, node_type: String },
    /// Send an event to the subscribers.
    Emit { event: DomainEvent },
    /// Wake the embedding processor.
    WakeEmbedder,
    /// Wait.
    Pause { millis: u64 },
    /// Update a node that has the version.
    VersionedUpdate { id: String, expected_version: i64, update: NodeUpdate },
    /// Load the relationships that the schema node of a type defines.
    LoadRelationships { node_type: String },
    /// Load the relationships that the schema of a type defines.
    LoadSchemaRelationships { node_type: String },
    /// Ask whether a node has an edge of a relationship.
    HasEdge { source: String, relationship: String },
    /// Find the edge of a relationship between two nodes.
    FindEdge { source: String, target: String, relationship: String },
    /// Put a node into a collection at the end, unless it is there.
    AddToCollection { source: String, target: String },
    /// Load the order of a member in a collection.
    LoadMemberOrder { source: String, target: String },
    /// Load the order that the next child of a node gets.
    NextChildOrder { id: String },
    /// Store an edge.
    Relate { source: String, target: String, relationship: String, properties: Value },
    /// Remove an edge.
    DeleteEdge { source: String, target: String, relationship: String },
    /// Load the nodes at the other end of the edges of a relationship.
    LoadRelated { id: String, relationship: String, outgoing: bool },
    /// Say in words what an error is.
    Describe { error: NodeServiceError },
    /// Load the nodes with some identifiers, as they are stored.
    LoadNodes { ids: Vec<String> },
    /// Store new nodes in one transaction.
    StoreBatch { nodes: Vec<Node> },
    /// Store new nodes with their places in the tree in one transaction. With `root_only` only the root is announced.
    StoreHierarchy { nodes: Vec<BulkNode>, root_only: bool },
    /// Note several roots for which no embedding exists yet.
    CreateStaleMarkers { ids: Vec<String> },
    /// Store changes of several nodes in one transaction.
    StoreBulkUpdate { updates: Vec<(String, NodeUpdate)> },
    /// Remove several nodes in one transaction.
    StoreBulkDelete { ids: Vec<String> },
    /// Add types to the schemas that the store knows.
    CacheSchemas { ids: Vec<String> },
    /// Get the nodes of a type.
    QueryByType { node_type: String },
    /// Create a node under a parent.
    CreateNodeWithParent { params: CreateNodeParams },
    /// Create nodes with their places in the tree.
    BulkCreateHierarchy { nodes: Vec<BulkNode> },
    /// Ask the store for nodes.
    QueryStore { query: NodeQuery },
    /// Load a node with all nodes below it and the edges between them.
    LoadSubtree { root_id: String },
    /// Load the containers from which a node is mentioned.
    LoadMentionContainers { id: String },
    /// Give nodes the form in which they are handed out.
    Render { nodes: Vec<Node> },
    /// Load the children of a node in order.
    LoadChildren { id: String },
    /// Load the parent of a node.
    LoadParent { id: String },
    /// Load the nodes without a parent.
    LoadRoots { limit: Option<usize>, offset: Option<usize> },
    /// Load all nodes below a node.
    LoadDescendants { id: String },
    /// Load the nodes that can be mentioned and match a text.
    SearchMentionable { query: String, limit: Option<i64> },
    /// Remove a node.
    StoreDelete { id: String },
    /// Load the identifiers of the nodes that a node mentions.
    LoadMentions { id: String },
    /// Load the identifiers of the nodes that mention a node.
    LoadMentionedBy { id: String },
    /// Load a task with its fields.
    LoadTask { id: String },
    /// Load the schema node of a type.
    LoadSchemaNode { id: String },
    /// Load all schema nodes.
    LoadAllSchemas,
    /// Get what a node itself contributes to its embedding.
    OwnContent { node: Node },
    /// Get what the nodes around a node contribute to its embedding.
    AggregatedContent { node: Node },
    /// Get the text for which a root is embedded.
    ExtractContent { node: Node },
    /// Compute the vector of a text, and keep it until it is stored.
    EmbedText { text: String },
    /// Store the vectors of the chunks of a root in place of those that it had.
    StoreEmbeddings { root_id: String, content_hash: String, chunks: Vec<ChunkInfo> },
    /// Remove the embeddings of a node.
    DeleteEmbeddings { id: String },
    /// Load the roots whose embeddings have been stale for some seconds.
    StaleRoots { limit: i64, debounce: u64, max_retries: u32 },
    /// Ask whether embeddings became stale too recently.
    HasPendingStale { debounce: u64, max_retries: u32 },
    /// Embed a root.
    EmbedRoot { id: String },
    /// Note that a root could not be embedded.
    RecordEmbeddingError { id: String, error: NodeServiceError, max_retries: u32 },
    /// Find the root above a node.
    FindRoot { id: String },
    /// Queue a root for embedding.
    QueueForEmbedding { id: String },
    /// Compute the vector of a query, and keep it for the search that follows.
    EmbedQuery { text: String },
    /// Search by vector and by keyword at the same time.
    HybridSearch { query: String, limit: i64, threshold: u64, keyword_limit: i64 },
    /// Search among the nodes of a type by vector.
    SearchByType { node_type: String, limit: i64, threshold: u64 },
    /// Add the bonus for a match in the title to scores.
    Boost { scores: Vec<Number> },
    /// Search by meaning.
    SemanticSearch { query: String, limit: usize, threshold: u64 },
    /// Ask which nodes the filters of a caller accept.
    MatchFilters { nodes: Vec<Node> },
    /// Read the rules of a playbook.
    ParseRules { properties: Value },
    /// Read one rule of a playbook.
    ParseRule { properties: Value, index: usize },
    /// Check the rules of a playbook against the schemas.
    ValidateRules { properties: Value },
    /// Let the behavior of its type check a node, and say in words what is wrong.
    CheckBehavior { node: Node },
    /// Change the fields of a task that has a version.
    StoreTaskUpdate { id: String, expected_version: i64, update: TaskNodeUpdate },
    /// Store a node under a parent, with what is new of the two, in one transaction.
    StoreUpsert { new_parent: Option<Node>, new_node: Option<Node>, id: String, content: String, parent: String, after: Option<String> },
}

/// The mathematical value of a [`Request`].
#[verifier::ext_equal]
#[allow(inconsistent_fields)]
pub enum RequestView {
    LoadNode { id: Seq<char> },
    LoadParentId { id: Seq<char> },
    LoadNodeType { id: Seq<char> },
    LoadSchema { node_type: Seq<char> },
    LoadTitleTemplate { node_type: Seq<char> },
    InsertNode { node: NodeView },
    InsertSchemaNode { node: NodeView },
    StoreUpdate { id: Seq<char>, update: NodeUpdateView },
    StoreSchemaUpdate { id: Seq<char>, update: NodeUpdateView },
    StoreVersionedUpdate { id: Seq<char>, expected_version: i64, update: NodeUpdateView },
    StoreVersionedDelete { id: Seq<char>, expected_version: i64 },
    StoreMove { id: Seq<char>, parent: Option<Seq<char>>, after: Option<Seq<char>> },
    StoreMention { from: Seq<char>, to: Seq<char> },
    StoreUnmention { from: Seq<char>, to: Seq<char> },
    HasEmbeddings { id: Seq<char> },
    MarkStale { id: Seq<char> },
    CreateStaleMarker { id: Seq<char> },
    GetNode { id: Seq<char> },
    NodeExists { id: Seq<char> },
    GetParent { id: Seq<char> },
    GetChildren { id: Seq<char> },
    GetRoot { id: Seq<char> },
    IsRoot { id: Seq<char> },
    IsDescendant { ancestor: Seq<char>, id: Seq<char> },
    EnsureDate { id: Seq<char> },
    CreateNode { node: NodeView },
    ComputeTitle { node: NodeView, is_root: Option<bool> },
    CreateParentEdge { child: Seq<char>, parent: Seq<char>, after: Option<Seq<char>> },
    QueueRoot { id: Seq<char> },
    QueueRootInBackground { id: Seq<char> },
    SyncMentions { id: Seq<char>, old_content: Seq<char>, new_content: Seq<char> },
    CreateMention { from: Seq<char>, to: Seq<char> },
    DeleteMention { from: Seq<char>, to: Seq<char> },
    DeleteNode { id: Seq<char>, expected_version: i64 },
    ReorderChild { id: Seq<char>, after: Option<Seq<char>> },
    BumpVersion { id: Seq<char>, expected_version: i64 },
    ValidateBehavior { node: NodeView },
    IsEmbeddable { node_type: Seq<char> },
    ValidatePlaybook { properties: Json },
    PopulateMentions { node: NodeView },
    Migrate { node: NodeView, target: u32 },
    StripMarkdown { content: Seq<char> },
    InterpolateTitle { template: Seq<char>, properties: Json, node_type: Seq<char> },
    Emit { event: DomainEventView },
    WakeEmbedder,
    Pause { millis: u64 },
    VersionedUpdate { id: Seq<char>, expected_version: i64, update: NodeUpdateView },
    LoadRelationships { node_type: Seq<char> },
    LoadSchemaRelationships { node_type: Seq<char> },
    HasEdge { source: Seq<char>, relationship: Seq<char> },
    FindEdge { source: Seq<char>, target: Seq<char>, relationship: Seq<char> },
    AddToCollection { source: Seq<char>, target: Seq<char> },
    LoadMemberOrder { source: Seq<char>, target: Seq<char> },
    NextChildOrder { id: Seq<char> },
    Relate { source: Seq<char>, target: Seq<char>, relationship: Seq<char>, properties: Json },
    DeleteEdge { source: Seq<char>, target: Seq<char>, relationship: Seq<char> },
    LoadRelated { id: Seq<char>, relationship: Seq<char>, outgoing: bool },
    Describe { error: ErrorView },
    LoadNodes { ids: Seq<Seq<char>> },
    StoreBatch { nodes: Seq<NodeView> },
    StoreHierarchy { nodes: Seq<BulkNodeView>, root_only: bool },
    CreateStaleMarkers { ids: Seq<Seq<char>> },
    StoreBulkUpdate { updates: Seq<(Seq<char>, NodeUpdateView)> },
    StoreBulkDelete { ids: Seq<Seq<char>> },
    CacheSchemas { ids: Seq<Seq<char>> },
    QueryByType { node_type: Seq<char> },
    CreateNodeWithParent { params: CreateNodeParamsView },
    BulkCreateHierarchy { nodes: Seq<BulkNodeView> },
    QueryStore { query: NodeQueryView },
    LoadSubtree { root_id: Seq<char> },
    LoadMentionContainers { id: Seq<char> },
    Render { nodes: Seq<NodeView> },
    LoadChildren { id: Seq<char> },
    LoadParent { id: Seq<char> },
    LoadRoots { limit: Option<usize>, offset: Option<usize> },
    LoadDescendants { id: Seq<char> },
    SearchMentionable { query: Seq<char>, limit: Option<i64> },
    StoreDelete { id: Seq<char> },
    LoadMentions { id: Seq<char> },
    LoadMentionedBy { id: Seq<char> },
    LoadTask { id: Seq<char> },
    LoadSchemaNode { id: Seq<char> },
    LoadAllSchemas,
    OwnContent { node: NodeView },
    AggregatedContent { node: NodeView },
    ExtractContent { node: NodeView },
    EmbedText { text: Seq<char> },
    StoreEmbeddings { root_id: Seq<char>, content_hash: Seq<char>, chunks: Seq<ChunkInfo> },
    DeleteEmbeddings { id: Seq<char> },
    StaleRoots { limit: i64, debounce: u64, max_retries: u32 },
    HasPendingStale { debounce: u64, max_retries: u32 },
    EmbedRoot { id: Seq<char> },
    RecordEmbeddingError { id: Seq<char>, error: ErrorView, max_retries: u32 },
    FindRoot { id: Seq<char> },
    QueueForEmbedding { id: Seq<char> },
    EmbedQuery { text: Seq<char> },
    HybridSearch { query: Seq<char>, limit: i64, threshold: u64, keyword_limit: i64 },
    SearchByType { node_type: Seq<char>, limit: i64, threshold: u64 },
    Boost { scores: Seq<Number> },
    SemanticSearch { query: Seq<char>, limit: usize, threshold: u64 },
    MatchFilters { nodes: Seq<NodeView> },
    ParseRules { properties: Json },
    ParseRule { properties: Json, index: usize },
    ValidateRules { properties: Json },
    CheckBehavior { node: NodeView },
    StoreTaskUpdate { id: Seq<char>, expected_version: i64, update: TaskNodeUpdateView },
    StoreUpsert { new_parent: Option<NodeView>, new_node: Option<NodeView>, id: Seq<char>, content: Seq<char>, parent: Seq<char>, after: Option<Seq<char>> },
}

impl View for Request {
    type V = RequestView;

    open spec fn view(&self) -> RequestView {
        match *self {
            Request::LoadNode { id } => RequestView::LoadNode {
                id: id@,
            },
            Request::LoadParentId { id } => RequestView::LoadParentId {
                id: id@,
            },
            Request::LoadNodeType { id } => RequestView::LoadNodeType {
                id: id@,
            },
            Request::LoadSchema { node_type } => RequestView::LoadSchema {
                node_type: node_type@,
            },
            Request::LoadTitleTemplate { node_type } => RequestView::LoadTitleTemplate {
                node_type: node_type@,
            },
            Request::InsertNode { node } => RequestView::InsertNode {
                node: node@,
            },
            Request::InsertSchemaNode { node } => RequestView::InsertSchemaNode {
                node: node@,
            },
            Request::StoreUpdate { id, update } => RequestView::StoreUpdate {
                id: id@,
                update: update@,
            },
            Request::StoreSchemaUpdate { id, update } => RequestView::StoreSchemaUpdate {
                id: id@,
                update: update@,
            },
            Request::StoreVersionedUpdate { id, expected_version, update } => RequestView::StoreVersionedUpdate {
                id: id@,
                expected_version,
                update: update@,
            },
            Request::StoreVersionedDelete { id, expected_version } => RequestView::StoreVersionedDelete {
                id: id@,
                expected_version,
            },
            Request::StoreMove { id, parent, after } => RequestView::StoreMove {
                id: id@,
                parent: optional_text(parent),
                after: optional_text(after),
            },
            Request::StoreMention { from, to } => RequestView::StoreMention {
                from: from@,
                to: to@,
            },
            Request::StoreUnmention { from, to } => RequestView::StoreUnmention {
                from: from@,
                to: to@,
            },
            Request::HasEmbeddings { id } => RequestView::HasEmbeddings {
                id: id@,
            },
            Request::MarkStale { id } => RequestView::MarkStale {
                id: id@,
            },
            Request::CreateStaleMarker { id } => RequestView::CreateStaleMarker {
                id: id@,
            },
            Request::GetNode { id } => RequestView::GetNode {
                id: id@,
            },
            Request::NodeExists { id } => RequestView::NodeExists {
                id: id@,
            },
            Request::GetParent { id } => RequestView::GetParent {
                id: id@,
            },
            Request::GetChildren { id } => RequestView::GetChildren {
                id: id@,
            },
            Request::GetRoot { id } => RequestView::GetRoot {
                id: id@,
            },
            Request::IsRoot { id } => RequestView::IsRoot {
                id: id@,
            },
            Request::IsDescendant { ancestor, id } => RequestView::IsDescendant {
                ancestor: ancestor@,
                id: id@,
            },
            Request::EnsureDate { id } => RequestView::EnsureDate {
                id: id@,
            },
            Request::CreateNode { node } => RequestView::CreateNode {
                node: node@,
            },
            Request::ComputeTitle { node, is_root } => RequestView::ComputeTitle {
                node: node@,
                is_root,
            },
            Request::CreateParentEdge { child, parent, after } => RequestView::CreateParentEdge {
                child: child@,
                parent: parent@,
                after: optional_text(after),
            },
            Request::QueueRoot { id } => RequestView::QueueRoot {
                id: id@,
            },
            Request::QueueRootInBackground { id } => RequestView::QueueRootInBackground {
                id: id@,
            },
            Request::SyncMentions { id, old_content, new_content } => RequestView::SyncMentions {
                id: id@,
                old_content: old_content@,
                new_content: new_content@,
            },
            Request::CreateMention { from, to } => RequestView::CreateMention {
                from: from@,
                to: to@,
            },
            Request::DeleteMention { from, to } => RequestView::DeleteMention {
                from: from@,
                to: to@,
            },
            Request::DeleteNode { id, expected_version } => RequestView::DeleteNode {
                id: id@,
                expected_version,
            },
            Request::ReorderChild { id, after } => RequestView::ReorderChild {
                id: id@,
                after: optional_text(after),
            },
            Request::BumpVersion { id, expected_version } => RequestView::BumpVersion {
                id: id@,
                expected_version,
            },
            Request::ValidateBehavior { node } => RequestView::ValidateBehavior {
                node: node@,
            },
            Request::IsEmbeddable { node_type } => RequestView::IsEmbeddable {
                node_type: node_type@,
            },
            Request::ValidatePlaybook { properties } => RequestView::ValidatePlaybook {
                properties: properties@,
            },
            Request::PopulateMentions { node } => RequestView::PopulateMentions {
                node: node@,
            },
            Request::Migrate { node, target } => RequestView::Migrate {
                node: node@,
                target,
            },
            Request::StripMarkdown { content } => RequestView::StripMarkdown {
                content: content@,
            },
            Request::InterpolateTitle { template, properties, node_type } => RequestView::InterpolateTitle {
                template: template@,
                properties: properties@,
                node_type: node_type@,
            },
            Request::Emit { event } => RequestView::Emit {
                event: event@,
            },
            Request::WakeEmbedder => RequestView::WakeEmbedder,
            Request::Pause { millis } => RequestView::Pause {
                millis,
            },
            Request::VersionedUpdate { id, expected_version, update } => RequestView::VersionedUpdate {
                id: id@,
                expected_version,
                update: update@,
            },
            Request::LoadRelationships { node_type } => RequestView::LoadRelationships {
                node_type: node_type@,
            },
            Request::LoadSchemaRelationships { node_type } => RequestView::LoadSchemaRelationships {
                node_type: node_type@,
            },
            Request::HasEdge { source, relationship } => RequestView::HasEdge {
                source: source@,
                relationship: relationship@,
            },
            Request::FindEdge { source, target, relationship } => RequestView::FindEdge {
                source: source@,
                target: target@,
                relationship: relationship@,
            },
            Request::AddToCollection { source, target } => RequestView::AddToCollection {
                source: source@,
                target: target@,
            },
            Request::LoadMemberOrder { source, target } => RequestView::LoadMemberOrder {
                source: source@,
                target: target@,
            },
            Request::NextChildOrder { id } => RequestView::NextChildOrder {
                id: id@,
            },
            Request::Relate { source, target, relationship, properties } => RequestView::Relate {
                source: source@,
                target: target@,
                relationship: relationship@,
                properties: properties@,
            },
            Request::DeleteEdge { source, target, relationship } => RequestView::DeleteEdge {
                source: source@,
                target: target@,
                relationship: relationship@,
            },
            Request::LoadRelated { id, relationship, outgoing } => RequestView::LoadRelated {
                id: id@,
                relationship: relationship@,
                outgoing,
            },
            Request::Describe { error } => RequestView::Describe {
                error: error@,
            },
            Request::LoadNodes { ids } => RequestView::LoadNodes {
                ids: texts(ids@),
            },
            Request::StoreBatch { nodes } => RequestView::StoreBatch {
                nodes: node_views(nodes@),
            },
            Request::StoreHierarchy { nodes, root_only } => RequestView::StoreHierarchy {
                nodes: bulk_views(nodes@),
                root_only,
            },
            Request::CreateStaleMarkers { ids } => RequestView::CreateStaleMarkers {
                ids: texts(ids@),
            },
            Request::StoreBulkUpdate { updates } => RequestView::StoreBulkUpdate {
                updates: update_views(updates@),
            },
            Request::StoreBulkDelete { ids } => RequestView::StoreBulkDelete {
                ids: texts(ids@),
            },
            Request::CacheSchemas { ids } => RequestView::CacheSchemas {
                ids: texts(ids@),
            },
            Request::QueryByType { node_type } => RequestView::QueryByType {
                node_type: node_type@,
            },
            Request::CreateNodeWithParent { params } => RequestView::CreateNodeWithParent {
                params: params@,
            },
            Request::BulkCreateHierarchy { nodes } => RequestView::BulkCreateHierarchy {
                nodes: bulk_views(nodes@),
            },
            Request::QueryStore { query } => RequestView::QueryStore {
                query: query@,
            },
            Request::LoadSubtree { root_id } => RequestView::LoadSubtree {
                root_id: root_id@,
            },
            Request::LoadMentionContainers { id } => RequestView::LoadMentionContainers {
                id: id@,
            },
            Request::Render { nodes } => RequestView::Render {
                nodes: node_views(nodes@),
            },
            Request::LoadChildren { id } => RequestView::LoadChildren {
                id: id@,
            },
            Request::LoadParent { id } => RequestView::LoadParent {
                id: id@,
            },
            Request::LoadRoots { limit, offset } => RequestView::LoadRoots {
                limit,
                offset,
            },
            Request::LoadDescendants { id } => RequestView::LoadDescendants {
                id: id@,
            },
            Request::SearchMentionable { query, limit } => RequestView::SearchMentionable {
                query: query@,
                limit,
            },
            Request::StoreDelete { id } => RequestView::StoreDelete {
                id: id@,
            },
            Request::LoadMentions { id } => RequestView::LoadMentions {
                id: id@,
            },
            Request::LoadMentionedBy { id } => RequestView::LoadMentionedBy {
                id: id@,
            },
            Request::LoadTask { id } => RequestView::LoadTask {
                id: id@,
            },
            Request::LoadSchemaNode { id } => RequestView::LoadSchemaNode {
                id: id@,
            },
            Request::LoadAllSchemas => RequestView::LoadAllSchemas,
            Request::OwnContent { node } => RequestView::OwnContent {
                node: node@,
            },
            Request::AggregatedContent { node } => RequestView::AggregatedContent {
                node: node@,
            },
            Request::ExtractContent { node } => RequestView::ExtractContent {
                node: node@,
            },
            Request::EmbedText { text } => RequestView::EmbedText {
                text: text@,
            },
            Request::StoreEmbeddings { root_id, content_hash, chunks } => RequestView::StoreEmbeddings {
                root_id: root_id@,
                content_hash: content_hash@,
                chunks: chunks@,
            },
            Request::DeleteEmbeddings { id } => RequestView::DeleteEmbeddings {
                id: id@,
            },
            Request::StaleRoots { limit, debounce, max_retries } => RequestView::StaleRoots {
                limit,
                debounce,
                max_retries,
            },
            Request::HasPendingStale { debounce, max_retries } => RequestView::HasPendingStale {
                debounce,
                max_retries,
            },
            Request::EmbedRoot { id } => RequestView::EmbedRoot {
                id: id@,
            },
            Request::RecordEmbeddingError { id, error, max_retries } => RequestView::RecordEmbeddingError {
                id: id@,
                error: error@,
                max_retries,
            },
            Request::FindRoot { id } => RequestView::FindRoot {
                id: id@,
            },
            Request::QueueForEmbedding { id } => RequestView::QueueForEmbedding {
                id: id@,
            },
            Request::EmbedQuery { text } => RequestView::EmbedQuery {
                text: text@,
            },
            Request::HybridSearch { query, limit, threshold, keyword_limit } => RequestView::HybridSearch {
                query: query@,
                limit,
                threshold,
                keyword_limit,
            },
            Request::SearchByType { node_type, limit, threshold } => RequestView::SearchByType {
                node_type: node_type@,
                limit,
                threshold,
            },
            Request::Boost { scores } => RequestView::Boost {
                scores: scores@,
            },
            Request::SemanticSearch { query, limit, threshold } => RequestView::SemanticSearch {
                query: query@,
                limit,
                threshold,
            },
            Request::MatchFilters { nodes } => RequestView::MatchFilters {
                nodes: node_views(nodes@),
            },
            Request::ParseRules { properties } => RequestView::ParseRules {
                properties: properties@,
            },
            Request::ParseRule { properties, index } => RequestView::ParseRule {
                properties: properties@,
                index,
            },
            Request::ValidateRules { properties } => RequestView::ValidateRules {
                properties: properties@,
            },
            Request::CheckBehavior { node } => RequestView::CheckBehavior {
                node: node@,
            },
            Request::StoreTaskUpdate { id, expected_version, update } => RequestView::StoreTaskUpdate {
                id: id@,
                expected_version,
                update: update@,
            },
            Request::StoreUpsert { new_parent, new_node, id, content, parent, after } => RequestView::StoreUpsert {
                new_parent: optional_node(new_parent),
                new_node: optional_node(new_node),
                id: id@,
                content: content@,
                parent: parent@,
                after: optional_text(after),
            },
        }
    }
}

/// What came of a request.
#[derive(Debug)]
#[allow(inconsistent_fields)]
pub enum Reply {
    /// The call failed.
    Failed { message: String },
    /// The operation that was asked for ended in an error.
    Refused { error: NodeServiceError },
    /// It is done.
    Done,
    /// A node, or none.
    Node { node: Option<Node> },
    /// Nodes.
    Nodes { nodes: Vec<Node> },
    /// A text.
    Text { text: String },
    /// An identifier or another text, or none.
    MaybeText { text: Option<String> },
    /// Yes or no.
    Flag { value: bool },
    /// A number.
    Count { value: usize },
    /// The order of a child among its siblings.
    Order { order: Value },
    /// A schema and its fields, as far as there are any.
    Schema { schema: Option<Value>, fields: Option<Vec<SchemaField>> },
    /// The call succeeded but its result could not be read.
    Garbled { message: String },
    /// Texts.
    Texts { items: Vec<String> },
    /// The relationships that a schema defines, if there is a schema.
    Relationships { relationships: Option<Vec<SchemaRelationship>> },
    /// The order of a member, if it has one.
    MaybeOrder { order: Option<Value> },
    /// The call failed at one of several nodes.
    FailedAt { id: String, message: String },
    /// A node with all nodes below it and the edges between them.
    Subtree { nodes: Vec<Node>, edges: Vec<ChildEdge> },
    /// References to nodes.
    References { items: Vec<NodeReference> },
    /// The values of nodes.
    Values { values: Vec<Value> },
    /// A value, or none.
    MaybeValue { value: Option<Value> },
    /// What the two searches found.
    Found { hits: Vec<SearchHit>, keyword_roots: Vec<String> },
    /// The search by vector failed.
    VectorSearchFailed { message: String },
    /// The search by keyword failed.
    KeywordSearchFailed { message: String },
    /// What a search found.
    Hits { hits: Vec<SearchHit> },
    /// Scores.
    Scores { scores: Vec<Number> },
    /// Several answers of yes or no.
    Flags { values: Vec<bool> },
    /// A JSON value.
    Json { value: Value },
    /// The request failed: the whole chain of causes, the first of them, and what the error displays.
    FailedBecause { full: String, root: String, shown: String },
}

/// The mathematical value of a [`Reply`].
#[verifier::ext_equal]
#[allow(inconsistent_fields)]
pub enum ReplyView {
    Failed { message: Seq<char> },
    Refused { error: ErrorView },
    Done,
    Node { node: Option<NodeView> },
    Nodes { nodes: Seq<NodeView> },
    Text { text: Seq<char> },
    MaybeText { text: Option<Seq<char>> },
    Flag { value: bool },
    Count { value: usize },
    Order { order: Json },
    Schema { schema: Option<Json>, fields: Option<Seq<SchemaFieldView>> },
    Garbled { message: Seq<char> },
    Texts { items: Seq<Seq<char>> },
    Relationships { relationships: Option<Seq<SchemaRelationshipView>> },
    MaybeOrder { order: Option<Json> },
    FailedAt { id: Seq<char>, message: Seq<char> },
    Subtree { nodes: Seq<NodeView>, edges: Seq<ChildEdgeView> },
    References { items: Seq<NodeReferenceView> },
    Values { values: Seq<Json> },
    MaybeValue { value: Option<Json> },
    Found { hits: Seq<SearchHitView>, keyword_roots: Seq<Seq<char>> },
    VectorSearchFailed { message: Seq<char> },
    KeywordSearchFailed { message: Seq<char> },
    Hits { hits: Seq<SearchHitView> },
    Scores { scores: Seq<Number> },
    Flags { values: Seq<bool> },
    Json { value: Json },
    FailedBecause { full: Seq<char>, root: Seq<char>, shown: Seq<char> },
}

impl View for Reply {
    type V = ReplyView;

    open spec fn view(&self) -> ReplyView {
        match *self {
            Reply::Failed { message } => ReplyView::Failed {
                message: message@,
            },
            Reply::Refused { error } => ReplyView::Refused {
                error: error@,
            },
            Reply::Done => ReplyView::Done,
            Reply::Node { node } => ReplyView::Node {
                node: optional_node(node),
            },
            Reply::Nodes { nodes } => ReplyView::Nodes {
                nodes: node_views(nodes@),
            },
            Reply::Text { text } => ReplyView::Text {
                text: text@,
            },
            Reply::MaybeText { text } => ReplyView::MaybeText {
                text: optional_text(text),
            },
            Reply::Flag { value } => ReplyView::Flag {
                value,
            },
            Reply::Count { value } => ReplyView::Count {
                value,
            },
            Reply::Order { order } => ReplyView::Order {
                order: order@,
            },
            Reply::Schema { schema, fields } => ReplyView::Schema {
                schema: optional_json(schema),
                fields: optional_fields(fields),
            },
            Reply::Garbled { message } => ReplyView::Garbled {
                message: message@,
            },
            Reply::Texts { items } => ReplyView::Texts {
                items: texts(items@),
            },
            Reply::Relationships { relationships } => ReplyView::Relationships {
                relationships: optional_relationships(relationships),
            },
            Reply::MaybeOrder { order } => ReplyView::MaybeOrder {
                order: optional_json(order),
            },
            Reply::FailedAt { id, message } => ReplyView::FailedAt {
                id: id@,
                message: message@,
            },
            Reply::Subtree { nodes, edges } => ReplyView::Subtree {
                nodes: node_views(nodes@),
                edges: edge_views(edges@),
            },
            Reply::References { items } => ReplyView::References {
                items: references(items@),
            },
            Reply::Values { values } => ReplyView::Values {
                values: list_view(values@),
            },
            Reply::MaybeValue { value } => ReplyView::MaybeValue {
                value: optional_json(value),
            },
            Reply::Found { hits, keyword_roots } => ReplyView::Found {
                hits: hit_views(hits@),
                keyword_roots: texts(keyword_roots@),
            },
            Reply::VectorSearchFailed { message } => ReplyView::VectorSearchFailed {
                message: message@,
            },
            Reply::KeywordSearchFailed { message } => ReplyView::KeywordSearchFailed {
                message: message@,
            },
            Reply::Hits { hits } => ReplyView::Hits {
                hits: hit_views(hits@),
            },
            Reply::Scores { scores } => ReplyView::Scores {
                scores: scores@,
            },
            Reply::Flags { values } => ReplyView::Flags {
                values: values@,
            },
            Reply::Json { value } => ReplyView::Json {
                value: value@,
            },
            Reply::FailedBecause { full, root, shown } => ReplyView::FailedBecause {
                full: full@,
                root: root@,
                shown: shown@,
            },
        }
    }
}

/// What an operation gives its caller.
#[derive(Debug)]
#[allow(inconsistent_fields)]
pub enum Outcome {
    Nothing,
    Id { id: String },
    Title { title: Option<String> },
    Node { node: Node },
    MaybeNode { node: Option<Node> },
    Deleted { existed: bool },
    Flag { value: bool },
    Nodes { nodes: Vec<Node> },
    Completeness { result: CompletenessResult },
    Ids { ids: Vec<String> },
    Subtree { data: SubtreeData },
    Json { value: Value },
    MaybeJson { value: Option<Value> },
    Values { values: Vec<Value> },
    References { items: Vec<NodeReference> },
    Count { count: usize },
    Content { text: Option<String> },
    Hits { hits: Vec<SearchHit> },
}

/// The mathematical value of an [`Outcome`].
#[verifier::ext_equal]
#[allow(inconsistent_fields)]
pub enum OutcomeView {
    Nothing,
    Id { id: Seq<char> },
    Title { title: Option<Seq<char>> },
    Node { node: NodeView },
    MaybeNode { node: Option<NodeView> },
    Deleted { existed: bool },
    Flag { value: bool },
    Nodes { nodes: Seq<NodeView> },
    Completeness { result: CompletenessResultView },
    Ids { ids: Seq<Seq<char>> },
    Subtree { data: SubtreeDataView },
    Json { value: Json },
    MaybeJson { value: Option<Json> },
    Values { values: Seq<Json> },
    References { items: Seq<NodeReferenceView> },
    Count { count: usize },
    Content { text: Option<Seq<char>> },
    Hits { hits: Seq<SearchHitView> },
}

impl View for Outcome {
    type V = OutcomeView;

    open spec fn view(&self) -> OutcomeView {
        match *self {
            Outcome::Nothing => OutcomeView::Nothing,
            Outcome::Id { id } => OutcomeView::Id {
                id: id@,
            },
            Outcome::Title { title } => OutcomeView::Title {
                title: optional_text(title),
            },
            Outcome::Node { node } => OutcomeView::Node {
                node: node@,
            },
            Outcome::MaybeNode { node } => OutcomeView::MaybeNode {
                node: optional_node(node),
            },
            Outcome::Deleted { existed } => OutcomeView::Deleted {
                existed,
            },
            Outcome::Flag { value } => OutcomeView::Flag {
                value,
            },
            Outcome::Nodes { nodes } => OutcomeView::Nodes {
                nodes: node_views(nodes@),
            },
            Outcome::Completeness { result } => OutcomeView::Completeness {
                result: result@,
            },
            Outcome::Ids { ids } => OutcomeView::Ids {
                ids: texts(ids@),
            },
            Outcome::Subtree { data } => OutcomeView::Subtree {
                data: data@,
            },
            Outcome::Json { value } => OutcomeView::Json {
                value: value@,
            },
            Outcome::MaybeJson { value } => OutcomeView::MaybeJson {
                value: optional_json(value),
            },
            Outcome::Values { values } => OutcomeView::Values {
                values: list_view(values@),
            },
            Outcome::References { items } => OutcomeView::References {
                items: references(items@),
            },
            Outcome::Count { count } => OutcomeView::Count {
                count,
            },
            Outcome::Content { text } => OutcomeView::Content {
                text: optional_text(text),
            },
            Outcome::Hits { hits } => OutcomeView::Hits {
                hits: hit_views(hits@),
            },
        }
    }
}

/// The next thing that an operation wants.
#[derive(Debug)]
pub enum Step {
    /// Perform the request, then call again with its reply added.
    Ask(Request),
    /// The operation succeeded.
    Finish(Outcome),
    /// The operation failed.
    Fail(NodeServiceError),
    /// The last reply is of a kind that does not answer the last request.
    Mismatch,
}

/// The mathematical value of a [`Step`].
#[verifier::ext_equal]
pub enum StepView {
    Ask(RequestView),
    Finish(OutcomeView),
    Fail(ErrorView),
    Mismatch,
}

impl View for Step {
    type V = StepView;

    open spec fn view(&self) -> StepView {
        match *self {
            Step::Ask(r) => StepView::Ask(r@),
            Step::Finish(o) => StepView::Finish(o@),
            Step::Fail(e) => StepView::Fail(e@),
            Step::Mismatch => StepView::Mismatch,
        }
    }
}

/// The replies from some position on.
#[verifier::opaque]
pub open spec fn replies_from(log: Seq<Reply>, from: int) -> Seq<ReplyView> {
    log.skip(from).map_values(|r: Reply| r@)
}

/// All replies.
#[verifier::opaque]
pub open spec fn replies(log: Seq<Reply>) -> Seq<ReplyView> {
    log.map_values(|r: Reply| r@)
}

pub broadcast proof fn lemma_replies_len(log: Seq<Reply>, from: int)
    requires
        0 <= from <= log.len(),
    ensures
        #![trigger replies_from(log, from)]
        replies_from(log, from).len() == log.len() - from,
{
    reveal(replies_from);
}

pub broadcast proof fn lemma_replies_at(log: Seq<Reply>, from: int, i: int)
    requires
        0 <= from <= log.len(),
        0 <= i < log.len() - from,
    ensures
        #![trigger replies_from(log, from)[i]]
        replies_from(log, from)[i] == log[from + i]@,
{
    reveal(replies_from);
}

pub broadcast proof fn lemma_replies_skip(log: Seq<Reply>, from: int, n: int)
    requires
        0 <= from <= log.len(),
        0 <= n <= log.len() - from,
    ensures
        #![trigger replies_from(log, from).skip(n)]
        replies_from(log, from).skip(n) == replies_from(log, from + n),
{
    reveal(replies_from);
    assert(replies_from(log, from).skip(n) =~= replies_from(log, from + n));
}

pub broadcast proof fn lemma_replies_start(log: Seq<Reply>)
    ensures
        #![trigger replies(log)]
        replies(log) == replies_from(log, 0),
{
    reveal(replies_from);
    reveal(replies);
    assert(log.skip(0) =~= log);
}

pub broadcast group group_replies {
    lemma_replies_len,
    lemma_replies_at,
    lemma_replies_skip,
    lemma_replies_start,
}

} // verus!
