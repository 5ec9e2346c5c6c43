//! Nodes and the schema definitions that describe their properties.

use crate::json::{Json, Value};
use vstd::prelude::*;

verus! {

/// The text that an optional string holds.
pub open spec fn optional_text(text: Option<String>) -> Option<Seq<char>> {
    match text {
        Some(s) => Some(s@),
        None => None,
    }
}

/// The texts of some strings.
pub open spec fn texts(strings: Seq<String>) -> Seq<Seq<char>> {
    strings.map_values(|s: String| s@)
}

pub fn clone_optional(text: &Option<String>) -> (r: Option<String>)
    ensures
        optional_text(r) == optional_text(*text),
{
    match text {
        Some(s) => Some(s.clone()),
        None => None,
    }
}

pub fn clone_texts(strings: &Vec<String>) -> (r: Vec<String>)
    ensures
        texts(r@) == texts(strings@),
{
    let mut out: Vec<String> = Vec::new();
    let mut i: usize = 0;
    while i < strings.len()
        invariant
            i <= strings@.len(),
            out@.len() == i,
            forall|j: int| 0 <= j < i ==> (#[trigger] out@[j])@ == strings@[j]@,
        decreases strings@.len() - i,
    {
        out.push(strings[i].clone());
        i += 1;
    }
    proof {
        assert(texts(out@) =~= texts(strings@));
    }
    out
}

/// A node that mentions another, as its backlinks list it.
#[derive(Debug)]
pub struct NodeReference {
    pub id: String,
    pub title: Option<String>,
    pub node_type: String,
}

#[verifier::ext_equal]
pub struct NodeReferenceView {
    pub id: Seq<char>,
    pub title: Option<Seq<char>>,
    pub node_type: Seq<char>,
}

impl View for NodeReference {
    type V = NodeReferenceView;

    open spec fn view(&self) -> NodeReferenceView {
        NodeReferenceView {
            id: self.id@,
            title: optional_text(self.title),
            node_type: self.node_type@,
        }
    }
}

impl Clone for NodeReference {
    fn clone(&self) -> (r: NodeReference)
        ensures
            r@ == self@,
    {
        NodeReference {
            id: self.id.clone(),
            title: clone_optional(&self.title),
            node_type: self.node_type.clone(),
        }
    }
}

pub open spec fn references(items: Seq<NodeReference>) -> Seq<NodeReferenceView> {
    items.map_values(|r: NodeReference| r@)
}

pub fn clone_references(items: &Vec<NodeReference>) -> (r: Vec<NodeReference>)
    ensures
        references(r@) == references(items@),
{
    let mut out: Vec<NodeReference> = Vec::new();
    let mut i: usize = 0;
    while i < items.len()
        invariant
            i <= items@.len(),
            out@.len() == i,
            forall|j: int| 0 <= j < i ==> (#[trigger] out@[j])@ == items@[j]@,
        decreases items@.len() - i,
    {
        out.push((&items[i]).clone());
        i += 1;
    }
    proof {
        assert(references(out@) =~= references(items@));
    }
    out
}

/// A node. Times are nanoseconds since the Unix epoch.
#[derive(Debug)]
pub struct Node {
    pub id: String,
    pub node_type: String,
    pub content: String,
    pub version: i64,
    pub created_at: i64,
    pub modified_at: i64,
    pub properties: Value,
    pub mentions: Vec<String>,
    pub mentioned_in: Vec<NodeReference>,
    pub title: Option<String>,
    pub lifecycle_status: String,
}

/// The mathematical value of a [`Node`].
#[verifier::ext_equal]
pub struct NodeView {
    pub id: Seq<char>,
    pub node_type: Seq<char>,
    pub content: Seq<char>,
    pub version: i64,
    pub created_at: i64,
    pub modified_at: i64,
    pub properties: Json,
    pub mentions: Seq<Seq<char>>,
    pub mentioned_in: Seq<NodeReferenceView>,
    pub title: Option<Seq<char>>,
    pub lifecycle_status: Seq<char>,
}

impl View for Node {
    type V = NodeView;

    open spec fn view(&self) -> NodeView {
        NodeView {
            id: self.id@,
            node_type: self.node_type@,
            content: self.content@,
            version: self.version,
            created_at: self.created_at,
            modified_at: self.modified_at,
            properties: self.properties@,
            mentions: texts(self.mentions@),
            mentioned_in: references(self.mentioned_in@),
            title: optional_text(self.title),
            lifecycle_status: self.lifecycle_status@,
        }
    }
}

impl Clone for Node {
    fn clone(&self) -> (r: Node)
        ensures
            r@ == self@,
    {
        Node {
            id: self.id.clone(),
            node_type: self.node_type.clone(),
            content: self.content.clone(),
            version: self.version,
            created_at: self.created_at,
            modified_at: self.modified_at,
            properties: self.properties.clone(),
            mentions: clone_texts(&self.mentions),
            mentioned_in: clone_references(&self.mentioned_in),
            title: clone_optional(&self.title),
            lifecycle_status: self.lifecycle_status.clone(),
        }
    }
}

pub open spec fn node_views(nodes: Seq<Node>) -> Seq<NodeView> {
    nodes.map_values(|n: Node| n@)
}

pub fn clone_nodes(nodes: &Vec<Node>) -> (r: Vec<Node>)
    ensures
        node_views(r@) == node_views(nodes@),
{
    let mut out: Vec<Node> = Vec::new();
    let mut i: usize = 0;
    while i < nodes.len()
        invariant
            i <= nodes@.len(),
            out@.len() == i,
            forall|j: int| 0 <= j < i ==> (#[trigger] out@[j])@ == nodes@[j]@,
        decreases nodes@.len() - i,
    {
        out.push((&nodes[i]).clone());
        i += 1;
    }
    proof {
        assert(node_views(out@) =~= node_views(nodes@));
    }
    out
}

/// One of the values that an enum field takes.
#[derive(Debug)]
pub struct EnumValue {
    pub value: String,
    pub label: String,
}

#[verifier::ext_equal]
pub struct EnumValueView {
    pub value: Seq<char>,
    pub label: Seq<char>,
}

impl View for EnumValue {
    type V = EnumValueView;

    open spec fn view(&self) -> EnumValueView {
        EnumValueView { value: self.value@, label: self.label@ }
    }
}

/// A field that a schema defines for the nodes of its type.
#[derive(Debug)]
pub struct SchemaField {
    pub name: String,
    pub field_type: String,
    pub required: Option<bool>,
    pub default: Option<Value>,
    pub core_values: Option<Vec<EnumValue>>,
    pub user_values: Option<Vec<EnumValue>>,
}

#[verifier::ext_equal]
pub struct SchemaFieldView {
    pub name: Seq<char>,
    pub field_type: Seq<char>,
    pub required: Option<bool>,
    pub default: Option<Json>,
    pub core_values: Option<Seq<EnumValueView>>,
    pub user_values: Option<Seq<EnumValueView>>,
}

impl SchemaFieldView {
    /// The values of an enum field: those that ship with the schema, then the user's own.
    pub open spec fn values(self) -> Seq<EnumValueView> {
        listed_values(self.core_values) + listed_values(self.user_values)
    }
}

pub open spec fn listed_values(values: Option<Seq<EnumValueView>>) -> Seq<EnumValueView> {
    match values {
        Some(v) => v,
        None => Seq::empty(),
    }
}

pub open spec fn optional_json(value: Option<Value>) -> Option<Json> {
    match value {
        Some(v) => Some(v@),
        None => None,
    }
}

pub open spec fn optional_values(values: Option<Vec<EnumValue>>) -> Option<Seq<EnumValueView>> {
    match values {
        Some(v) => Some(v@.map_values(|e: EnumValue| e@)),
        None => None,
    }
}

pub open spec fn enum_values(values: Option<Vec<EnumValue>>) -> Seq<EnumValueView> {
    listed_values(optional_values(values))
}

impl View for SchemaField {
    type V = SchemaFieldView;

    open spec fn view(&self) -> SchemaFieldView {
        SchemaFieldView {
            name: self.name@,
            field_type: self.field_type@,
            required: self.required,
            default: optional_json(self.default),
            core_values: optional_values(self.core_values),
            user_values: optional_values(self.user_values),
        }
    }
}

pub open spec fn fields_view(fields: Seq<SchemaField>) -> Seq<SchemaFieldView> {
    fields.map_values(|f: SchemaField| f@)
}

pub open spec fn optional_fields(fields: Option<Vec<SchemaField>>) -> Option<Seq<SchemaFieldView>> {
    match fields {
        Some(f) => Some(fields_view(f@)),
        None => None,
    }
}

pub open spec fn optional_node(node: Option<Node>) -> Option<NodeView> {
    match node {
        Some(n) => Some(n@),
        None => None,
    }
}

/// A change of a node. What is `None` stays as it is; a title may be replaced by no title.
#[derive(Debug)]
pub struct NodeUpdate {
    pub node_type: Option<String>,
    pub content: Option<String>,
    pub properties: Option<Value>,
    pub title: Option<Option<String>>,
    pub lifecycle_status: Option<String>,
}

#[verifier::ext_equal]
pub struct NodeUpdateView {
    pub node_type: Option<Seq<char>>,
    pub content: Option<Seq<char>>,
    pub properties: Option<Json>,
    pub title: Option<Option<Seq<char>>>,
    pub lifecycle_status: Option<Seq<char>>,
}

impl View for NodeUpdate {
    type V = NodeUpdateView;

    open spec fn view(&self) -> NodeUpdateView {
        NodeUpdateView {
            node_type: optional_text(self.node_type),
            content: optional_text(self.content),
            properties: optional_json(self.properties),
            title: match self.title {
                Some(t) => Some(optional_text(t)),
                None => None,
            },
            lifecycle_status: optional_text(self.lifecycle_status),
        }
    }
}

impl NodeUpdateView {
    /// The update changes nothing.
    pub open spec fn empty(self) -> bool {
        self.node_type is None && self.content is None && self.properties is None && self.title is None
            && self.lifecycle_status is None
    }
}

impl NodeUpdate {
    pub fn is_empty(&self) -> (r: bool)
        ensures
            r == self@.empty(),
    {
        self.node_type.is_none() && self.content.is_none() && self.properties.is_none()
            && self.title.is_none() && self.lifecycle_status.is_none()
    }
}

/// A change of the fields of a task. A field that may be empty is cleared with an inner `None`.
#[derive(Debug)]
pub struct TaskNodeUpdate {
    pub status: Option<String>,
    pub priority: Option<Option<String>>,
    pub due_date: Option<Option<i64>>,
    pub assignee: Option<Option<String>>,
    pub content: Option<String>,
}

#[verifier::ext_equal]
pub struct TaskNodeUpdateView {
    pub status: Option<Seq<char>>,
    pub priority: Option<Option<Seq<char>>>,
    pub due_date: Option<Option<i64>>,
    pub assignee: Option<Option<Seq<char>>>,
    pub content: Option<Seq<char>>,
}

impl View for TaskNodeUpdate {
    type V = TaskNodeUpdateView;

    open spec fn view(&self) -> TaskNodeUpdateView {
        TaskNodeUpdateView {
            status: optional_text(self.status),
            priority: match self.priority {
                Some(p) => Some(optional_text(p)),
                None => None,
            },
            due_date: self.due_date,
            assignee: match self.assignee {
                Some(a) => Some(optional_text(a)),
                None => None,
            },
            content: optional_text(self.content),
        }
    }
}

impl TaskNodeUpdateView {
    /// The update changes nothing.
    pub open spec fn empty(self) -> bool {
        self.status is None && self.priority is None && self.due_date is None && self.assignee is None
            && self.content is None
    }
}

impl TaskNodeUpdate {
    /// An update that changes nothing.
    pub fn new() -> (r: TaskNodeUpdate)
        ensures
            r@.empty(),
    {
        TaskNodeUpdate { status: None, priority: None, due_date: None, assignee: None, content: None }
    }

    pub fn is_empty(&self) -> (r: bool)
        ensures
            r == self@.empty(),
    {
        self.status.is_none() && self.priority.is_none() && self.due_date.is_none()
            && self.assignee.is_none() && self.content.is_none()
    }
}

impl Clone for TaskNodeUpdate {
    fn clone(&self) -> (r: TaskNodeUpdate)
        ensures
            r@ == self@,
    {
        TaskNodeUpdate {
            status: clone_optional(&self.status),
            priority: match &self.priority {
                Some(p) => Some(clone_optional(p)),
                None => None,
            },
            due_date: self.due_date,
            assignee: match &self.assignee {
                Some(a) => Some(clone_optional(a)),
                None => None,
            },
            content: clone_optional(&self.content),
        }
    }
}

/// How many edges of a relationship a node may have.
#[derive(Clone, Copy, Debug, PartialEq, Eq, Structural)]
pub enum RelationshipCardinality {
    One,
    Many,
}

/// A relationship that a schema defines for the nodes of its type. Without a target type any node may
/// be its target.
#[derive(Debug)]
pub struct SchemaRelationship {
    pub name: String,
    pub target_type: Option<String>,
    pub cardinality: RelationshipCardinality,
    pub required: Option<bool>,
}

#[verifier::ext_equal]
pub struct SchemaRelationshipView {
    pub name: Seq<char>,
    pub target_type: Option<Seq<char>>,
    pub cardinality: RelationshipCardinality,
    pub required: Option<bool>,
}

impl View for SchemaRelationship {
    type V = SchemaRelationshipView;

    open spec fn view(&self) -> SchemaRelationshipView {
        SchemaRelationshipView {
            name: self.name@,
            target_type: optional_text(self.target_type),
            cardinality: self.cardinality,
            required: self.required,
        }
    }
}

impl Clone for SchemaRelationship {
    fn clone(&self) -> (r: SchemaRelationship)
        ensures
            r@ == self@,
    {
        SchemaRelationship {
            name: self.name.clone(),
            target_type: clone_optional(&self.target_type),
            cardinality: self.cardinality,
            required: self.required,
        }
    }
}

pub open spec fn relationship_views(items: Seq<SchemaRelationship>) -> Seq<SchemaRelationshipView> {
    items.map_values(|r: SchemaRelationship| r@)
}

pub open spec fn optional_relationships(items: Option<Vec<SchemaRelationship>>) -> Option<
    Seq<SchemaRelationshipView>,
> {
    match items {
        Some(v) => Some(relationship_views(v@)),
        None => None,
    }
}

/// Whether a node has all the relationships that its schema requires, and which are missing.
#[derive(Debug)]
pub struct CompletenessResult {
    pub node_id: String,
    pub is_complete: bool,
    pub missing_relationships: Vec<String>,
}

#[verifier::ext_equal]
pub struct CompletenessResultView {
    pub node_id: Seq<char>,
    pub is_complete: bool,
    pub missing_relationships: Seq<Seq<char>>,
}

impl View for CompletenessResult {
    type V = CompletenessResultView;

    open spec fn view(&self) -> CompletenessResultView {
        CompletenessResultView {
            node_id: self.node_id@,
            is_complete: self.is_complete,
            missing_relationships: texts(self.missing_relationships@),
        }
    }
}

impl Clone for NodeUpdate {
    fn clone(&self) -> (r: NodeUpdate)
        ensures
            r@ == self@,
    {
        NodeUpdate {
            node_type: clone_optional(&self.node_type),
            content: clone_optional(&self.content),
            properties: match &self.properties {
                Some(p) => Some(p.clone()),
                None => None,
            },
            title: match &self.title {
                Some(t) => Some(clone_optional(t)),
                None => None,
            },
            lifecycle_status: clone_optional(&self.lifecycle_status),
        }
    }
}

pub open spec fn update_views(updates: Seq<(String, NodeUpdate)>) -> Seq<
    (Seq<char>, NodeUpdateView),
> {
    updates.map_values(|u: (String, NodeUpdate)| (u.0@, u.1@))
}

pub fn clone_updates(updates: &Vec<(String, NodeUpdate)>) -> (r: Vec<(String, NodeUpdate)>)
    ensures
        update_views(r@) == update_views(updates@),
{
    let mut out: Vec<(String, NodeUpdate)> = Vec::new();
    let mut i: usize = 0;
    while i < updates.len()
        invariant
            i <= updates@.len(),
            out@.len() == i,
            forall|j: int|
                0 <= j < i ==> (#[trigger] out@[j]).0@ == updates@[j].0@ && out@[j].1@ == updates@[j].1@,
        decreases updates@.len() - i,
    {
        let update = &updates[i];
        out.push((update.0.clone(), (&update.1).clone()));
        i += 1;
    }
    proof {
        assert(update_views(out@) =~= update_views(updates@));
    }
    out
}

/// A node with its place in the tree, as imports hand it over.
#[derive(Debug)]
pub struct BulkNode {
    pub id: String,
    pub node_type: String,
    pub content: String,
    pub parent_id: Option<String>,
    pub order: Value,
    pub properties: Value,
}

#[verifier::ext_equal]
pub struct BulkNodeView {
    pub id: Seq<char>,
    pub node_type: Seq<char>,
    pub content: Seq<char>,
    pub parent_id: Option<Seq<char>>,
    pub order: Json,
    pub properties: Json,
}

impl View for BulkNode {
    type V = BulkNodeView;

    open spec fn view(&self) -> BulkNodeView {
        BulkNodeView {
            id: self.id@,
            node_type: self.node_type@,
            content: self.content@,
            parent_id: optional_text(self.parent_id),
            order: self.order@,
            properties: self.properties@,
        }
    }
}

impl Clone for BulkNode {
    fn clone(&self) -> (r: BulkNode)
        ensures
            r@ == self@,
    {
        BulkNode {
            id: self.id.clone(),
            node_type: self.node_type.clone(),
            content: self.content.clone(),
            parent_id: clone_optional(&self.parent_id),
            order: self.order.clone(),
            properties: self.properties.clone(),
        }
    }
}

pub open spec fn bulk_views(nodes: Seq<BulkNode>) -> Seq<BulkNodeView> {
    nodes.map_values(|n: BulkNode| n@)
}

pub fn clone_bulk_nodes(nodes: &Vec<BulkNode>) -> (r: Vec<BulkNode>)
    ensures
        bulk_views(r@) == bulk_views(nodes@),
{
    let mut out: Vec<BulkNode> = Vec::new();
    let mut i: usize = 0;
    while i < nodes.len()
        invariant
            i <= nodes@.len(),
            out@.len() == i,
            forall|j: int| 0 <= j < i ==> (#[trigger] out@[j])@ == nodes@[j]@,
        decreases nodes@.len() - i,
    {
        out.push((&nodes[i]).clone());
        i += 1;
    }
    proof {
        assert(bulk_views(out@) =~= bulk_views(nodes@));
    }
    out
}

} // verus!
