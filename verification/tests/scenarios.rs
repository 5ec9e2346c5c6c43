use nodespace_core::create::CreateNodeParams;
use nodespace_core::error::NodeServiceError;
use nodespace_core::json::{Number, Object, Value};
use nodespace_core::node::{
    BulkNode, EnumValue, Node, NodeReference, NodeUpdate, RelationshipCardinality, SchemaField,
    SchemaRelationship, TaskNodeUpdate,
};
use nodespace_core::protocol::{Outcome, Reply, Request, Step};
use nodespace_core::query::{FilterOperator, NodeFilter, NodeQuery, PropertyFilter};
use nodespace_core::reading::make_node;
use nodespace_core::relationships::{extract_record_id_string, SchemaSummary};
use nodespace_core::service::NodeService;
use nodespace_core::tree::ChildEdge;

const NOW: i64 = 1_700_000_000_000_000_000;

fn text(s: &str) -> Value {
    Value::Text(s.to_string())
}

fn number(n: i64) -> Value {
    Value::Number(Number::from_i64(n))
}

fn float(f: f64) -> Value {
    Value::Number(Number::Float(f.to_bits()))
}

fn object(members: Vec<(&str, Value)>) -> Value {
    let mut out = Object::new();
    for (key, value) in members {
        out.insert(key.to_string(), value);
    }
    Value::Object(out)
}

fn array(items: Vec<Value>) -> Value {
    Value::Array(items)
}

fn empty() -> Value {
    object(vec![])
}

fn items(value: Option<&Value>) -> Vec<Value> {
    match value {
        Some(Value::Array(list)) => list.clone(),
        _ => vec![],
    }
}

fn string_at(value: &Value, key: &str) -> Option<String> {
    value.get(key).and_then(|v| v.as_str()).map(|s| s.to_string())
}

fn bool_at(value: &Value, key: &str) -> Option<bool> {
    match value.get(key) {
        Some(Value::Bool(b)) => Some(*b),
        _ => None,
    }
}

fn at<'a>(value: &'a Value, first: &str, second: &str) -> &'a str {
    value.get(first).and_then(|v| v.get(second)).and_then(|v| v.as_str()).unwrap_or("")
}

fn as_float(value: &Value) -> f64 {
    match value {
        Value::Number(Number::PosInt(n)) => *n as f64,
        Value::Number(Number::NegInt(n)) => *n as f64,
        Value::Number(Number::Float(bits)) => f64::from_bits(*bits),
        _ => 0.0,
    }
}

fn no_update() -> NodeUpdate {
    NodeUpdate {
        node_type: None,
        content: None,
        properties: None,
        title: None,
        lifecycle_status: None,
    }
}

fn with_content(content: &str) -> NodeUpdate {
    NodeUpdate { content: Some(content.to_string()), ..no_update() }
}

fn with_type(node_type: &str) -> NodeUpdate {
    NodeUpdate { node_type: Some(node_type.to_string()), ..no_update() }
}

fn with_properties(properties: Value) -> NodeUpdate {
    NodeUpdate { properties: Some(properties), ..no_update() }
}

fn params(id: Option<&str>, node_type: &str, content: &str, parent: Option<&str>) -> CreateNodeParams {
    CreateNodeParams {
        id: id.map(|s| s.to_string()),
        node_type: node_type.to_string(),
        content: content.to_string(),
        parent_id: parent.map(|s| s.to_string()),
        insert_after_node_id: None,
        properties: empty(),
    }
}

fn filter_of_type(node_type: &str) -> NodeFilter {
    NodeFilter {
        ids: None,
        node_type: Some(node_type.to_string()),
        content_contains: None,
        title_contains: None,
        property_filters: None,
        limit: None,
        offset: None,
    }
}

fn dates_with_id(id: &str) -> NodeFilter {
    NodeFilter { ids: Some(vec![id.to_string()]), ..filter_of_type("date") }
}

fn query_for_content(content: &str) -> NodeQuery {
    NodeQuery {
        id: None,
        node_type: None,
        content_contains: Some(content.to_string()),
        title_contains: None,
        mentioned_by: None,
        limit: None,
        offset: None,
    }
}

struct Edge {
    source: String,
    relationship: String,
    target: String,
    properties: Value,
}

/// A store in memory, together with the parts of the surroundings that need no store.
struct World {
    nodes: Vec<Node>,
    edges: Vec<Edge>,
    stale: Vec<String>,
    embedded: Vec<String>,
    events: Vec<String>,
    failing: Option<&'static str>,
    pauses: u64,
    next: u32,
}

fn task_fields() -> Vec<SchemaField> {
    let value = |v: &str| EnumValue { value: v.to_string(), label: v.to_string() };
    let plain = |name: &str, kind: &str| SchemaField {
        name: name.to_string(),
        field_type: kind.to_string(),
        required: None,
        default: None,
        core_values: None,
        user_values: None,
    };
    vec![
        SchemaField {
            default: Some(text("open")),
            core_values: Some(vec![value("open"), value("in_progress"), value("done")]),
            required: Some(true),
            ..plain("status", "enum")
        },
        SchemaField {
            core_values: Some(vec![value("low"), value("high")]),
            ..plain("priority", "enum")
        },
    ]
}

fn task_schema() -> Value {
    object(vec![
        ("version", number(1)),
        ("fields", array(vec![object(vec![("name", text("status"))])])),
    ])
}

impl World {
    fn new() -> World {
        World {
            nodes: vec![],
            edges: vec![],
            stale: vec![],
            embedded: vec![],
            events: vec![],
            failing: None,
            pauses: 0,
            next: 0,
        }
    }

    fn run(&mut self, op: &dyn Fn(&NodeService, &Vec<Reply>) -> Step) -> Result<Outcome, NodeServiceError> {
        let service = NodeService::new().with_client("window".to_string());
        let mut log: Vec<Reply> = vec![];
        loop {
            match op(&service, &log) {
                Step::Ask(request) => {
                    let asked = format!("{:?}", request);
                    let reply = self.answer(request);
                    let described = format!("{:?}", reply);
                    log.push(reply);
                    if matches!(op(&service, &log), Step::Mismatch) {
                        panic!("{} was answered by {}", asked, described);
                    }
                }
                Step::Finish(outcome) => return Ok(outcome),
                Step::Fail(error) => return Err(error),
                Step::Mismatch => panic!("mismatch"),
            }
        }
    }

    fn fresh(&mut self) -> String {
        self.next += 1;
        format!("550e8400-e29b-41d4-a716-44665544{:04}", self.next)
    }

    fn find(&self, id: &str) -> Option<&Node> {
        self.nodes.iter().find(|n| n.id == id)
    }

    fn find_mut(&mut self, id: &str) -> Option<&mut Node> {
        self.nodes.iter_mut().find(|n| n.id == id)
    }

    fn parent_of(&self, id: &str) -> Option<String> {
        self.edges
            .iter()
            .find(|e| e.relationship == "has_child" && e.target == id)
            .map(|e| e.source.clone())
    }

    fn child_edges(&self, id: &str) -> Vec<(String, f64)> {
        let mut list: Vec<(String, f64)> = self
            .edges
            .iter()
            .filter(|e| e.relationship == "has_child" && e.source == id)
            .map(|e| {
                (e.target.clone(), e.properties.get("order").map(as_float).unwrap_or(0.0))
            })
            .collect();
        list.sort_by(|a, b| a.1.partial_cmp(&b.1).unwrap());
        list
    }

    fn children(&self, id: &str) -> Vec<Node> {
        self.child_edges(id).iter().filter_map(|(c, _)| self.find(c).cloned()).collect()
    }

    fn descendants(&self, id: &str) -> Vec<Node> {
        let mut out = vec![];
        for child in self.children(id) {
            let below = self.descendants(child.id.as_str());
            out.push(child);
            out.extend(below);
        }
        out
    }

    fn mentions_of(&self, id: &str) -> Vec<String> {
        self.edges
            .iter()
            .filter(|e| e.relationship == "mentions" && e.source == id)
            .map(|e| e.target.clone())
            .collect()
    }

    fn has_edge(&self, source: &str, relationship: &str, target: &str) -> bool {
        self.edges
            .iter()
            .any(|e| e.source == source && e.relationship == relationship && e.target == target)
    }

    fn relate(&mut self, source: &str, relationship: &str, target: &str, properties: Value) {
        self.edges.push(Edge {
            source: source.to_string(),
            relationship: relationship.to_string(),
            target: target.to_string(),
            properties,
        });
    }

    fn remove(&mut self, id: &str) -> bool {
        let before = self.nodes.len();
        self.nodes.retain(|n| n.id != id);
        self.edges.retain(|e| e.source != id && e.target != id);
        self.nodes.len() < before
    }

    fn change(&mut self, id: &str, update: &NodeUpdate) -> Option<Node> {
        let node = self.find_mut(id)?;
        if let Some(t) = &update.node_type {
            node.node_type = t.clone();
        }
        if let Some(c) = &update.content {
            node.content = c.clone();
        }
        if let Some(p) = &update.properties {
            node.properties = p.clone();
        }
        if let Some(t) = &update.title {
            node.title = t.clone();
        }
        if let Some(s) = &update.lifecycle_status {
            node.lifecycle_status = s.clone();
        }
        node.version += 1;
        Some(node.clone())
    }

    fn schema_value(&self, node_type: &str) -> Option<Value> {
        if node_type == "task" {
            return Some(task_schema());
        }
        self.find(node_type).filter(|n| n.node_type == "schema").map(|n| n.properties.clone())
    }

    fn fields(&self, node_type: &str) -> Option<Vec<SchemaField>> {
        if node_type == "task" {
            return Some(task_fields());
        }
        let schema = self.schema_value(node_type)?;
        Some(
            items(schema.get("fields"))
                .iter()
                .map(|f| SchemaField {
                    name: string_at(f, "name").unwrap(),
                    field_type: string_at(f, "type").unwrap(),
                    required: bool_at(f, "required"),
                    default: f.get("default").cloned(),
                    core_values: None,
                    user_values: None,
                })
                .collect(),
        )
    }

    fn relationships(&self, node_type: &str) -> Option<Vec<SchemaRelationship>> {
        let schema = self.schema_value(node_type)?;
        Some(
            items(schema.get("relationships"))
                .iter()
                .map(|r| SchemaRelationship {
                    name: string_at(r, "name").unwrap(),
                    target_type: string_at(r, "targetType"),
                    cardinality: if string_at(r, "cardinality").as_deref() == Some("one") {
                        RelationshipCardinality::One
                    } else {
                        RelationshipCardinality::Many
                    },
                    required: bool_at(r, "required"),
                })
                .collect(),
        )
    }

    fn behavior_error(&self, node: &Node) -> Option<String> {
        if !node.properties.is_object() {
            return Some("Properties must be an object".to_string());
        }
        for r in items(node.properties.get("relationships")) {
            if string_at(&r, "name").as_deref() == Some("has_child") {
                return Some("Relationship name 'has_child' is reserved".to_string());
            }
        }
        None
    }

    fn place(&mut self, id: &str, parent: &str, after: Option<&str>) -> Option<f64> {
        self.edges.retain(|e| !(e.relationship == "has_child" && e.target == id));
        let siblings = self.child_edges(parent);
        let order = match after {
            None => siblings.first().map(|s| s.1 - 1.0).unwrap_or(1.0),
            Some(sibling) => {
                let k = siblings.iter().position(|s| s.0 == sibling)?;
                match siblings.get(k + 1) {
                    Some(next) => (siblings[k].1 + next.1) / 2.0,
                    None => siblings[k].1 + 1.0,
                }
            }
        };
        self.relate(parent, "has_child", id, object(vec![("order", float(order))]));
        Some(order)
    }

    fn matching(&self, query: &NodeQuery) -> Vec<Node> {
        let found = self.nodes.iter().filter(|n| {
            query.node_type.as_ref().map(|t| *t == n.node_type).unwrap_or(true)
                && query
                    .content_contains
                    .as_ref()
                    .map(|c| n.content.to_lowercase().contains(&c.to_lowercase()))
                    .unwrap_or(true)
                && query
                    .mentioned_by
                    .as_ref()
                    .map(|m| self.has_edge(n.id.as_str(), "mentions", m))
                    .unwrap_or(true)
        });
        found
            .skip(query.offset.unwrap_or(0))
            .take(query.limit.unwrap_or(usize::MAX))
            .cloned()
            .collect()
    }

    /// The reply of the operation that answers the request, if there is one.
    fn own(&mut self, request: &Request) -> Option<Reply> {
        let service = NodeService::new().with_client("window".to_string());
        let fresh = self.fresh();
        let mut log: Vec<Reply> = vec![];
        loop {
            match service.answer_step(request, NOW, fresh.as_str(), &log)? {
                Step::Ask(inner) => {
                    let reply = self.answer(inner);
                    log.push(reply);
                }
                step => match NodeService::reply_for(step) {
                    Some(reply) => return Some(reply),
                    None => panic!("{:?} does not fit", log.last()),
                },
            }
        }
    }

    fn answer(&mut self, request: Request) -> Reply {
        if let Some(name) = self.failing {
            if format!("{:?}", request).starts_with(name) {
                return Reply::Failed { message: "disk on fire".to_string() };
            }
        }
        if let Some(reply) = self.own(&request) {
            return reply;
        }
        match request {
            Request::LoadNode { id } => Reply::Node { node: self.find(id.as_str()).cloned() },
            Request::LoadParentId { id } => {
                Reply::MaybeText { text: self.parent_of(id.as_str()) }
            }
            Request::LoadNodeType { id } => Reply::MaybeText {
                text: self.find(id.as_str()).map(|n| n.node_type.clone()),
            },
            Request::LoadSchema { node_type } => Reply::Schema {
                schema: self.schema_value(node_type.as_str()),
                fields: self.fields(node_type.as_str()),
            },
            Request::LoadTitleTemplate { node_type } => Reply::MaybeText {
                text: self
                    .schema_value(node_type.as_str())
                    .and_then(|s| string_at(&s, "titleTemplate")),
            },
            Request::InsertNode { node } | Request::InsertSchemaNode { node } => {
                self.nodes.push(node);
                Reply::Done
            }
            Request::StoreUpdate { id, update } | Request::StoreSchemaUpdate { id, update } => {
                self.change(id.as_str(), &update);
                Reply::Done
            }
            Request::StoreVersionedUpdate { id, expected_version, update } => {
                let current = self.find(id.as_str()).map(|n| n.version);
                if current == Some(expected_version) {
                    Reply::Node { node: self.change(id.as_str(), &update) }
                } else {
                    Reply::Node { node: None }
                }
            }
            Request::StoreVersionedDelete { id, expected_version } => {
                let current = self.find(id.as_str()).map(|n| n.version);
                if current == Some(expected_version) {
                    self.remove(id.as_str());
                    Reply::Count { value: 1 }
                } else {
                    Reply::Count { value: 0 }
                }
            }
            Request::StoreUpsert { new_parent, new_node, id, content, parent, after } => {
                if self.failing == Some("upsert of the place") {
                    return Reply::Failed { message: "disk on fire".to_string() };
                }
                if let (Some("upsert of the node"), Some(n)) = (self.failing, &new_node) {
                    return Reply::FailedAt {
                        id: n.id.clone(),
                        message: "disk on fire".to_string(),
                    };
                }
                self.nodes.extend(new_parent);
                match new_node {
                    Some(node) => self.nodes.push(node),
                    None => self.find_mut(id.as_str()).unwrap().content = content,
                }
                let order = self.place(id.as_str(), parent.as_str(), after.as_deref()).unwrap();
                Reply::Order { order: float(order) }
            }
            Request::StoreMove { id, parent, after } => match parent {
                None => {
                    self.edges
                        .retain(|e| !(e.relationship == "has_child" && e.target == id));
                    Reply::Order { order: Value::Null }
                }
                Some(p) => match self.place(id.as_str(), p.as_str(), after.as_deref()) {
                    Some(order) => Reply::Order { order: float(order) },
                    None => Reply::Failed { message: "Sibling not found: x".to_string() },
                },
            },
            Request::StoreMention { from, to } => {
                if self.has_edge(from.as_str(), "mentions", to.as_str()) {
                    Reply::MaybeText { text: None }
                } else {
                    self.relate(from.as_str(), "mentions", to.as_str(), empty());
                    Reply::MaybeText { text: Some("relationship:1".to_string()) }
                }
            }
            Request::StoreUnmention { from, to } => {
                let known = self.has_edge(from.as_str(), "mentions", to.as_str());
                self.edges.retain(|e| {
                    !(e.relationship == "mentions" && e.source == from && e.target == to)
                });
                Reply::MaybeText {
                    text: if known { Some("relationship:1".to_string()) } else { None },
                }
            }
            Request::HasEmbeddings { id } => Reply::Flag { value: self.embedded.contains(&id) },
            Request::MarkStale { id } | Request::CreateStaleMarker { id } => {
                self.stale.push(id);
                Reply::Done
            }
            Request::CreateStaleMarkers { ids } => {
                let value = ids.len();
                self.stale.extend(ids);
                Reply::Count { value }
            }
            Request::QueueRootInBackground { id } => done(self.run(&|_, log| {
                NodeService::queue_root_for_embedding_async(id.as_str(), log)
            })),
            Request::ValidateBehavior { node } => match self.behavior_error(&node) {
                None => Reply::Done,
                Some(m) => Reply::Refused { error: NodeServiceError::ValidationFailed(m) },
            },
            Request::CheckBehavior { node } => match self.behavior_error(&node) {
                None => Reply::Done,
                Some(message) => Reply::Failed { message },
            },
            Request::OwnContent { node } => Reply::MaybeText {
                text: if node.node_type == "text" { Some(node.content) } else { None },
            },
            Request::Migrate { node, target: _ } => Reply::Node { node: Some(node) },
            Request::StripMarkdown { content } => Reply::Text { text: content.replace('*', "") },
            Request::InterpolateTitle { template, properties, node_type: _ } => {
                let mut title = template.clone();
                let names: Vec<String> = template
                    .split('{')
                    .skip(1)
                    .map(|part| part.split('}').next().unwrap().to_string())
                    .collect();
                for name in names {
                    let value = string_at(&properties, name.as_str()).unwrap_or_default();
                    title = title.replace(&format!("{{{}}}", name), &value);
                }
                let words: Vec<&str> = title.split_whitespace().collect();
                Reply::Text { text: words.join(" ") }
            }
            Request::Emit { event } => {
                self.events.push(format!("{:?}", event));
                Reply::Done
            }
            Request::WakeEmbedder => Reply::Done,
            Request::Pause { millis } => {
                self.pauses += millis;
                Reply::Done
            }
            Request::LoadRelationships { node_type }
            | Request::LoadSchemaRelationships { node_type } => Reply::Relationships {
                relationships: self.relationships(node_type.as_str()),
            },
            Request::HasEdge { source, relationship } => Reply::Flag {
                value: self
                    .edges
                    .iter()
                    .any(|e| e.source == source && e.relationship == relationship),
            },
            Request::FindEdge { source, target, relationship } => Reply::MaybeText {
                text: if self.has_edge(source.as_str(), relationship.as_str(), target.as_str()) {
                    Some("relationship:1".to_string())
                } else {
                    None
                },
            },
            Request::AddToCollection { source, target } => {
                if self.has_edge(source.as_str(), "member_of", target.as_str()) {
                    return Reply::MaybeText { text: None };
                }
                let order = 1.0
                    + self
                        .edges
                        .iter()
                        .filter(|e| e.relationship == "member_of" && e.target == target)
                        .count() as f64;
                self.relate(
                    source.as_str(),
                    "member_of",
                    target.as_str(),
                    object(vec![("order", float(order))]),
                );
                Reply::MaybeText { text: Some("relationship:2".to_string()) }
            }
            Request::LoadMemberOrder { source, target } => Reply::MaybeOrder {
                order: self
                    .edges
                    .iter()
                    .find(|e| {
                        e.relationship == "member_of" && e.source == source && e.target == target
                    })
                    .and_then(|e| e.properties.get("order").cloned()),
            },
            Request::NextChildOrder { id } => {
                let last = self.child_edges(id.as_str()).last().map(|c| c.1).unwrap_or(0.0);
                Reply::Order { order: float(last + 1.0) }
            }
            Request::Relate { source, target, relationship, properties } => {
                self.relate(source.as_str(), relationship.as_str(), target.as_str(), properties);
                Reply::MaybeText { text: Some("relationship:3".to_string()) }
            }
            Request::DeleteEdge { source, target, relationship } => {
                self.edges.retain(|e| {
                    !(e.source == source && e.target == target && e.relationship == relationship)
                });
                Reply::Done
            }
            Request::LoadRelated { id, relationship, outgoing } => Reply::Texts {
                items: self
                    .edges
                    .iter()
                    .filter(|e| {
                        e.relationship == relationship
                            && if outgoing { e.source == id } else { e.target == id }
                    })
                    .map(|e| if outgoing { e.target.clone() } else { e.source.clone() })
                    .collect(),
            },
            Request::Describe { error } => Reply::Text { text: format!("{:?}", error) },
            Request::LoadNodes { ids } => Reply::Nodes {
                nodes: ids.iter().filter_map(|id| self.find(id).cloned()).collect(),
            },
            Request::StoreBatch { nodes } => {
                self.nodes.extend(nodes.iter().cloned());
                Reply::Nodes { nodes }
            }
            Request::StoreHierarchy { nodes, root_only: _ } => {
                let mut ids = vec![];
                for n in nodes {
                    self.nodes.push(make_node(
                        n.id.as_str(),
                        n.node_type.as_str(),
                        n.content.as_str(),
                        n.properties.clone(),
                        NOW,
                    ));
                    if let Some(p) = &n.parent_id {
                        self.relate(
                            p.as_str(),
                            "has_child",
                            n.id.as_str(),
                            object(vec![("order", n.order.clone())]),
                        );
                    }
                    ids.push(n.id.clone());
                }
                Reply::Texts { items: ids }
            }
            Request::StoreBulkUpdate { updates } => {
                for (id, update) in &updates {
                    self.change(id.as_str(), update);
                }
                Reply::Done
            }
            Request::StoreBulkDelete { ids } => {
                for id in &ids {
                    self.remove(id.as_str());
                }
                Reply::Done
            }
            Request::CacheSchemas { ids: _ } => Reply::Done,
            Request::QueryStore { query } => Reply::Nodes { nodes: self.matching(&query) },
            Request::LoadSubtree { root_id } => {
                let mut nodes: Vec<Node> = vec![];
                if let Some(root) = self.find(root_id.as_str()) {
                    nodes.push(root.clone());
                }
                nodes.extend(self.descendants(root_id.as_str()));
                let mut edges = vec![];
                for node in &nodes {
                    for (child, order) in self.child_edges(node.id.as_str()) {
                        edges.push(ChildEdge {
                            parent: node.id.clone(),
                            child,
                            order: Number::Float(order.to_bits()).rank().unwrap(),
                        });
                    }
                }
                edges.reverse();
                Reply::Subtree { nodes, edges }
            }
            Request::LoadMentionContainers { id } => Reply::References {
                items: self
                    .edges
                    .iter()
                    .filter(|e| e.relationship == "mentions" && e.target == id)
                    .map(|e| NodeReference {
                        id: e.source.clone(),
                        title: None,
                        node_type: "text".to_string(),
                    })
                    .collect(),
            },
            Request::Render { nodes } => Reply::Values {
                values: nodes
                    .iter()
                    .map(|n| {
                        object(vec![
                            ("id", text(n.id.as_str())),
                            ("content", text(n.content.as_str())),
                        ])
                    })
                    .collect(),
            },
            Request::LoadChildren { id } => Reply::Nodes { nodes: self.children(id.as_str()) },
            Request::LoadParent { id } => Reply::Node {
                node: self.parent_of(id.as_str()).and_then(|p| self.find(p.as_str()).cloned()),
            },
            Request::LoadRoots { limit, offset } => Reply::Nodes {
                nodes: self
                    .nodes
                    .iter()
                    .filter(|n| self.parent_of(n.id.as_str()).is_none())
                    .skip(offset.unwrap_or(0))
                    .take(limit.unwrap_or(usize::MAX))
                    .cloned()
                    .collect(),
            },
            Request::LoadDescendants { id } => {
                Reply::Nodes { nodes: self.descendants(id.as_str()) }
            }
            Request::StoreDelete { id } => Reply::Flag { value: self.remove(id.as_str()) },
            Request::LoadMentions { id } => Reply::Texts { items: self.mentions_of(id.as_str()) },
            Request::LoadMentionedBy { id } => Reply::Texts {
                items: self
                    .edges
                    .iter()
                    .filter(|e| e.relationship == "mentions" && e.target == id)
                    .map(|e| e.source.clone())
                    .collect(),
            },
            Request::LoadTask { id } => {
                Reply::MaybeValue { value: self.find(id.as_str()).map(task_value) }
            }
            Request::StoreTaskUpdate { id, expected_version, update } => {
                match self.change_task(id.as_str(), expected_version, &update) {
                    Some(value) => Reply::Json { value },
                    None => Reply::FailedBecause {
                        full: "task update: The query was not executed due to a failed transaction"
                            .to_string(),
                        root: "The query was not executed due to a failed transaction".to_string(),
                        shown: "task update".to_string(),
                    },
                }
            }
            other => panic!("{:?} is not expected here", other),
        }
    }

    fn change_task(&mut self, id: &str, version: i64, update: &TaskNodeUpdate) -> Option<Value> {
        let node = self.find_mut(id)?;
        if node.version != version {
            return None;
        }
        let mut fields = Object::new();
        for name in ["status", "priority", "due_date", "assignee"] {
            if let Some(v) = node.properties.get("task").and_then(|t| t.get(name)) {
                fields.insert(name.to_string(), v.clone());
            }
        }
        let or_null = |v: &Option<String>| v.as_deref().map(text).unwrap_or(Value::Null);
        if let Some(status) = &update.status {
            fields.insert("status".to_string(), text(status));
        }
        if let Some(priority) = &update.priority {
            fields.insert("priority".to_string(), or_null(priority));
        }
        if let Some(due_date) = &update.due_date {
            fields.insert(
                "due_date".to_string(),
                due_date.map(number).unwrap_or(Value::Null),
            );
        }
        if let Some(assignee) = &update.assignee {
            fields.insert("assignee".to_string(), or_null(assignee));
        }
        if let Some(content) = &update.content {
            node.content = content.clone();
        }
        node.properties = object(vec![("task", Value::Object(fields))]);
        node.version += 1;
        Some(task_value(node))
    }

    fn update_task(&mut self, id: &str, version: i64, update: &TaskNodeUpdate) -> Result<Value, NodeServiceError> {
        match self.run(&|s, log| s.update_task_node(id, version, update, log))? {
            Outcome::Json { value } => Ok(value),
            other => panic!("{:?}", other),
        }
    }

    fn task(&mut self, id: &str) -> Value {
        match self.run(&|s, log| s.get_task_node(id, log)).unwrap() {
            Outcome::MaybeJson { value } => value.unwrap(),
            other => panic!("{:?}", other),
        }
    }

    fn add_task(&mut self, content: &str) -> String {
        let id = format!("task-{}", self.fresh());
        self.add_as(id.as_str(), "task", content, object(vec![("status", text("open"))]))
    }

    fn get(&mut self, id: &str) -> Result<Option<Node>, NodeServiceError> {
        match self.run(&|s, log| s.get_node(id, NOW, log))? {
            Outcome::MaybeNode { node } => Ok(node),
            other => panic!("{:?}", other),
        }
    }

    fn got(&mut self, id: &str) -> Node {
        self.get(id).unwrap().unwrap()
    }

    fn create(&mut self, node: &Node) -> Result<String, NodeServiceError> {
        match self.run(&|s, log| s.create_node(node, log))? {
            Outcome::Id { id } => Ok(id),
            other => panic!("{:?}", other),
        }
    }

    fn add(&mut self, node_type: &str, content: &str) -> String {
        let id = self.fresh();
        self.create(&make_node(id.as_str(), node_type, content, empty(), NOW)).unwrap()
    }

    fn add_as(&mut self, id: &str, node_type: &str, content: &str, properties: Value) -> String {
        self.create(&make_node(id, node_type, content, properties, NOW)).unwrap()
    }

    fn create_with_parent(&mut self, params: &CreateNodeParams) -> Result<String, NodeServiceError> {
        let fresh = self.fresh();
        match self.run(&|s, log| s.create_node_with_parent(params, fresh.as_str(), NOW, log))? {
            Outcome::Id { id } => Ok(id),
            other => panic!("{:?}", other),
        }
    }

    fn update(&mut self, id: &str, update: &NodeUpdate) -> Result<Outcome, NodeServiceError> {
        self.run(&|s, log| s.update_node_unchecked(id, update, log))
    }

    fn move_to(&mut self, id: &str, parent: &str) -> Result<Outcome, NodeServiceError> {
        self.run(&|s, log| s.move_node_unchecked(id, Some(parent), None, log))
    }

    fn put_under(&mut self, id: &str, parent: &str, after: Option<&str>) {
        self.run(&|s, log| s.create_parent_edge(id, parent, after, log)).unwrap();
    }

    fn contents_below(&mut self, id: &str) -> Vec<String> {
        match self.run(&|s, log| s.get_children(id, log)).unwrap() {
            Outcome::Nodes { nodes } => nodes.into_iter().map(|n| n.content).collect(),
            other => panic!("{:?}", other),
        }
    }

    fn tree(&mut self, id: &str) -> Value {
        match self.run(&|s, log| s.get_children_tree(id, log)).unwrap() {
            Outcome::Json { value } => value,
            other => panic!("{:?}", other),
        }
    }

    fn mention(&mut self, from: &str, to: &str) -> Result<Outcome, NodeServiceError> {
        self.run(&|s, log| s.add_mention(from, to, log))
    }

    fn mentioned_by(&mut self, id: &str) -> Vec<String> {
        match self.run(&|s, log| s.get_mentioned_by(id, log)).unwrap() {
            Outcome::Ids { ids } => ids,
            other => panic!("{:?}", other),
        }
    }

    fn link(&mut self, from: &str, name: &str, to: &str, data: Value) -> Result<Outcome, NodeServiceError> {
        self.run(&|s, log| s.create_relationship(from, name, to, &data, log))
    }

    fn related(&mut self, id: &str, name: &str, direction: &str) -> Vec<String> {
        match self.run(&|s, log| s.get_related_nodes(id, name, direction, log)).unwrap() {
            Outcome::Nodes { nodes } => nodes.into_iter().map(|n| n.id).collect(),
            other => panic!("{:?}", other),
        }
    }

    fn found(&mut self, query: &NodeQuery) -> Vec<String> {
        match self.run(&|s, log| s.query_nodes_simple(query, log)).unwrap() {
            Outcome::Nodes { nodes } => nodes.into_iter().map(|n| n.id).collect(),
            other => panic!("{:?}", other),
        }
    }

    fn filtered(&mut self, filter: &NodeFilter) -> Vec<Node> {
        match self.run(&|s, log| s.query_nodes(filter, log)).unwrap() {
            Outcome::Nodes { nodes } => nodes,
            other => panic!("{:?}", other),
        }
    }
}

fn task_value(node: &Node) -> Value {
    let field = |name: &str| {
        node.properties.get("task").and_then(|t| t.get(name)).cloned().unwrap_or(Value::Null)
    };
    object(vec![
        ("content", text(node.content.as_str())),
        ("version", number(node.version)),
        ("status", field("status")),
        ("priority", field("priority")),
        ("due_date", field("due_date")),
        ("assignee", field("assignee")),
    ])
}

fn with_status(status: &str) -> TaskNodeUpdate {
    TaskNodeUpdate { status: Some(status.to_string()), ..TaskNodeUpdate::new() }
}

fn with_assignee(assignee: Option<&str>) -> TaskNodeUpdate {
    TaskNodeUpdate { assignee: Some(assignee.map(|s| s.to_string())), ..TaskNodeUpdate::new() }
}

fn done(result: Result<Outcome, NodeServiceError>) -> Reply {
    match result {
        Ok(_) => Reply::Done,
        Err(error) => Reply::Refused { error },
    }
}

#[test]
fn test_create_text_node() {
    let mut w = World::new();
    let id = w.fresh();
    let node = make_node(id.as_str(), "text", "Hello World", empty(), NOW);
    assert_eq!(w.create(&node).unwrap(), id);
    let retrieved = w.got(id.as_str());
    assert_eq!(retrieved.content, "Hello World");
    assert_eq!(retrieved.node_type, "text");
}

#[test]
fn test_create_task_node() {
    let mut w = World::new();
    let id = w.fresh();
    w.add_as(
        id.as_str(),
        "task",
        "Implement NodeService",
        object(vec![("status", text("in_progress")), ("priority", text("high"))]),
    );
    let retrieved = w.got(id.as_str());
    assert_eq!(retrieved.node_type, "task");
    assert_eq!(at(&retrieved.properties, "task", "status"), "in_progress");
    assert_eq!(at(&retrieved.properties, "task", "priority"), "high");
}

#[test]
fn test_create_date_node() {
    let mut w = World::new();
    assert_eq!(w.add_as("2025-01-03", "text", "2025-01-03", empty()), "2025-01-03");
    let retrieved = w.got("2025-01-03");
    assert_eq!(retrieved.node_type, "date");
    assert_eq!(retrieved.id, "2025-01-03");
}

#[test]
fn test_get_virtual_date_node() {
    let mut w = World::new();
    let date = w.got("2025-10-13");
    assert_eq!(date.id, "2025-10-13");
    assert_eq!(date.node_type, "date");
    assert_eq!(date.content, "2025-10-13");
}

#[test]
fn test_get_virtual_date_node_not_persisted() {
    let mut w = World::new();
    w.got("2025-10-13");
    assert_eq!(w.filtered(&dates_with_id("2025-10-13")).len(), 0);
}

#[test]
fn test_get_node_returns_none_for_invalid_date() {
    let mut w = World::new();
    assert!(w.get("not-a-date").unwrap().is_none());
    assert!(w.get("25-10-13").unwrap().is_none());
    assert!(w.get("2025-13-45").unwrap().is_none());
}

#[test]
fn test_persisted_date_takes_precedence_over_virtual() {
    let mut w = World::new();
    w.add_as("2025-10-13", "date", "Custom Date Content", empty());
    let retrieved = w.got("2025-10-13");
    assert_eq!(retrieved.content, "Custom Date Content");
    assert_eq!(retrieved.node_type, "date");
}

#[test]
fn test_update_node() {
    let mut w = World::new();
    let id = w.add("text", "Original");
    w.update(id.as_str(), &with_content("Updated")).unwrap();
    assert_eq!(w.got(id.as_str()).content, "Updated");
}

#[test]
fn test_delete_node() {
    let mut w = World::new();
    let id = w.add("text", "To be deleted");
    let first = w.run(&|s, log| s.delete_node_unchecked(id.as_str(), log)).unwrap();
    assert!(matches!(first, Outcome::Deleted { existed: true }));
    assert!(w.get(id.as_str()).unwrap().is_none());
    let second = w.run(&|s, log| s.delete_node_unchecked(id.as_str(), log));
    assert!(matches!(second, Err(NodeServiceError::NodeNotFound { id: gone }) if gone == id));
}

#[test]
fn test_query_nodes_by_type() {
    let mut w = World::new();
    w.add("text", "Text 1");
    w.add("task", "Task 1");
    w.add("text", "Text 2");
    let results = w.filtered(&filter_of_type("text"));
    assert_eq!(results.len(), 2);
    assert!(results.iter().all(|n| n.node_type == "text"));
}

#[test]
fn test_bulk_create() {
    let mut w = World::new();
    let nodes = vec![
        make_node("b-1", "text", "Bulk 1", empty(), NOW),
        make_node("b-2", "text", "Bulk 2", empty(), NOW),
        make_node("b-3", "task", "Bulk Task", object(vec![("status", text("open"))]), NOW),
    ];
    let ids = match w.run(&|s, log| s.bulk_create(&nodes, log)).unwrap() {
        Outcome::Ids { ids } => ids,
        other => panic!("{:?}", other),
    };
    assert_eq!(ids.len(), 3);
    for (i, id) in ids.iter().enumerate() {
        assert_eq!(w.got(id).content, nodes[i].content);
    }
}

#[test]
fn test_bulk_update() {
    let mut w = World::new();
    let id1 = w.add("text", "Original 1");
    let id2 = w.add("text", "Original 2");
    let updates =
        vec![(id1.clone(), with_content("Updated 1")), (id2.clone(), with_content("Updated 2"))];
    w.run(&|s, log| s.bulk_update(&updates, log)).unwrap();
    assert_eq!(w.got(id1.as_str()).content, "Updated 1");
    assert_eq!(w.got(id2.as_str()).content, "Updated 2");
}

#[test]
fn test_bulk_update_with_nonexistent_node() {
    let mut w = World::new();
    let id1 = w.add("text", "Original 1");
    let updates = vec![
        (id1.clone(), with_content("Updated 1")),
        ("nonexistent-node-id".to_string(), with_content("Should fail")),
    ];
    let result = w.run(&|s, log| s.bulk_update(&updates, log));
    assert!(matches!(
        result,
        Err(NodeServiceError::NodeNotFound { id }) if id == "nonexistent-node-id"
    ));
    assert_eq!(w.got(id1.as_str()).content, "Original 1");
}

#[test]
fn test_bulk_update_empty_list() {
    let mut w = World::new();
    assert!(w.run(&|s, log| s.bulk_update(&vec![], log)).is_ok());
}

#[test]
fn test_bulk_update_with_task_nodes() {
    let mut w = World::new();
    let id1 = w.add_as("t-1", "task", "Task 1", object(vec![("status", text("open"))]));
    let id2 = w.add_as("t-2", "task", "Task 2", object(vec![("status", text("open"))]));
    let updates = vec![
        (id1.clone(), with_content("Updated Task 1")),
        (id2.clone(), with_content("Updated Task 2")),
    ];
    w.run(&|s, log| s.bulk_update(&updates, log)).unwrap();
    let updated1 = w.got(id1.as_str());
    let updated2 = w.got(id2.as_str());
    assert_eq!(updated1.content, "Updated Task 1");
    assert_eq!(updated2.content, "Updated Task 2");
    assert_eq!(at(&updated1.properties, "task", "status"), "open");
    assert_eq!(at(&updated2.properties, "task", "status"), "open");
    let wrong = vec![(
        id1.clone(),
        with_properties(object(vec![("task", object(vec![("status", text("never"))]))])),
    )];
    let result = w.run(&|s, log| s.bulk_update(&wrong, log));
    assert!(matches!(
        result,
        Err(NodeServiceError::BulkOperationFailed(m))
            if m.starts_with("Failed schema validation for node t-1: ")
    ));
}

#[test]
fn test_bulk_delete() {
    let mut w = World::new();
    let id1 = w.add("text", "Delete 1");
    let id2 = w.add("text", "Delete 2");
    let ids = vec![id1.clone(), id2.clone()];
    w.run(&|s, log| s.bulk_delete(&ids, log)).unwrap();
    assert!(w.get(id1.as_str()).unwrap().is_none());
    assert!(w.get(id2.as_str()).unwrap().is_none());
}

#[test]
fn test_reorder_siblings() {
    let mut w = World::new();
    let parent = w.add("text", "Parent");
    let child1 = w.add("text", "Child 1");
    w.move_to(child1.as_str(), parent.as_str()).unwrap();
    let child2 = w.add("text", "Child 2");
    w.move_to(child2.as_str(), parent.as_str()).unwrap();
    assert_eq!(w.contents_below(parent.as_str()), vec!["Child 2", "Child 1"]);
    w.run(&|s, log| s.reorder_child(child1.as_str(), None, log)).unwrap();
    assert_eq!(w.contents_below(parent.as_str()), vec!["Child 1", "Child 2"]);
}

#[test]
fn test_transaction_rollback_on_error() {
    let mut w = World::new();
    let nodes = vec![
        make_node("v-1", "text", "Valid", empty(), NOW),
        make_node("v-2", "custom_type", "Content", text("not an object"), NOW),
    ];
    let result = w.run(&|s, log| s.bulk_create(&nodes, log));
    assert!(result.is_err());
    assert!(w.get("v-1").unwrap().is_none());
}

#[test]
fn test_add_mention() {
    let mut w = World::new();
    let id1 = w.add("text", "Node 1");
    let id2 = w.add("text", "Node 2");
    w.mention(id1.as_str(), id2.as_str()).unwrap();
    match w.run(&|s, log| s.get_mentions(id1.as_str(), log)).unwrap() {
        Outcome::Ids { ids } => assert_eq!(ids, vec![id2.clone()]),
        other => panic!("{:?}", other),
    }
    assert_eq!(w.mentioned_by(id2.as_str()), vec![id1]);
}

#[test]
fn test_remove_mention() {
    let mut w = World::new();
    let id1 = w.add("text", "Node 1");
    let id2 = w.add("text", "Node 2");
    w.mention(id1.as_str(), id2.as_str()).unwrap();
    w.run(&|s, log| s.remove_mention(id1.as_str(), id2.as_str(), log)).unwrap();
    assert_eq!(w.got(id1.as_str()).mentions.len(), 0);
    assert_eq!(w.mentioned_by(id2.as_str()).len(), 0);
}

#[test]
fn test_get_node_populates_mentions() {
    let mut w = World::new();
    let id1 = w.add("text", "Node 1");
    let id2 = w.add("text", "Node 2");
    let id3 = w.add("text", "Node 3");
    w.mention(id1.as_str(), id2.as_str()).unwrap();
    w.mention(id1.as_str(), id3.as_str()).unwrap();
    w.mention(id2.as_str(), id1.as_str()).unwrap();
    let node = w.got(id1.as_str());
    assert_eq!(node.mentions.len(), 2);
    assert!(node.mentions.contains(&id2));
    assert!(node.mentions.contains(&id3));
    assert_eq!(w.mentioned_by(id1.as_str()), vec![id2]);
}

#[test]
fn test_query_mentioned_by() {
    let mut w = World::new();
    let id1 = w.add("text", "Node 1");
    let id2 = w.add("text", "Node 2");
    let id3 = w.add("text", "Node 3");
    w.mention(id1.as_str(), id3.as_str()).unwrap();
    w.mention(id2.as_str(), id3.as_str()).unwrap();
    let query = NodeQuery {
        content_contains: None,
        mentioned_by: Some(id3.clone()),
        ..query_for_content("")
    };
    let ids = w.found(&query);
    assert_eq!(ids.len(), 2);
    assert!(ids.contains(&id1));
    assert!(ids.contains(&id2));
}

#[test]
fn test_mention_duplicate_handling() {
    let mut w = World::new();
    let id1 = w.add("text", "Node 1");
    let id2 = w.add("text", "Node 2");
    w.mention(id1.as_str(), id2.as_str()).unwrap();
    let events = w.events.len();
    w.mention(id1.as_str(), id2.as_str()).unwrap();
    assert_eq!(w.got(id1.as_str()).mentions.len(), 1);
    assert_eq!(w.events.len(), events);
}

#[test]
fn test_mention_nonexistent_node() {
    let mut w = World::new();
    let id1 = w.add("text", "Node 1");
    let result = w.mention(id1.as_str(), "nonexistent");
    assert!(matches!(result, Err(NodeServiceError::NodeNotFound { .. })));
}

#[test]
fn test_create_mention_validates_nodes_exist() {
    let mut w = World::new();
    let id1 = w.add("text", "Node 1");
    let result = w.run(&|s, log| s.create_mention(id1.as_str(), "nonexistent-id", log));
    assert!(matches!(result, Err(NodeServiceError::NodeNotFound { .. })));
    let result = w.run(&|s, log| s.create_mention("nonexistent-id", id1.as_str(), log));
    assert!(matches!(result, Err(NodeServiceError::NodeNotFound { .. })));
}

#[test]
fn test_delete_mention_idempotent() {
    let mut w = World::new();
    let id1 = w.add("text", "Node 1");
    let id2 = w.add("text", "Node 2");
    w.run(&|s, log| s.create_mention(id1.as_str(), id2.as_str(), log)).unwrap();
    w.run(&|s, log| s.delete_mention(id1.as_str(), id2.as_str(), log)).unwrap();
    w.run(&|s, log| s.delete_mention(id1.as_str(), id2.as_str(), log)).unwrap();
}

#[test]
fn test_auto_sync_mentions_on_update() {
    let mut w = World::new();
    let id1 = w.add("text", "Node 1");
    let id2 = w.add("text", "Node 2");
    let id3 = w.add("text", "Node 3");
    w.update(id1.as_str(), &with_content(&format!("See [@Node 2](nodespace://{})", id2))).unwrap();
    assert_eq!(w.got(id1.as_str()).mentions, vec![id2]);
    w.update(id1.as_str(), &with_content(&format!("See [@Node 3](nodespace://{})", id3))).unwrap();
    assert_eq!(w.got(id1.as_str()).mentions, vec![id3]);
}

#[test]
fn test_prevent_self_reference() {
    let mut w = World::new();
    let id = w.add("text", "Self ref test");
    w.update(id.as_str(), &with_content(&format!("Self reference [@me](nodespace://{})", id)))
        .unwrap();
    assert_eq!(w.got(id.as_str()).mentions.len(), 0);
}

#[test]
fn test_prevent_root_level_self_reference() {
    let mut w = World::new();
    let root = w.add("text", "Root");
    let child = w.add("text", "Child");
    w.move_to(child.as_str(), root.as_str()).unwrap();
    w.update(child.as_str(), &with_content(&format!("Mention root [@root](nodespace://{})", root)))
        .unwrap();
    assert_eq!(w.got(child.as_str()).mentions.len(), 0);
}

#[test]
fn test_sync_mentions_multiple_adds_and_removes() {
    let mut w = World::new();
    let id1 = w.add("text", "Node 1");
    let id2 = w.add("text", "Node 2");
    let id3 = w.add("text", "Node 3");
    let id4 = w.add("text", "Node 4");
    let see = |a: &str, b: &str| {
        with_content(&format!("See [@a](nodespace://{}) and [@b](nodespace://{})", a, b))
    };
    w.update(id1.as_str(), &see(id2.as_str(), id3.as_str())).unwrap();
    assert_eq!(w.got(id1.as_str()).mentions.len(), 2);
    w.update(id1.as_str(), &see(id3.as_str(), id4.as_str())).unwrap();
    let mentions = w.got(id1.as_str()).mentions;
    assert_eq!(mentions.len(), 2);
    assert!(mentions.contains(&id3));
    assert!(mentions.contains(&id4));
    assert!(!mentions.contains(&id2));
}

#[test]
fn test_sync_mentions_with_date_nodes() {
    let mut w = World::new();
    let id = w.add("text", "Daily note");
    w.update(id.as_str(), &with_content("See [@Date](nodespace://2025-10-24)")).unwrap();
    assert_eq!(w.got(id.as_str()).mentions, vec!["2025-10-24".to_string()]);
    assert_eq!(w.find("2025-10-24").unwrap().node_type, "date");
}

#[test]
fn basic_filter() {
    let mut w = World::new();
    let root = w.add("text", "UniqueBasicFilter Root");
    let task = w.add_as(
        "task-1",
        "task",
        "UniqueBasicFilter Task",
        object(vec![("status", text("open"))]),
    );
    let child = w.add_as("text-child-1", "text", "UniqueBasicFilter Text", empty());
    w.add("text", "Something else");
    let ids = w.found(&query_for_content("UniqueBasicFilter"));
    assert_eq!(ids.len(), 3);
    assert!(ids.contains(&root));
    assert!(ids.contains(&task));
    assert!(ids.contains(&child));
}

#[test]
fn default_limit_applied() {
    let mut w = World::new();
    for i in 0..105 {
        w.add("text", &format!("UniqueDefaultLimitTest Node {}", i));
    }
    assert_eq!(w.found(&query_for_content("UniqueDefaultLimitTest")).len(), 100);
}

#[test]
fn explicit_limit_respected() {
    let mut w = World::new();
    for i in 0..10 {
        w.add("text", &format!("UniqueExplicitLimitTest Node {}", i));
    }
    let query = NodeQuery { limit: Some(3), ..query_for_content("UniqueExplicitLimitTest") };
    assert_eq!(w.found(&query).len(), 3);
}

#[test]
fn an_empty_query_finds_nothing() {
    let mut w = World::new();
    w.add("text", "Anything");
    let query = NodeQuery { content_contains: None, ..query_for_content("") };
    assert_eq!(w.found(&query).len(), 0);
    let by_id = NodeQuery { id: Some("2025-01-01".to_string()), ..query_for_content("x") };
    assert_eq!(w.found(&by_id), vec!["2025-01-01".to_string()]);
}

#[test]
fn pages_of_filtered_nodes_are_cut_after_filtering() {
    let mut w = World::new();
    for i in 0..10 {
        let status = if i % 2 == 0 { "open" } else { "done" };
        w.add_as(
            &format!("t-{}", i),
            "task",
            "Task",
            object(vec![("status", text(status))]),
        );
    }
    let filter = NodeFilter {
        property_filters: Some(vec![PropertyFilter {
            path: "$.status".to_string(),
            operator: FilterOperator::Equals,
            value: text("open"),
        }]),
        limit: Some(2),
        offset: Some(1),
        ..filter_of_type("task")
    };
    let ids: Vec<String> = w.filtered(&filter).into_iter().map(|n| n.id).collect();
    assert_eq!(ids, vec!["t-2", "t-4"]);
}

#[test]
fn nodes_of_one_status_are_found() {
    let mut w = World::new();
    w.add("text", "a");
    let id = w.add("text", "b");
    w.find_mut(id.as_str()).unwrap().lifecycle_status = "archived".to_string();
    match w.run(&|s, log| s.query_nodes_by_type("text", Some("archived"), log)).unwrap() {
        Outcome::Nodes { nodes } => {
            assert_eq!(nodes.len(), 1);
            assert_eq!(nodes[0].id, id);
        }
        other => panic!("{:?}", other),
    }
}

#[test]
fn test_get_children_tree_leaf_node() {
    let mut w = World::new();
    let id = w.add("text", "Leaf node");
    let tree = w.tree(id.as_str());
    assert_eq!(tree.get("id"), Some(&text(id.as_str())));
    assert_eq!(tree.get("content"), Some(&text("Leaf node")));
    assert_eq!(tree.get("children"), Some(&array(vec![])));
}

#[test]
fn test_get_children_tree_single_level() {
    let mut w = World::new();
    let parent = w.add("text", "Parent");
    let child1 = w.add("text", "Child 1");
    w.put_under(child1.as_str(), parent.as_str(), None);
    let child2 = w.add("text", "Child 2");
    w.put_under(child2.as_str(), parent.as_str(), Some(child1.as_str()));
    let tree = w.tree(parent.as_str());
    assert_eq!(tree.get("id"), Some(&text(parent.as_str())));
    let children = items(tree.get("children"));
    assert_eq!(children.len(), 2);
    assert_eq!(children[0].get("content"), Some(&text("Child 1")));
    assert_eq!(children[1].get("content"), Some(&text("Child 2")));
}

#[test]
fn test_get_children_tree_deep_hierarchy() {
    let mut w = World::new();
    let root = w.add("text", "Root");
    let child = w.add("text", "Child");
    w.put_under(child.as_str(), root.as_str(), None);
    let grandchild = w.add("text", "Grandchild");
    w.put_under(grandchild.as_str(), child.as_str(), None);
    let tree = w.tree(root.as_str());
    assert_eq!(tree.get("id"), Some(&text(root.as_str())));
    assert_eq!(tree.get("content"), Some(&text("Root")));
    let children = items(tree.get("children"));
    assert_eq!(children.len(), 1);
    assert_eq!(children[0].get("content"), Some(&text("Child")));
    let grandchildren = items(children[0].get("children"));
    assert_eq!(grandchildren.len(), 1);
    assert_eq!(grandchildren[0].get("content"), Some(&text("Grandchild")));
    assert_eq!(grandchildren[0].get("children"), Some(&array(vec![])));
}

#[test]
fn test_get_children_tree_sibling_ordering() {
    let mut w = World::new();
    let parent = w.add("text", "Parent");
    let a = w.add("text", "A");
    w.put_under(a.as_str(), parent.as_str(), None);
    let b = w.add("text", "B");
    w.put_under(b.as_str(), parent.as_str(), Some(a.as_str()));
    let c = w.add("text", "C");
    w.put_under(c.as_str(), parent.as_str(), Some(b.as_str()));
    let contents: Vec<Value> = items(w.tree(parent.as_str()).get("children"))
        .iter()
        .map(|n| n.get("content").unwrap().clone())
        .collect();
    assert_eq!(contents, vec![text("A"), text("B"), text("C")]);
}

#[test]
fn test_get_children_tree_nonexistent_root() {
    let mut w = World::new();
    assert_eq!(w.tree("nonexistent-id"), empty());
}

#[test]
fn test_move_node_rejects_date_node() {
    let mut w = World::new();
    w.add_as("2025-01-03", "date", "2025-01-03", empty());
    w.add_as("2025-01-04", "date", "2025-01-04", empty());
    let error = w.move_to("2025-01-03", "2025-01-04").unwrap_err();
    assert!(format!("{:?}", error).contains("cannot be moved"));
}

#[test]
fn test_move_node_prevents_circular_reference() {
    let mut w = World::new();
    let root = w.add("text", "Root");
    let a = w.add("text", "A");
    w.put_under(a.as_str(), root.as_str(), None);
    let b = w.add("text", "B");
    w.put_under(b.as_str(), a.as_str(), None);
    let c = w.add("text", "C");
    w.put_under(c.as_str(), b.as_str(), None);
    let error = w.move_to(a.as_str(), c.as_str()).unwrap_err();
    assert!(format!("{:?}", error).contains("ircular"));
}

#[test]
fn test_move_node_allows_non_root_node() {
    let mut w = World::new();
    let parent1 = w.add("text", "Parent1");
    let parent2 = w.add("text", "Parent2");
    let child = w.add("text", "Child");
    w.put_under(child.as_str(), parent1.as_str(), None);
    assert!(w.move_to(child.as_str(), parent2.as_str()).is_ok());
    assert_eq!(w.parent_of(child.as_str()), Some(parent2));
}

#[test]
fn a_move_with_an_old_version_is_refused() {
    let mut w = World::new();
    let parent = w.add("text", "Parent");
    let child = w.add("text", "Child");
    let result = w.run(&|s, log| s.move_node(child.as_str(), 7, Some(parent.as_str()), None, log));
    assert!(matches!(
        result,
        Err(NodeServiceError::VersionConflict { expected_version: 7, actual_version: 1, .. })
    ));
    assert_eq!(w.parent_of(child.as_str()), None);
    let result = w.run(&|s, log| s.move_node(child.as_str(), 1, Some(parent.as_str()), None, log));
    match result.unwrap() {
        Outcome::Node { node } => assert_eq!(node.version, 2),
        other => panic!("{:?}", other),
    }
}

#[test]
fn test_auto_creates_date_container() {
    let mut w = World::new();
    let id = w.create_with_parent(&params(None, "text", "My note", Some("2025-01-15"))).unwrap();
    let date = w.find("2025-01-15").unwrap();
    assert_eq!(date.node_type, "date");
    assert_eq!(date.content, "2025-01-15");
    assert_eq!(w.parent_of(id.as_str()), Some("2025-01-15".to_string()));
}

#[test]
fn test_create_root_node() {
    let mut w = World::new();
    let id = w.create_with_parent(&params(None, "text", "Root note", None)).unwrap();
    assert_eq!(w.parent_of(id.as_str()), None);
    let root = w.run(&|s, log| s.is_root_node(id.as_str(), log)).unwrap();
    assert!(matches!(root, Outcome::Flag { value: true }));
    assert_eq!(w.stale, vec![id]);
}

#[test]
fn test_validates_uuid_format() {
    let mut w = World::new();
    let result = w.create_with_parent(&params(Some("not-a-valid-uuid"), "text", "Test", None));
    assert!(matches!(result, Err(NodeServiceError::InvalidOperation(_))));
    assert_eq!(w.nodes.len(), 0);
}

#[test]
fn test_allows_test_prefix_ids() {
    let mut w = World::new();
    let id =
        w.create_with_parent(&params(Some("test-my-node-123"), "text", "Test node", None)).unwrap();
    assert_eq!(id, "test-my-node-123");
}

#[test]
fn a_missing_parent_is_refused() {
    let mut w = World::new();
    let result = w.create_with_parent(&params(None, "text", "Test", Some("nowhere")));
    assert!(matches!(result, Err(NodeServiceError::InvalidParent { .. })));
    assert_eq!(w.nodes.len(), 0);
}

#[test]
fn test_sibling_with_different_parent_falls_back_to_append() {
    let mut w = World::new();
    let parent1 = w.add("text", "Parent1");
    let parent2 = w.add("text", "Parent2");
    let sibling = w.add("text", "Sibling");
    w.put_under(sibling.as_str(), parent1.as_str(), None);
    let only = w.add("text", "Only");
    w.put_under(only.as_str(), parent2.as_str(), None);
    let mut p = params(None, "text", "New node", Some(parent2.as_str()));
    p.insert_after_node_id = Some(sibling);
    w.create_with_parent(&p).unwrap();
    assert_eq!(w.contents_below(parent2.as_str()), vec!["Only", "New node"]);
}

#[test]
fn test_insert_at_beginning_by_default() {
    let mut w = World::new();
    let parent = w.add("text", "Parent");
    w.create_with_parent(&params(Some("test-child-1"), "text", "Child 1", Some(parent.as_str())))
        .unwrap();
    w.create_with_parent(&params(Some("test-child-2"), "text", "Child 2", Some(parent.as_str())))
        .unwrap();
    assert_eq!(w.contents_below(parent.as_str()), vec!["Child 2", "Child 1"]);
}

#[test]
fn test_node_service_seeds_fresh_database() {
    let mut w = World::new();
    let schemas = core_schemas();
    w.run(&|_, log| NodeService::seed_core_schemas_if_needed(&schemas, log)).unwrap();
    for id in CORE {
        assert!(w.find(id).is_some());
    }
}

#[test]
fn test_node_service_idempotent_seeding() {
    let mut w = World::new();
    let schemas = core_schemas();
    w.run(&|_, log| NodeService::seed_core_schemas_if_needed(&schemas, log)).unwrap();
    let first = w.nodes.len();
    w.run(&|_, log| NodeService::seed_core_schemas_if_needed(&schemas, log)).unwrap();
    assert_eq!(w.nodes.len(), first);
    assert_eq!(w.find("task").unwrap().node_type, "schema");
}

const CORE: [&str; 7] =
    ["task", "text", "date", "header", "code-block", "quote-block", "ordered-list"];

fn core_schemas() -> Vec<Node> {
    CORE.iter().map(|id| make_node(id, "schema", id, empty(), NOW)).collect()
}

fn bulk(id: &str, node_type: &str, parent: Option<&str>, order: f64) -> BulkNode {
    BulkNode {
        id: id.to_string(),
        node_type: node_type.to_string(),
        content: id.to_string(),
        parent_id: parent.map(|s| s.to_string()),
        order: float(order),
        properties: empty(),
    }
}

#[test]
fn templates_are_seeded_once_per_type() {
    let mut w = World::new();
    let id = "550e8400-e29b-41d4-a716-446655440000";
    let groups = vec![
        vec![bulk(id, "agent", None, 1.0), bulk("child", "text", Some(id), 1.0)],
        vec![],
    ];
    w.run(&|s, log| s.seed_nodes_from_templates(&groups, log)).unwrap();
    assert_eq!(w.nodes.len(), 2);
    assert_eq!(w.parent_of("child"), Some(id.to_string()));
    w.run(&|s, log| s.seed_nodes_from_templates(&groups, log)).unwrap();
    assert_eq!(w.nodes.len(), 2);
}

#[test]
fn imports_are_checked_and_put_in_storage_form() {
    let mut w = World::new();
    let root = bulk("r", "text", None, 1.0);
    let task = BulkNode {
        properties: object(vec![("status", text("done"))]),
        ..bulk("t", "task", Some("r"), 1.0)
    };
    let nodes = vec![root.clone(), task.clone()];
    w.run(&|s, log| s.bulk_create_hierarchy(&nodes, NOW, log)).unwrap();
    assert_eq!(at(&w.find("t").unwrap().properties, "task", "status"), "done");
    assert_eq!(w.parent_of("t"), Some("r".to_string()));

    let mut w = World::new();
    let wrong = BulkNode { properties: object(vec![("status", text("never"))]), ..task };
    let nodes = vec![root, wrong];
    let result = w.run(&|s, log| s.bulk_create_hierarchy_root_notify(&nodes, NOW, log));
    assert!(matches!(result, Err(NodeServiceError::InvalidUpdate(_))));
    assert_eq!(w.nodes.len(), 0);
    w.run(&|s, log| s.bulk_create_hierarchy_trusted(&nodes, NOW, log)).unwrap();
    assert_eq!(w.nodes.len(), 2);
    assert_eq!(w.stale, vec!["r".to_string()]);
}

fn schema_with(relationships: Vec<Value>) -> Value {
    object(vec![
        ("isCore", Value::Bool(false)),
        ("version", number(1)),
        ("fields", array(vec![])),
        ("relationships", array(relationships)),
    ])
}

fn relationship(name: &str, target: &str, cardinality: &str) -> Value {
    object(vec![
        ("name", text(name)),
        ("targetType", text(target)),
        ("direction", text("out")),
        ("cardinality", text(cardinality)),
    ])
}

#[test]
fn test_schema_relationship_reserved_name_validation() {
    let mut w = World::new();
    let node = make_node(
        "bad_schema",
        "schema",
        "BadSchema",
        schema_with(vec![relationship("has_child", "other", "many")]),
        NOW,
    );
    let error = w.create(&node).unwrap_err();
    assert!(format!("{:?}", error).contains("reserved"));
}

#[test]
fn test_create_relationship_basic() {
    let mut w = World::new();
    w.add_as("person_basic", "schema", "Person", schema_with(vec![]));
    w.add_as(
        "document_basic",
        "schema",
        "Document",
        schema_with(vec![relationship("authored_by", "person_basic", "many")]),
    );
    w.add_as("doc-1", "document_basic", "Architecture Doc", empty());
    w.add_as("person-1", "person_basic", "Alice", empty());
    w.link("doc-1", "authored_by", "person-1", empty()).unwrap();
    assert_eq!(w.related("doc-1", "authored_by", "out"), vec!["person-1"]);
    assert_eq!(w.got("person-1").content, "Alice");
    let edges = w.edges.len();
    w.link("doc-1", "authored_by", "person-1", empty()).unwrap();
    assert_eq!(w.edges.len(), edges);
}

#[test]
fn test_delete_relationship() {
    let mut w = World::new();
    w.add_as("person_del", "schema", "Person", schema_with(vec![]));
    w.add_as(
        "task_del",
        "schema",
        "Task",
        schema_with(vec![relationship("assigned_to", "person_del", "many")]),
    );
    w.add_as("task-3", "task_del", "Test task", empty());
    w.add_as("person-3", "person_del", "Charlie", empty());
    w.link("task-3", "assigned_to", "person-3", empty()).unwrap();
    assert_eq!(w.related("task-3", "assigned_to", "out").len(), 1);
    w.run(&|s, log| s.delete_relationship("task-3", "assigned_to", "person-3", log)).unwrap();
    assert_eq!(w.related("task-3", "assigned_to", "out").len(), 0);
}

#[test]
fn test_relationship_cardinality_one_enforcement() {
    let mut w = World::new();
    w.add_as("customer_card", "schema", "Customer", schema_with(vec![]));
    w.add_as(
        "invoice_card",
        "schema",
        "Invoice",
        schema_with(vec![relationship("billed_to", "customer_card", "one")]),
    );
    w.add_as("inv-1", "invoice_card", "Invoice #001", empty());
    w.add_as("cust-1", "customer_card", "Acme Corp", empty());
    w.add_as("cust-2", "customer_card", "Initech", empty());
    w.link("inv-1", "billed_to", "cust-1", empty()).unwrap();
    let error = w.link("inv-1", "billed_to", "cust-2", empty()).unwrap_err();
    assert!(format!("{:?}", error).contains("cardinality"));
}

#[test]
fn test_relationship_target_type_validation() {
    let mut w = World::new();
    w.add_as("person_valid", "schema", "Person", schema_with(vec![]));
    w.add_as("project_valid", "schema", "Project", schema_with(vec![]));
    w.add_as(
        "task_valid",
        "schema",
        "Task",
        schema_with(vec![relationship("assigned_to", "person_valid", "many")]),
    );
    w.add_as("task-4", "task_valid", "Test task", empty());
    w.add_as("proj-1", "project_valid", "NodeSpace", empty());
    let error = w.link("task-4", "assigned_to", "proj-1", empty()).unwrap_err();
    let message = format!("{:?}", error);
    assert!(message.contains("type") || message.contains("mismatch"));
}

#[test]
fn test_type_change_preserves_old_type_properties() {
    let mut w = World::new();
    let id = w.fresh();
    w.add_as(
        id.as_str(),
        "task",
        "Important work item",
        object(vec![(
            "task",
            object(vec![("status", text("in_progress")), ("priority", text("high"))]),
        )]),
    );
    let as_task = w.got(id.as_str());
    assert_eq!(at(&as_task.properties, "task", "status"), "in_progress");
    assert_eq!(at(&as_task.properties, "task", "priority"), "high");
    w.update(id.as_str(), &with_type("text")).unwrap();
    let as_text = w.got(id.as_str());
    assert_eq!(as_text.node_type, "text");
    assert_eq!(at(&as_text.properties, "task", "status"), "in_progress");
    assert_eq!(at(&as_text.properties, "task", "priority"), "high");
    w.update(id.as_str(), &with_type("task")).unwrap();
    let restored = w.got(id.as_str());
    assert_eq!(restored.node_type, "task");
    assert_eq!(at(&restored.properties, "task", "status"), "in_progress");
    assert_eq!(at(&restored.properties, "task", "priority"), "high");
}

#[test]
fn test_same_property_name_different_types_no_conflict() {
    let mut w = World::new();
    let id = w.fresh();
    w.add_as(
        id.as_str(),
        "task",
        "Multi-purpose node",
        object(vec![("task", object(vec![("status", text("done"))]))]),
    );
    let update = NodeUpdate {
        node_type: Some("text".to_string()),
        properties: Some(object(vec![("custom", object(vec![("status", text("draft"))]))])),
        ..no_update()
    };
    w.update(id.as_str(), &update).unwrap();
    let after = w.got(id.as_str());
    assert_eq!(after.node_type, "text");
    assert_eq!(at(&after.properties, "task", "status"), "done");
    assert_eq!(at(&after.properties, "custom", "status"), "draft");
    w.update(id.as_str(), &with_type("task")).unwrap();
    let last = w.got(id.as_str());
    assert_eq!(last.node_type, "task");
    assert_eq!(at(&last.properties, "task", "status"), "done");
    assert_eq!(at(&last.properties, "custom", "status"), "draft");
}

#[test]
fn test_updating_current_type_preserves_dormant_properties() {
    let mut w = World::new();
    let id = w.fresh();
    w.add_as(
        id.as_str(),
        "task",
        "Task with dormant data",
        object(vec![("task", object(vec![("status", text("open")), ("priority", text("low"))]))]),
    );
    let to_text = NodeUpdate {
        node_type: Some("text".to_string()),
        properties: Some(object(vec![("text", object(vec![("format", text("markdown"))]))])),
        ..no_update()
    };
    w.update(id.as_str(), &to_text).unwrap();
    w.update(
        id.as_str(),
        &with_properties(object(vec![("text", object(vec![("format", text("plain"))]))])),
    )
    .unwrap();
    let after = w.got(id.as_str());
    assert_eq!(at(&after.properties, "task", "status"), "open");
    assert_eq!(at(&after.properties, "task", "priority"), "low");
    assert_eq!(at(&after.properties, "text", "format"), "plain");
}

#[test]
fn test_create_member_of_relationship() {
    let mut w = World::new();
    let collection = w.add("collection", "My Collection");
    let id = w.add("text", "Test content");
    w.link(id.as_str(), "member_of", collection.as_str(), empty()).unwrap();
    assert_eq!(w.related(id.as_str(), "member_of", "out"), vec![collection.clone()]);
    assert_eq!(w.related(collection.as_str(), "member_of", "in"), vec![id]);
}

#[test]
fn test_member_of_validates_target_is_collection() {
    let mut w = World::new();
    let id1 = w.add("text", "Text 1");
    let id2 = w.add("text", "Text 2");
    let error = w.link(id1.as_str(), "member_of", id2.as_str(), empty()).unwrap_err();
    assert!(format!("{:?}", error).contains("must be a collection"));
}

#[test]
fn test_create_member_of_idempotent() {
    let mut w = World::new();
    let collection = w.add("collection", "My Collection");
    let id = w.add("text", "Test content");
    w.link(id.as_str(), "member_of", collection.as_str(), empty()).unwrap();
    w.link(id.as_str(), "member_of", collection.as_str(), empty()).unwrap();
    assert_eq!(w.related(id.as_str(), "member_of", "out").len(), 1);
}

#[test]
fn test_delete_member_of_relationship() {
    let mut w = World::new();
    let collection = w.add("collection", "My Collection");
    let id = w.add("text", "Test content");
    w.link(id.as_str(), "member_of", collection.as_str(), empty()).unwrap();
    assert_eq!(w.related(id.as_str(), "member_of", "out").len(), 1);
    w.run(&|s, log| s.delete_relationship(id.as_str(), "member_of", collection.as_str(), log))
        .unwrap();
    assert_eq!(w.related(id.as_str(), "member_of", "out").len(), 0);
}

#[test]
fn test_delete_relationship_idempotent() {
    let mut w = World::new();
    let collection = w.add("collection", "My Collection");
    let id = w.add("text", "Test content");
    let events = w.events.len();
    let result = w
        .run(&|s, log| s.delete_relationship(id.as_str(), "member_of", collection.as_str(), log));
    assert!(result.is_ok());
    assert_eq!(w.events.len(), events);
}

#[test]
fn test_create_mentions_relationship() {
    let mut w = World::new();
    let id1 = w.add("text", "This mentions another node");
    let id2 = w.add("text", "I am mentioned");
    w.link(id1.as_str(), "mentions", id2.as_str(), empty()).unwrap();
    assert_eq!(w.related(id1.as_str(), "mentions", "out"), vec![id2.clone()]);
    assert_eq!(w.related(id2.as_str(), "mentions", "in"), vec![id1]);
}

#[test]
fn test_create_has_child_relationship() {
    let mut w = World::new();
    let parent = w.add("text", "Parent node");
    let child = w.add("text", "Child node");
    w.link(parent.as_str(), "has_child", child.as_str(), empty()).unwrap();
    assert_eq!(w.related(parent.as_str(), "has_child", "out"), vec![child.clone()]);
    assert_eq!(w.related(child.as_str(), "has_child", "in"), vec![parent]);
}

#[test]
fn test_unknown_builtin_relationship_fails() {
    let mut w = World::new();
    let id1 = w.add("text", "Text 1");
    let id2 = w.add("text", "Text 2");
    assert!(w.link(id1.as_str(), "fake_relationship", id2.as_str(), empty()).is_err());
}

#[test]
fn test_multiple_collections_membership() {
    let mut w = World::new();
    let first = w.add("collection", "Collection 1");
    let second = w.add("collection", "Collection 2");
    let id = w.add("text", "Belongs to both");
    w.link(id.as_str(), "member_of", first.as_str(), empty()).unwrap();
    w.link(id.as_str(), "member_of", second.as_str(), empty()).unwrap();
    assert_eq!(w.related(id.as_str(), "member_of", "out"), vec![first, second]);
}

#[test]
fn test_create_relationship_has_child_auto_order() {
    let mut w = World::new();
    let parent = w.add("text", "Parent node");
    for name in ["First child", "Second child", "Third child"] {
        let child = w.add("text", name);
        w.link(parent.as_str(), "has_child", child.as_str(), empty()).unwrap();
    }
    let orders: Vec<f64> = w.child_edges(parent.as_str()).iter().map(|c| c.1).collect();
    assert_eq!(orders.len(), 3);
    assert!(orders.iter().all(|o| *o > 0.5));
    assert!(orders[0] < orders[1] && orders[1] < orders[2]);
    assert_eq!(
        w.contents_below(parent.as_str()),
        vec!["First child", "Second child", "Third child"]
    );
}

#[test]
fn test_create_relationship_member_of_explicit_order() {
    let mut w = World::new();
    let collection = w.add("collection", "Explicit Order Collection");
    let third = w.add("text", "Should be third");
    let first = w.add("text", "Should be first");
    let second = w.add("text", "Should be second");
    for (id, order) in [(&third, 3.0), (&first, 1.0), (&second, 2.0)] {
        let data = object(vec![("order", float(order))]);
        w.link(id.as_str(), "member_of", collection.as_str(), data).unwrap();
    }
    let mut members: Vec<(f64, String)> = w
        .edges
        .iter()
        .filter(|e| e.relationship == "member_of" && e.target == collection)
        .map(|e| (as_float(e.properties.get("order").unwrap()), e.source.clone()))
        .collect();
    members.sort_by(|a, b| a.0.total_cmp(&b.0));
    assert_eq!(members, vec![(1.0, first), (2.0, second), (3.0, third)]);
}

#[test]
fn missing_required_relationships_are_listed() {
    let mut w = World::new();
    w.add_as("customer", "schema", "Customer", schema_with(vec![]));
    let required = object(vec![
        ("name", text("billed_to")),
        ("targetType", text("customer")),
        ("cardinality", text("one")),
        ("required", Value::Bool(true)),
    ]);
    w.add_as("invoice", "schema", "Invoice", schema_with(vec![required]));
    w.add_as("inv", "invoice", "Invoice", empty());
    w.add_as("cust", "customer", "Customer", empty());
    match w.run(&|s, log| s.check_node_completeness("inv", log)).unwrap() {
        Outcome::Completeness { result } => {
            assert!(format!("{:?}", result).contains("billed_to"));
        }
        other => panic!("{:?}", other),
    }
    w.link("inv", "billed_to", "cust", empty()).unwrap();
    match w.run(&|s, log| s.check_node_completeness("inv", log)).unwrap() {
        Outcome::Completeness { result } => {
            assert!(!format!("{:?}", result).contains("billed_to"));
        }
        other => panic!("{:?}", other),
    }
}

#[test]
fn test_collection_title_set_on_create() {
    let mut w = World::new();
    let id = w.add("collection", "My Test Collection");
    assert_eq!(w.got(id.as_str()).title, Some("My Test Collection".to_string()));
}

#[test]
fn test_collection_title_updated_on_content_change() {
    let mut w = World::new();
    let id = w.add("collection", "Original Name");
    assert_eq!(w.got(id.as_str()).title, Some("Original Name".to_string()));
    w.update(id.as_str(), &with_content("Updated Name")).unwrap();
    assert_eq!(w.got(id.as_str()).title, Some("Updated Name".to_string()));
}

#[test]
fn test_collection_title_strips_markdown() {
    let mut w = World::new();
    let id = w.add("collection", "**Bold** Collection");
    assert_eq!(w.got(id.as_str()).title, Some("Bold Collection".to_string()));
}

#[test]
fn test_collection_title_via_create_node_with_parent() {
    let mut w = World::new();
    let id = w.create_with_parent(&params(None, "collection", "Root Collection", None)).unwrap();
    assert_eq!(w.got(id.as_str()).title, Some("Root Collection".to_string()));
}

fn template_schema(w: &mut World, id: &str, template: &str, fields: &[&str]) {
    let fields = fields
        .iter()
        .map(|f| object(vec![("name", text(f)), ("type", text("string"))]))
        .collect();
    w.add_as(
        id,
        "schema",
        id,
        object(vec![
            ("isCore", Value::Bool(false)),
            ("titleTemplate", text(template)),
            ("fields", array(fields)),
            ("relationships", array(vec![])),
        ]),
    );
}

#[test]
fn test_title_template_on_create() {
    let mut w = World::new();
    template_schema(&mut w, "customer", "{first_name} {last_name}", &["first_name", "last_name"]);
    let id = w.fresh();
    w.add_as(
        id.as_str(),
        "customer",
        "",
        object(vec![("first_name", text("John")), ("last_name", text("Doe"))]),
    );
    assert_eq!(w.got(id.as_str()).title, Some("John Doe".to_string()));
}

#[test]
fn test_title_template_recomputed_on_property_update() {
    let mut w = World::new();
    template_schema(&mut w, "customer2", "{first_name} {last_name}", &["first_name", "last_name"]);
    let id = w.fresh();
    w.add_as(
        id.as_str(),
        "customer2",
        "",
        object(vec![("first_name", text("Jane")), ("last_name", text("Smith"))]),
    );
    assert_eq!(w.got(id.as_str()).title, Some("Jane Smith".to_string()));
    w.update(id.as_str(), &with_properties(object(vec![("first_name", text("Janet"))]))).unwrap();
    assert_eq!(w.got(id.as_str()).title, Some("Janet Smith".to_string()));
}

#[test]
fn test_title_template_takes_priority_over_content() {
    let mut w = World::new();
    template_schema(&mut w, "customer3", "{first_name} {last_name}", &["first_name", "last_name"]);
    let id = w.fresh();
    w.add_as(
        id.as_str(),
        "customer3",
        "original content",
        object(vec![("first_name", text("Alice")), ("last_name", text("Wonder"))]),
    );
    assert_eq!(w.got(id.as_str()).title, Some("Alice Wonder".to_string()));
    w.update(id.as_str(), &with_content("updated content")).unwrap();
    assert_eq!(w.got(id.as_str()).title, Some("Alice Wonder".to_string()));
}

#[test]
fn test_no_title_template_falls_back_to_content() {
    let mut w = World::new();
    w.add_as("widget", "schema", "Widget", schema_with(vec![]));
    let id = w.create_with_parent(&params(None, "widget", "My Widget", None)).unwrap();
    assert_eq!(w.got(id.as_str()).title, Some("My Widget".to_string()));
}

#[test]
fn test_title_template_missing_fields_graceful() {
    let mut w = World::new();
    template_schema(
        &mut w,
        "contact",
        "{first_name} {last_name} ({email})",
        &["first_name", "last_name", "email"],
    );
    let id = w.fresh();
    w.add_as(id.as_str(), "contact", "", object(vec![("first_name", text("Bob"))]));
    assert_eq!(w.got(id.as_str()).title, Some("Bob ()".to_string()));
}

#[test]
fn a_versioned_update_names_both_versions_when_it_conflicts() {
    let mut w = World::new();
    let id = w.add("text", "Original");
    let result = w.run(&|s, log| s.update_node(id.as_str(), 9, &with_content("Changed"), log));
    assert!(matches!(
        result,
        Err(NodeServiceError::VersionConflict { expected_version: 9, actual_version: 1, .. })
    ));
    assert_eq!(w.got(id.as_str()).content, "Original");
    let result = w.run(&|s, log| s.update_node(id.as_str(), 1, &with_content("Changed"), log));
    match result.unwrap() {
        Outcome::Node { node } => {
            assert_eq!(node.content, "Changed");
            assert_eq!(node.version, 2);
        }
        other => panic!("{:?}", other),
    }
}

#[test]
fn deletion_takes_what_lies_below_with_it() {
    let mut w = World::new();
    let root = w.add("text", "Root");
    let child = w.add("text", "Child");
    w.put_under(child.as_str(), root.as_str(), None);
    let grandchild = w.add("text", "Grandchild");
    w.put_under(grandchild.as_str(), child.as_str(), None);
    let outcome = w.run(&|s, log| s.delete_node(root.as_str(), 1, log)).unwrap();
    assert!(matches!(outcome, Outcome::Deleted { existed: true }));
    assert_eq!(w.nodes.len(), 0);
    let outcome = w.run(&|s, log| s.delete_node(root.as_str(), 1, log)).unwrap();
    assert!(matches!(outcome, Outcome::Deleted { existed: false }));
}

#[test]
fn upserting_makes_a_missing_parent_a_date() {
    let mut w = World::new();
    w.run(&|s, log| {
        s.upsert_node_with_parent("n-1", "Text", "text", "2025-03-01", "2025-03-01", None, NOW, log)
    })
    .unwrap();
    assert_eq!(w.find("2025-03-01").unwrap().node_type, "date");
    assert_eq!(w.parent_of("n-1"), Some("2025-03-01".to_string()));
    w.run(&|s, log| {
        s.upsert_node_with_parent("n-1", "New", "text", "2025-03-01", "2025-03-01", None, NOW, log)
    })
    .unwrap();
    assert_eq!(w.find("n-1").unwrap().content, "New");
    assert_eq!(w.nodes.len(), 2);
}

#[test]
fn failures_of_the_store_are_reported() {
    let mut w = World::new();
    let id = w.add("text", "Node");
    w.failing = Some("LoadNode ");
    assert!(matches!(
        w.get(id.as_str()),
        Err(NodeServiceError::DatabaseError { context })
            if context == "Database operation failed: disk on fire"
    ));
    w.failing = Some("LoadSchema ");
    assert!(matches!(
        w.get(id.as_str()),
        Err(NodeServiceError::QueryFailed(m)) if m == "disk on fire"
    ));
    w.failing = Some("LoadMentions ");
    assert!(matches!(
        w.get(id.as_str()),
        Err(NodeServiceError::QueryFailed(m))
            if m == "Failed to get outgoing mentions: disk on fire"
    ));
    w.failing = Some("StoreBulkUpdate ");
    let updates = vec![(id.clone(), with_content("x"))];
    assert!(matches!(
        w.run(&|s, log| s.bulk_update(&updates, log)),
        Err(NodeServiceError::BulkOperationFailed(m))
            if m == "Failed to execute bulk update transaction: disk on fire"
    ));
    w.failing = Some("LoadSubtree ");
    assert!(matches!(
        w.run(&|s, log| s.get_children_tree(id.as_str(), log)),
        Err(NodeServiceError::QueryFailed(m)) if m == "Failed to fetch subtree: disk on fire"
    ));
}

#[test]
fn a_reply_that_does_not_fit_is_noticed() {
    let service = NodeService::new();
    let log = vec![Reply::Flag { value: true }];
    assert!(matches!(service.get_node("a", NOW, &log), Step::Mismatch));
    assert!(matches!(service.bulk_delete(&vec!["a".to_string()], &log), Step::Mismatch));
}

#[test]
fn test_get_virtual_date_node_as_parent() {
    let mut w = World::new();
    let before = w.got("2025-10-13");
    assert_eq!(before.node_type, "date");
    assert_eq!(before.content, "2025-10-13");
    assert_eq!(w.filtered(&dates_with_id("2025-10-13")).len(), 0);
}

#[test]
fn test_virtual_date_persists_when_child_created() {
    let mut w = World::new();
    assert_eq!(w.got("2025-10-13").content, "2025-10-13");
}

#[test]
fn test_bulk_update_with_larger_batch() {
    let mut w = World::new();
    let mut updates = vec![];
    for i in 0..15 {
        let id = w.add("text", &format!("Original content {}", i));
        updates.push((id, with_content(&format!("Updated content {}", i))));
    }
    w.run(&|s, log| s.bulk_update(&updates, log)).unwrap();
    for (i, (id, _)) in updates.iter().enumerate() {
        assert_eq!(w.got(id).content, format!("Updated content {}", i));
    }
}

#[test]
fn test_bulk_update_with_mixed_node_types() {
    let mut w = World::new();
    let text_id = w.add("text", "Text content");
    let task_id = w.add_task("Task content");
    let updates = vec![
        (text_id.clone(), with_content("Updated text")),
        (task_id.clone(), with_content("Updated task")),
    ];
    w.run(&|s, log| s.bulk_update(&updates, log)).unwrap();
    let updated_text = w.got(text_id.as_str());
    let updated_task = w.got(task_id.as_str());
    assert_eq!(updated_text.content, "Updated text");
    assert_eq!(updated_text.node_type, "text");
    assert_eq!(updated_task.content, "Updated task");
    assert_eq!(updated_task.node_type, "task");
    assert_eq!(at(&updated_task.properties, "task", "status"), "open");
}

#[test]
fn test_bidirectional_mentions() {
    let mut w = World::new();
    let id1 = w.add("text", "Node 1");
    let id2 = w.add("text", "Node 2");
    w.mention(id1.as_str(), id2.as_str()).unwrap();
    w.mention(id2.as_str(), id1.as_str()).unwrap();
    assert_eq!(w.got(id1.as_str()).mentions, vec![id2.clone()]);
    assert_eq!(w.mentioned_by(id1.as_str()), vec![id2.clone()]);
    assert_eq!(w.got(id2.as_str()).mentions, vec![id1.clone()]);
    assert_eq!(w.mentioned_by(id2.as_str()), vec![id1]);
}

#[test]
fn test_create_mention_persists_correctly() {
    let mut w = World::new();
    let id1 = w.add("text", "Node 1");
    let id2 = w.add("text", "Node 2");
    w.run(&|s, log| s.create_mention(id1.as_str(), id2.as_str(), log)).unwrap();
    assert_eq!(w.mentions_of(id1.as_str()), vec![id2.clone()]);
    assert_eq!(w.mentioned_by(id2.as_str()), vec![id1.clone()]);
    w.run(&|s, log| s.create_mention(id1.as_str(), id2.as_str(), log)).unwrap();
    assert_eq!(w.mentions_of(id1.as_str()).len(), 1);
}

#[test]
fn content_contains_with_filter() {
    let mut w = World::new();
    let root = w.add("text", "Team meeting notes");
    let open = object(vec![("task", object(vec![("status", text("open"))]))]);
    let task = w.add_as("task-meeting", "task", "Schedule meeting", open);
    let child = w.add_as("text-meeting", "text", "Meeting agenda item", empty());
    let ids = w.found(&query_for_content("meeting"));
    assert_eq!(ids.len(), 3);
    assert!(ids.contains(&root));
    assert!(ids.contains(&task));
    assert!(ids.contains(&child));
}

#[test]
fn mentioned_by_with_filter() {
    let mut w = World::new();
    let open = object(vec![("task", object(vec![("status", text("open"))]))]);
    let target = w.add_as("target-node", "text", "Target", empty());
    let root = w.add_as("root-1", "text", "Root mentioning @target-node", empty());
    let task = w.add_as("task-mentions", "task", "Task with @target-node reference", open);
    let child = w.add_as("text-mentions", "text", "Text with @target-node", empty());
    for id in [&root, &task, &child] {
        w.run(&|s, log| s.create_mention(id, target.as_str(), log)).unwrap();
    }
    let query = NodeQuery {
        content_contains: None,
        mentioned_by: Some(target.clone()),
        ..query_for_content("")
    };
    let ids = w.found(&query);
    assert_eq!(ids.len(), 3);
    assert!(ids.contains(&root));
    assert!(ids.contains(&task));
    assert!(ids.contains(&child));
}

#[test]
fn node_type_with_filter() {
    let mut w = World::new();
    let open = || object(vec![("task", object(vec![("status", text("open"))]))]);
    w.add_as("task-root", "task", "Root task", open());
    w.add_as("task-child", "task", "Child task", open());
    let query = NodeQuery {
        content_contains: None,
        node_type: Some("task".to_string()),
        ..query_for_content("")
    };
    assert_eq!(w.found(&query).len(), 2);
}

#[test]
fn default_behavior() {
    let mut w = World::new();
    w.add("text", "UniqueDefaultTest Container");
    w.add("task", "UniqueDefaultTest Task");
    assert_eq!(w.found(&query_for_content("UniqueDefaultTest")).len(), 2);
}

fn noted_version<'a>(node: &'a Node) -> Option<&'a Value> {
    node.properties.get(node.node_type.as_str()).and_then(|n| n.get("_schema_version"))
}

#[test]
fn test_new_nodes_get_schema_version() {
    let mut w = World::new();
    let id = w.add("text", "Test content");
    assert_eq!(noted_version(&w.got(id.as_str())), None);
}

#[test]
fn test_auto_created_date_nodes_no_version() {
    let mut w = World::new();
    w.add_as("2025-01-15", "date", "2025-01-15", empty());
    assert_eq!(noted_version(&w.got("2025-01-15")), None);
}

#[test]
fn test_nodes_multiple_retrieval_consistent() {
    let mut w = World::new();
    let id = w.add("text", "Test content");
    let first = w.got(id.as_str());
    let second = w.got(id.as_str());
    assert_eq!(noted_version(&first), None);
    assert_eq!(noted_version(&second), None);
    assert_eq!(first.modified_at, second.modified_at);
}

#[test]
fn nodes_of_a_type_with_fields_note_the_version_of_its_schema() {
    let mut w = World::new();
    let id = w.add_task("Task");
    assert_eq!(noted_version(&w.got(id.as_str())), Some(&number(1)));
}

fn field(name: &str, kind: &str) -> Value {
    object(vec![("name", text(name)), ("type", text(kind))])
}

fn required_field(name: &str, kind: &str) -> Value {
    object(vec![("name", text(name)), ("type", text(kind)), ("required", Value::Bool(true))])
}

#[test]
fn test_create_schema_with_relationships() {
    let mut w = World::new();
    let billed_to = object(vec![
        ("name", text("billed_to")),
        ("targetType", text("customer")),
        ("direction", text("out")),
        ("cardinality", text("one")),
        ("required", Value::Bool(true)),
        ("reverseName", text("invoices")),
        ("reverseCardinality", text("many")),
        (
            "edgeFields",
            array(vec![
                object(vec![
                    ("name", text("billing_date")),
                    ("fieldType", text("date")),
                    ("required", Value::Bool(true)),
                ]),
                object(vec![("name", text("payment_terms")), ("fieldType", text("string"))]),
            ]),
        ),
    ]);
    let id = w.add_as(
        "invoice",
        "schema",
        "Invoice",
        object(vec![
            ("isCore", Value::Bool(false)),
            ("version", number(1)),
            ("description", text("Invoice schema with customer relationship")),
            ("fields", array(vec![required_field("amount", "number"), field("due_date", "date")])),
            ("relationships", array(vec![billed_to])),
        ]),
    );
    let retrieved = w.got(id.as_str());
    assert_eq!(retrieved.node_type, "schema");
    assert_eq!(retrieved.content, "Invoice");
    let relationships = items(retrieved.properties.get("relationships"));
    assert_eq!(relationships.len(), 1);
    assert_eq!(relationships[0].get("name"), Some(&text("billed_to")));
    assert_eq!(relationships[0].get("targetType"), Some(&text("customer")));
    assert_eq!(relationships[0].get("direction"), Some(&text("out")));
    assert_eq!(relationships[0].get("cardinality"), Some(&text("one")));
}

#[test]
fn test_update_schema_add_relationships() {
    let mut w = World::new();
    let id = w.add_as(
        "project",
        "schema",
        "Project",
        object(vec![
            ("isCore", Value::Bool(false)),
            ("version", number(1)),
            ("description", text("Project schema")),
            ("fields", array(vec![required_field("title", "string")])),
            ("relationships", array(vec![])),
        ]),
    );
    let assigned_to = object(vec![
        ("name", text("assigned_to")),
        ("targetType", text("person")),
        ("direction", text("out")),
        ("cardinality", text("many")),
        ("reverseName", text("projects")),
        ("reverseCardinality", text("many")),
        (
            "edgeFields",
            array(vec![object(vec![
                ("name", text("role")),
                ("fieldType", text("string")),
                ("required", Value::Bool(true)),
            ])]),
        ),
    ]);
    let update = with_properties(object(vec![
        ("isCore", Value::Bool(false)),
        ("version", number(1)),
        ("description", text("Project schema with team relationships")),
        ("fields", array(vec![required_field("title", "string")])),
        ("relationships", array(vec![assigned_to])),
    ]));
    w.update(id.as_str(), &update).unwrap();
    let relationships = items(w.got(id.as_str()).properties.get("relationships"));
    assert_eq!(relationships.len(), 1);
    assert_eq!(relationships[0].get("name"), Some(&text("assigned_to")));
    assert_eq!(relationships[0].get("targetType"), Some(&text("person")));
}

#[test]
fn test_create_schema_multiple_relationships() {
    let mut w = World::new();
    let value = |v: &str, label: &str| object(vec![("value", text(v)), ("label", text(label))]);
    let status = object(vec![
        ("name", text("status")),
        ("type", text("enum")),
        ("required", Value::Bool(true)),
        ("coreValues", array(vec![value("open", "Open"), value("done", "Done")])),
    ]);
    let id = w.add_as(
        "task_test",
        "schema",
        "Task",
        object(vec![
            ("isCore", Value::Bool(true)),
            ("version", number(2)),
            ("description", text("Task schema with multiple relationships")),
            ("fields", array(vec![status])),
            (
                "relationships",
                array(vec![
                    relationship("assigned_to", "person", "many"),
                    relationship("part_of", "project", "one"),
                    relationship("blocked_by", "task", "many"),
                ]),
            ),
        ]),
    );
    let relationships = items(w.got(id.as_str()).properties.get("relationships"));
    assert_eq!(relationships.len(), 3);
    let names: Vec<String> = relationships.iter().map(|r| string_at(r, "name").unwrap()).collect();
    assert!(names.contains(&"assigned_to".to_string()));
    assert!(names.contains(&"part_of".to_string()));
    assert!(names.contains(&"blocked_by".to_string()));
}

#[test]
fn test_schema_forward_reference_allowed() {
    let mut w = World::new();
    let node = make_node(
        "invoice_fwd",
        "schema",
        "Invoice",
        schema_with(vec![relationship("billed_to", "customer", "one")]),
        NOW,
    );
    let result = w.create(&node);
    assert!(result.is_ok());
    let retrieved = w.got(result.unwrap().as_str());
    assert_eq!(items(retrieved.properties.get("relationships")).len(), 1);
}

#[test]
fn test_create_relationship_with_edge_data() {
    let mut w = World::new();
    w.add_as("person_edge", "schema", "Person", schema_with(vec![]));
    w.add_as(
        "task_edge",
        "schema",
        "Task",
        schema_with(vec![relationship("assigned_to", "person_edge", "many")]),
    );
    w.add_as("task-2", "task_edge", "Design feature", empty());
    w.add_as("person-2", "person_edge", "Bob", empty());
    w.link("task-2", "assigned_to", "person-2", object(vec![("role", text("owner"))])).unwrap();
    assert_eq!(w.related("task-2", "assigned_to", "out"), vec!["person-2"]);
    let edge = w.edges.iter().find(|e| e.relationship == "assigned_to").unwrap();
    assert_eq!(edge.properties.get("role"), Some(&text("owner")));
}

#[test]
fn test_get_related_nodes_reverse_direction() {
    let mut w = World::new();
    w.add_as("person_rev", "schema", "Person", schema_with(vec![]));
    w.add_as(
        "task_rev",
        "schema",
        "Task",
        schema_with(vec![relationship("assigned_to", "person_rev", "many")]),
    );
    w.add_as("person-4", "person_rev", "Dave", empty());
    w.add_as("task-5", "task_rev", "Task 1", empty());
    w.add_as("task-6", "task_rev", "Task 2", empty());
    w.link("task-5", "assigned_to", "person-4", empty()).unwrap();
    w.link("task-6", "assigned_to", "person-4", empty()).unwrap();
    assert_eq!(w.related("task-5", "assigned_to", "out"), vec!["person-4"]);
    assert_eq!(w.related("person-4", "assigned_to", "in"), vec!["task-5", "task-6"]);
}

#[test]
fn test_update_task_status() {
    let mut w = World::new();
    let id = w.add_task("Test task for status update");
    let before = w.task(id.as_str());
    assert_eq!(before.get("status"), Some(&text("open")));
    assert_eq!(before.get("version"), Some(&number(1)));
    let after = w.update_task(id.as_str(), 1, &with_status("in_progress")).unwrap();
    assert_eq!(after.get("status"), Some(&text("in_progress")));
    assert_eq!(after.get("version"), Some(&number(2)));
    let again = w.task(id.as_str());
    assert_eq!(again.get("status"), Some(&text("in_progress")));
    assert_eq!(again.get("version"), Some(&number(2)));
}

#[test]
fn test_update_task_priority() {
    let mut w = World::new();
    let id = w.add_task("Test task for priority update");
    let with_priority = |p: Option<&str>| TaskNodeUpdate {
        priority: Some(p.map(|s| s.to_string())),
        ..TaskNodeUpdate::new()
    };
    let high = w.update_task(id.as_str(), 1, &with_priority(Some("high"))).unwrap();
    assert_eq!(high.get("priority"), Some(&text("high")));
    let low = w.update_task(id.as_str(), 2, &with_priority(Some("low"))).unwrap();
    assert_eq!(low.get("priority"), Some(&text("low")));
    let cleared = w.update_task(id.as_str(), 3, &with_priority(None)).unwrap();
    assert_eq!(cleared.get("priority"), Some(&Value::Null));
}

#[test]
fn test_update_task_due_date() {
    let mut w = World::new();
    let id = w.add_task("Test task for due date update");
    let with_due = |d: Option<i64>| TaskNodeUpdate { due_date: Some(d), ..TaskNodeUpdate::new() };
    let after = w.update_task(id.as_str(), 1, &with_due(Some(NOW))).unwrap();
    assert_eq!(after.get("due_date"), Some(&number(NOW)));
    let cleared = w.update_task(id.as_str(), 2, &with_due(None)).unwrap();
    assert_eq!(cleared.get("due_date"), Some(&Value::Null));
}

#[test]
fn test_update_task_assignee() {
    let mut w = World::new();
    let id = w.add_task("Test task for assignee update");
    let after = w.update_task(id.as_str(), 1, &with_assignee(Some("user-123"))).unwrap();
    assert_eq!(after.get("assignee"), Some(&text("user-123")));
    let cleared = w.update_task(id.as_str(), 2, &with_assignee(None)).unwrap();
    assert_eq!(cleared.get("assignee"), Some(&Value::Null));
}

#[test]
fn test_update_task_assignee_with_special_characters() {
    let mut w = World::new();
    let id = w.add_task("Test task for SQL injection prevention");
    let value = "user'); DELETE task; --";
    let after = w.update_task(id.as_str(), 1, &with_assignee(Some(value))).unwrap();
    assert_eq!(after.get("assignee"), Some(&text(value)));
}

#[test]
fn test_update_task_content() {
    let mut w = World::new();
    let id = w.add_task("Original content");
    let update = TaskNodeUpdate {
        content: Some("Updated content".to_string()),
        ..TaskNodeUpdate::new()
    };
    let after = w.update_task(id.as_str(), 1, &update).unwrap();
    assert_eq!(after.get("content"), Some(&text("Updated content")));
}

#[test]
fn test_update_task_multiple_fields() {
    let mut w = World::new();
    let id = w.add_task("Multi-field update test");
    let update = TaskNodeUpdate {
        status: Some("done".to_string()),
        assignee: Some(Some("user-456".to_string())),
        content: Some("Completed task".to_string()),
        ..TaskNodeUpdate::new()
    };
    let after = w.update_task(id.as_str(), 1, &update).unwrap();
    assert_eq!(after.get("status"), Some(&text("done")));
    assert_eq!(after.get("assignee"), Some(&text("user-456")));
    assert_eq!(after.get("content"), Some(&text("Completed task")));
    assert_eq!(after.get("version"), Some(&number(2)));
}

#[test]
fn test_update_task_version_conflict() {
    let mut w = World::new();
    let id = w.add_task("Version conflict test");
    w.update_task(id.as_str(), 1, &with_status("in_progress")).unwrap();
    let result = w.update_task(id.as_str(), 1, &with_status("done"));
    assert!(matches!(
        result,
        Err(NodeServiceError::VersionConflict { node_id, .. }) if node_id == id
    ));
}

#[test]
fn test_update_task_not_found() {
    let mut w = World::new();
    match w.update_task("nonexistent-task", 1, &with_status("done")) {
        Err(NodeServiceError::NodeNotFound { id }) => assert_eq!(id, "nonexistent-task"),
        Err(NodeServiceError::VersionConflict { node_id, .. }) => {
            assert_eq!(node_id, "nonexistent-task")
        }
        other => panic!("{:?}", other),
    }
}

#[test]
fn test_update_task_empty_update_rejected() {
    let mut w = World::new();
    let id = w.add_task("Empty update test");
    match w.update_task(id.as_str(), 1, &TaskNodeUpdate::new()) {
        Err(NodeServiceError::InvalidUpdate(reason)) => assert!(reason.contains("no changes")),
        other => panic!("{:?}", other),
    }
}

#[test]
fn test_update_task_user_defined_status() {
    let mut w = World::new();
    let id = w.add_task("User-defined status test");
    let after = w.update_task(id.as_str(), 1, &with_status("blocked")).unwrap();
    assert_eq!(after.get("status"), Some(&text("blocked")));
    assert_eq!(w.task(id.as_str()).get("status"), Some(&text("blocked")));
}

#[test]
fn test_update_task_after_type_conversion_from_text() {
    let mut w = World::new();
    let id = format!("converted-task-{}", w.fresh());
    w.add_as(id.as_str(), "text", "This will become a task", empty());
    w.update(id.as_str(), &with_type("task")).unwrap();
    assert_eq!(w.got(id.as_str()).node_type, "task");
    let after = w.update_task(id.as_str(), 2, &with_status("in_progress")).unwrap();
    assert_eq!(after.get("status"), Some(&text("in_progress")));
    assert_eq!(after.get("content"), Some(&text("This will become a task")));
    assert_eq!(after.get("version"), Some(&number(3)));
    let again = w.task(id.as_str());
    assert_eq!(again.get("status"), Some(&text("in_progress")));
    assert_eq!(again.get("content"), Some(&text("This will become a task")));
}

#[test]
fn test_create_relationship_member_of_auto_order() {
    let mut w = World::new();
    let collection = w.add("collection", "Ordered Collection");
    let mut members = vec![];
    for name in ["First member", "Second member", "Third member"] {
        let id = w.add("text", name);
        w.link(id.as_str(), "member_of", collection.as_str(), empty()).unwrap();
        members.push(id);
    }
    let orders: Vec<f64> = w
        .edges
        .iter()
        .filter(|e| e.relationship == "member_of")
        .map(|e| as_float(e.properties.get("order").unwrap()))
        .collect();
    assert_eq!(orders.len(), 3);
    assert!(orders.iter().all(|o| *o > 0.0));
    assert!(orders[0] < orders[1] && orders[1] < orders[2]);
    assert_eq!(w.related(collection.as_str(), "member_of", "in"), members);
}

#[test]
fn test_node_accessor_get_node() {
    let mut w = World::new();
    let id = w.add("text", "Accessor test");
    assert_eq!(w.got(id.as_str()).content, "Accessor test");
    assert!(w.get("nonexistent-id").unwrap().is_none());
}

#[test]
fn test_node_accessor_get_children() {
    let mut w = World::new();
    let parent = w.add("text", "Parent");
    let child1 = w.add("text", "Child 1");
    let child2 = w.add("text", "Child 2");
    w.move_to(child1.as_str(), parent.as_str()).unwrap();
    w.run(&|s, log| {
        s.move_node_unchecked(child2.as_str(), Some(parent.as_str()), Some(child1.as_str()), log)
    })
    .unwrap();
    assert_eq!(w.contents_below(parent.as_str()).len(), 2);
    assert!(w.contents_below(child1.as_str()).is_empty());
}

#[test]
fn test_node_accessor_get_nodes_batch() {
    let mut w = World::new();
    let mut ids = vec![];
    for name in ["Batch 1", "Batch 2", "Batch 3"] {
        ids.push(w.add("text", name));
    }
    ids.push("nonexistent".to_string());
    match w.run(&|s, log| s.get_nodes(&ids, log)).unwrap() {
        Outcome::Nodes { nodes } => {
            let contents: Vec<String> = nodes.into_iter().map(|n| n.content).collect();
            assert_eq!(contents, vec!["Batch 1", "Batch 2", "Batch 3"]);
        }
        other => panic!("{:?}", other),
    }
}

#[test]
fn records_are_named_by_table_and_key() {
    assert_eq!(extract_record_id_string("relationship", "abc"), "relationship:abc");
    assert_eq!(extract_record_id_string("", ""), ":");
}

fn summary(id: &str, relationships: Vec<(&str, Option<&str>)>) -> SchemaSummary {
    SchemaSummary {
        id: id.to_string(),
        relationships: relationships
            .into_iter()
            .map(|(name, target)| SchemaRelationship {
                name: name.to_string(),
                target_type: target.map(|t| t.to_string()),
                cardinality: RelationshipCardinality::Many,
                required: None,
            })
            .collect(),
    }
}

#[test]
fn relationships_are_found_from_their_targets() {
    let schemas = vec![
        summary("invoice", vec![("billed_to", Some("customer")), ("part_of", Some("project"))]),
        summary("note", vec![("about", None)]),
        summary("visit", vec![("at", Some("customer"))]),
    ];
    let inbound: Vec<(String, String)> =
        NodeService::get_inbound_relationships("customer", &schemas)
            .into_iter()
            .map(|(schema, r)| (schema, r.name))
            .collect();
    assert!(inbound.contains(&("invoice".to_string(), "billed_to".to_string())));
    assert!(inbound.contains(&("visit".to_string(), "at".to_string())));
    assert!(!inbound.contains(&("invoice".to_string(), "part_of".to_string())));
    let graph = NodeService::get_relationship_graph(&schemas);
    assert_eq!(graph.len(), 4);
    assert_eq!(
        graph[0],
        ("invoice".to_string(), "billed_to".to_string(), Some("customer".to_string()))
    );
    assert_eq!(graph[2], ("note".to_string(), "about".to_string(), None));
}

#[test]
fn nodes_are_checked_against_the_schema_of_their_type() {
    let mut w = World::new();
    let good = make_node(
        "t",
        "task",
        "Task",
        object(vec![("task", object(vec![("status", text("open"))]))]),
        NOW,
    );
    assert!(w.run(&|s, log| s.validate_node_against_schema(&good, log)).is_ok());
    let bad = make_node(
        "t",
        "task",
        "Task",
        object(vec![("task", object(vec![("status", text("never"))]))]),
        NOW,
    );
    assert!(matches!(
        w.run(&|s, log| s.validate_node_against_schema(&bad, log)),
        Err(NodeServiceError::InvalidUpdate(_))
    ));
    let free = make_node("x", "text", "Text", empty(), NOW);
    assert!(w.run(&|s, log| s.validate_node_against_schema(&free, log)).is_ok());
}

#[test]
fn the_place_of_a_node_can_be_asked_for() {
    let mut w = World::new();
    let root = w.add("text", "Root");
    let child = w.add("text", "Child");
    let grandchild = w.add("text", "Grandchild");
    w.put_under(child.as_str(), root.as_str(), None);
    w.put_under(grandchild.as_str(), child.as_str(), None);
    let below = |w: &mut World, a: &str, b: &str| {
        matches!(
            w.run(&|s, log| s.is_descendant(a, b, log)),
            Ok(Outcome::Flag { value: true })
        )
    };
    assert!(below(&mut w, root.as_str(), grandchild.as_str()));
    assert!(!below(&mut w, grandchild.as_str(), root.as_str()));
    match w.run(&|s, log| s.get_root_id(grandchild.as_str(), log)).unwrap() {
        Outcome::Id { id } => assert_eq!(id, root),
        other => panic!("{:?}", other),
    }
    let ids = |outcome: Outcome| match outcome {
        Outcome::Nodes { nodes } => nodes.into_iter().map(|n| n.id).collect::<Vec<String>>(),
        other => panic!("{:?}", other),
    };
    let roots = ids(w.run(&|s, log| s.get_roots(None, None, log)).unwrap());
    assert_eq!(roots, vec![root.clone()]);
    for found in [
        w.run(&|s, log| s.get_descendants(root.as_str(), log)).unwrap(),
        w.run(&|s, log| s.get_nodes_by_root_id(root.as_str(), log)).unwrap(),
    ] {
        assert_eq!(ids(found), vec![child.clone(), grandchild.clone()]);
    }
}

#[test]
fn children_are_reordered_only_with_the_version_that_was_seen() {
    let mut w = World::new();
    let parent = w.add("text", "Parent");
    let a = w.add("text", "A");
    let b = w.add("text", "B");
    w.put_under(a.as_str(), parent.as_str(), None);
    w.put_under(b.as_str(), parent.as_str(), Some(a.as_str()));
    assert_eq!(w.contents_below(parent.as_str()), vec!["A", "B"]);
    assert!(w.run(&|s, log| s.reorder_node(a.as_str(), 9, Some(b.as_str()), log)).is_err());
    assert_eq!(w.contents_below(parent.as_str()), vec!["A", "B"]);
    w.run(&|s, log| s.reorder_node(a.as_str(), 1, Some(b.as_str()), log)).unwrap();
    assert_eq!(w.contents_below(parent.as_str()), vec!["B", "A"]);
}

#[test]
fn a_sibling_that_stays_away_is_waited_for_and_then_reported() {
    let mut w = World::new();
    let parent = w.add("text", "Parent");
    let child = w.add("text", "Child");
    let result = w.run(&|s, log| {
        s.create_parent_edge(child.as_str(), parent.as_str(), Some("nowhere"), log)
    });
    assert!(matches!(
        result,
        Err(NodeServiceError::QueryFailed(m)) if m == "Sibling not found: x"
    ));
    assert_eq!(w.pauses, 1000);
}

#[test]
fn new_children_are_announced_with_their_order() {
    let mut w = World::new();
    let parent = w.add("text", "Parent");
    let child = w.add("text", "Child");
    let before = w.events.len();
    w.put_under(child.as_str(), parent.as_str(), None);
    assert_eq!(w.events.len(), before + 1);
    assert!(w.events[before].starts_with("RelationshipCreated"));
    assert!(w.events[before].contains(&format!("relationship:{}:{}", parent, child)));
}

#[test]
fn queueing_never_fails() {
    let mut w = World::new();
    let id = w.add("text", "Root");
    for request in ["LoadNodeType ", "HasEmbeddings ", "CreateStaleMarker ", "LoadParentId "] {
        w.failing = Some(request);
        assert!(w.run(&|s, log| s.queue_root_for_embedding(id.as_str(), log)).is_ok());
        assert!(w
            .run(&|_, log| NodeService::queue_root_for_embedding_async(id.as_str(), log))
            .is_ok());
    }
    w.failing = None;
    w.stale.clear();
    w.run(&|s, log| s.queue_root_for_embedding(id.as_str(), log)).unwrap();
    assert_eq!(w.stale, vec![id.clone()]);
    w.stale.clear();
    let task = w.add("task", "Task");
    w.run(&|s, log| s.queue_root_for_embedding(task.as_str(), log)).unwrap();
    assert!(w.stale.is_empty());
}

#[test]
fn lists_of_identifiers_select_nodes() {
    let mut w = World::new();
    w.add_as("a", "text", "A", empty());
    w.add_as("b", "text", "B", empty());
    w.add_as("c", "task", "C", empty());
    let filter = |ids: Vec<&str>| NodeFilter {
        ids: Some(ids.into_iter().map(|i| i.to_string()).collect()),
        ..filter_of_type("text")
    };
    let found = |w: &mut World, f: &NodeFilter| {
        w.filtered(f).into_iter().map(|n| n.id).collect::<Vec<String>>()
    };
    assert_eq!(found(&mut w, &filter(vec!["b", "c", "x"])), vec!["b"]);
    assert_eq!(found(&mut w, &filter(vec![])), Vec::<String>::new());
    let one = NodeFilter { limit: Some(1), offset: Some(1), ..filter(vec!["b", "a"]) };
    assert_eq!(found(&mut w, &one), vec!["b"]);
    let any = NodeFilter { node_type: None, ..filter(vec!["a", "c"]) };
    assert_eq!(found(&mut w, &any), vec!["a", "c"]);
}

#[test]
fn relationships_that_may_not_be_are_told_apart() {
    let mut w = World::new();
    w.add_as("person", "schema", "Person", schema_with(vec![]));
    w.add_as(
        "doc",
        "schema",
        "Doc",
        schema_with(vec![relationship("by", "person", "one")]),
    );
    w.add_as("d", "doc", "Doc", empty());
    w.add_as("p", "person", "Person", empty());
    w.add_as("t", "text", "Text", empty());
    assert!(matches!(
        w.link("t", "by", "p", empty()),
        Err(NodeServiceError::SchemaNotFound(m)) if m == "Schema 'text' not found"
    ));
    assert!(matches!(
        w.link("d", "at", "p", empty()),
        Err(NodeServiceError::RelationshipNotFound(_))
    ));
    assert!(matches!(
        w.link("d", "by", "t", empty()),
        Err(NodeServiceError::TargetTypeMismatch(_))
    ));
    assert!(matches!(
        w.link("d", "by", "gone", empty()),
        Err(NodeServiceError::NodeNotFound { id }) if id == "gone"
    ));
    w.link("d", "by", "p", empty()).unwrap();
    assert!(matches!(
        w.link("d", "by", "p", empty()),
        Err(NodeServiceError::CardinalityViolation(_))
    ));
}

#[test]
fn given_titles_and_statuses_are_stored() {
    let mut w = World::new();
    let id = w.add("text", "Content");
    let status = NodeUpdate { lifecycle_status: Some("archived".to_string()), ..no_update() };
    w.update(id.as_str(), &status).unwrap();
    assert_eq!(w.find(id.as_str()).unwrap().lifecycle_status, "archived");
    let title = NodeUpdate {
        title: Some(Some("Given".to_string())),
        content: Some("Changed".to_string()),
        ..no_update()
    };
    w.run(&|s, log| s.update_node(id.as_str(), 2, &title, log)).unwrap();
    let node = w.find(id.as_str()).unwrap();
    assert_eq!(node.title, Some("Given".to_string()));
    assert_eq!(node.content, "Changed");
    assert_eq!(node.lifecycle_status, "archived");
}

#[test]
fn an_upsert_that_fails_stores_nothing() {
    let mut w = World::new();
    let upsert = |w: &mut World| {
        w.run(&|s, log| {
            s.upsert_node_with_parent("n", "C", "text", "2025-03-01", "r", None, NOW, log)
        })
    };
    w.failing = Some("upsert of the node");
    assert!(matches!(
        upsert(&mut w),
        Err(NodeServiceError::QueryFailed(m)) if m == "Failed to create node: disk on fire"
    ));
    w.failing = Some("upsert of the place");
    assert!(matches!(
        upsert(&mut w),
        Err(NodeServiceError::QueryFailed(m)) if m == "Failed to set parent: disk on fire"
    ));
    assert_eq!(w.nodes.len(), 0);
    assert_eq!(w.events.len(), 0);
    w.failing = None;
    upsert(&mut w).unwrap();
    assert_eq!(w.nodes.len(), 2);
    w.failing = Some("upsert of the place");
    assert!(matches!(
        upsert(&mut w),
        Err(NodeServiceError::QueryFailed(m)) if m == "Failed to update parent: disk on fire"
    ));
}

#[test]
fn a_stale_hint_never_puts_a_node_first() {
    let mut w = World::new();
    let parent = w.add("text", "Parent");
    let first = w.add("text", "First");
    w.put_under(first.as_str(), parent.as_str(), None);
    let mut p = params(None, "text", "New", Some(parent.as_str()));
    p.insert_after_node_id = Some("gone".to_string());
    w.failing = Some("LoadChildren ");
    let nodes = w.nodes.len();
    assert!(matches!(w.create_with_parent(&p), Err(NodeServiceError::QueryFailed(_))));
    assert_eq!(w.nodes.len(), nodes);
    w.failing = None;
    w.create_with_parent(&p).unwrap();
    assert_eq!(w.contents_below(parent.as_str()), vec!["First", "New"]);
}

#[test]
fn operations_answer_each_other() {
    let service = NodeService::new();
    let request = Request::NodeExists { id: "a".to_string() };
    let log = vec![Reply::Node { node: None }];
    let step = service.answer_step(&request, NOW, "f", &log).unwrap();
    assert!(matches!(NodeService::reply_for(step), Some(Reply::Flag { value: false })));
    let step = service.answer_step(&request, NOW, "f", &vec![]).unwrap();
    assert!(matches!(step, Step::Ask(Request::LoadNode { .. })));
    assert!(service.answer_step(&Request::WakeEmbedder, NOW, "f", &vec![]).is_none());
}

#[test]
fn schemas_come_in_the_order_of_their_identifiers() {
    let service = NodeService::new();
    let schema = |id: &str| object(vec![("id", text(id))]);
    let log = vec![Reply::Values {
        values: vec![schema("task"), schema("date"), empty(), schema("text"), schema("person")],
    }];
    match service.get_all_schemas(&log) {
        Step::Finish(Outcome::Values { values }) => {
            let ids: Vec<&str> = values
                .iter()
                .map(|v| v.get("id").and_then(|id| id.as_str()).unwrap_or(""))
                .collect();
            assert_eq!(ids, vec!["", "date", "person", "task", "text"]);
        }
        other => panic!("unexpected step: {:?}", other),
    }
    match service.get_all_schemas(&vec![Reply::Failed { message: "down".to_string() }]) {
        Step::Fail(NodeServiceError::DatabaseError { context }) => {
            assert_eq!(context, "Failed to get all schemas: down")
        }
        other => panic!("unexpected step: {:?}", other),
    }
}

#[test]
fn a_batch_is_answered_in_the_order_of_its_nodes() {
    let service = NodeService::new();
    let a = make_node("a", "schema", "A", empty(), NOW);
    let b = make_node("b", "schema", "B", empty(), NOW);
    let created = vec![b.clone(), a.clone()];
    let log = vec![Reply::Done, Reply::Done, Reply::Nodes { nodes: created }];
    match service.bulk_create(&vec![a, b], &log) {
        Step::Finish(Outcome::Ids { ids }) => assert_eq!(ids, vec!["a", "b"]),
        other => panic!("unexpected step: {:?}", other),
    }
}

#[test]
fn tables_that_cannot_be_defined_stop_the_seeding() {
    let schemas = vec![make_node("task", "schema", "Task", empty(), NOW)];
    let error = NodeServiceError::InvalidUpdate("bad name".to_string());
    let mut log = vec![Reply::Node { node: None }, Reply::Refused { error }];
    assert!(matches!(
        NodeService::seed_core_schemas_if_needed(&schemas, &log),
        Step::Ask(Request::Describe { error: NodeServiceError::InvalidUpdate(m) }) if m == "bad name"
    ));
    log.push(Reply::Text { text: "Invalid update: bad name".to_string() });
    assert!(matches!(
        NodeService::seed_core_schemas_if_needed(&schemas, &log),
        Step::Fail(NodeServiceError::SerializationError(m))
            if m == "Failed to generate relationship DDL for 'task': Invalid update: bad name"
    ));
}
