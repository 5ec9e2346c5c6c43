//! Events that the service sends to its subscribers.

use crate::json::{Json, Value};
use crate::node::{clone_optional, optional_json, optional_text, Node};
use crate::properties::{
    compute_property_changes, lists_changes, PropertyChange, PropertyChangeView,
};
use crate::service::NodeService;
use vstd::prelude::*;

verus! {

/// A relationship as events describe it.
#[derive(Debug)]
pub struct RelationshipEvent {
    pub id: String,
    pub from_id: String,
    pub to_id: String,
    pub relationship_type: String,
    pub properties: Value,
}

#[verifier::ext_equal]
pub struct RelationshipEventView {
    pub id: Seq<char>,
    pub from_id: Seq<char>,
    pub to_id: Seq<char>,
    pub relationship_type: Seq<char>,
    pub properties: Json,
}

impl View for RelationshipEvent {
    type V = RelationshipEventView;

    open spec fn view(&self) -> RelationshipEventView {
        RelationshipEventView {
            id: self.id@,
            from_id: self.from_id@,
            to_id: self.to_id@,
            relationship_type: self.relationship_type@,
            properties: self.properties@,
        }
    }
}

/// Something that happened to nodes or relationships.
#[derive(Debug)]
pub enum DomainEvent {
    NodeCreated { node_id: String, node_type: String },
    NodeUpdated { node_id: String, node_type: String, changed_properties: Vec<PropertyChange> },
    NodeDeleted { id: String, node_type: String },
    RelationshipCreated { relationship: RelationshipEvent },
    RelationshipUpdated { relationship: RelationshipEvent },
    RelationshipDeleted { id: String, from_id: String, to_id: String, relationship_type: String },
}

#[verifier::ext_equal]
pub enum DomainEventView {
    NodeCreated { node_id: Seq<char>, node_type: Seq<char> },
    NodeUpdated {
        node_id: Seq<char>,
        node_type: Seq<char>,
        changed_properties: Seq<PropertyChangeView>,
    },
    NodeDeleted { id: Seq<char>, node_type: Seq<char> },
    RelationshipCreated { relationship: RelationshipEventView },
    RelationshipUpdated { relationship: RelationshipEventView },
    RelationshipDeleted {
        id: Seq<char>,
        from_id: Seq<char>,
        to_id: Seq<char>,
        relationship_type: Seq<char>,
    },
}

impl View for DomainEvent {
    type V = DomainEventView;

    open spec fn view(&self) -> DomainEventView {
        match *self {
            DomainEvent::NodeCreated { node_id, node_type } => DomainEventView::NodeCreated {
                node_id: node_id@,
                node_type: node_type@,
            },
            DomainEvent::NodeUpdated { node_id, node_type, changed_properties } =>
                DomainEventView::NodeUpdated {
                node_id: node_id@,
                node_type: node_type@,
                changed_properties: changed_properties@.map_values(|c: PropertyChange| c@),
            },
            DomainEvent::NodeDeleted { id, node_type } => DomainEventView::NodeDeleted {
                id: id@,
                node_type: node_type@,
            },
            DomainEvent::RelationshipCreated { relationship } =>
                DomainEventView::RelationshipCreated { relationship: relationship@ },
            DomainEvent::RelationshipUpdated { relationship } =>
                DomainEventView::RelationshipUpdated { relationship: relationship@ },
            DomainEvent::RelationshipDeleted { id, from_id, to_id, relationship_type } =>
                DomainEventView::RelationshipDeleted {
                id: id@,
                from_id: from_id@,
                to_id: to_id@,
                relationship_type: relationship_type@,
            },
        }
    }
}

/// Where an event comes from.
#[derive(Debug)]
pub struct EventMetadata {
    pub source_client_id: Option<String>,
    pub playbook_context: Option<Value>,
}

/// An event with its origin.
#[derive(Debug)]
pub struct EventEnvelope {
    pub event: DomainEvent,
    pub metadata: EventMetadata,
}

/// What the store did to a node.
#[derive(Clone, Copy, Debug, PartialEq, Eq, Structural)]
pub enum StoreOperation {
    Created,
    Updated,
    Deleted,
}

/// A change that the store reports.
#[derive(Debug)]
pub struct StoreChange {
    pub operation: StoreOperation,
    pub node: Node,
    pub previous_node: Option<Node>,
    pub source: Option<String>,
    pub playbook_context: Option<Value>,
}

fn clone_context(context: &Option<Value>) -> (r: Option<Value>)
    ensures
        optional_json(r) == optional_json(*context),
{
    match context {
        Some(v) => Some(v.clone()),
        None => None,
    }
}

/// Turns a change that the store reports into the event that subscribers get.
pub fn envelope_for_change(change: &StoreChange) -> (r: EventEnvelope)
    ensures
        optional_text(r.metadata.source_client_id) == optional_text(change.source),
        optional_json(r.metadata.playbook_context) == optional_json(change.playbook_context),
        match change.operation {
            StoreOperation::Created => r.event@ == (DomainEventView::NodeCreated {
                node_id: change.node.id@,
                node_type: change.node.node_type@,
            }),
            StoreOperation::Updated => r.event matches DomainEvent::NodeUpdated {
                node_id,
                node_type,
                changed_properties,
            } && node_id@ == change.node.id@ && node_type@ == change.node.node_type@ && (
            match change.previous_node {
                Some(previous) => lists_changes(
                    previous.properties@,
                    change.node.properties@,
                    changed_properties@,
                ),
                None => changed_properties@.len() == 0,
            }),
            StoreOperation::Deleted => r.event@ == (DomainEventView::NodeDeleted {
                id: change.node.id@,
                node_type: change.node.node_type@,
            }),
        },
{
    let event = match change.operation {
        StoreOperation::Created => DomainEvent::NodeCreated {
            node_id: change.node.id.clone(),
            node_type: change.node.node_type.clone(),
        },
        StoreOperation::Updated => DomainEvent::NodeUpdated {
            node_id: change.node.id.clone(),
            node_type: change.node.node_type.clone(),
            changed_properties: match &change.previous_node {
                Some(previous) => compute_property_changes(
                    &previous.properties,
                    &change.node.properties,
                ),
                None => Vec::new(),
            },
        },
        StoreOperation::Deleted => DomainEvent::NodeDeleted {
            id: change.node.id.clone(),
            node_type: change.node.node_type.clone(),
        },
    };
    EventEnvelope {
        event,
        metadata: EventMetadata {
            source_client_id: clone_optional(&change.source),
            playbook_context: clone_context(&change.playbook_context),
        },
    }
}

impl NodeService {
    /// Wraps an event of this service: it names the client and the playbook run of the instance.
    pub fn envelope(&self, event: DomainEvent) -> (r: EventEnvelope)
        ensures
            r.event == event,
            optional_text(r.metadata.source_client_id) == optional_text(self.client_id),
            optional_json(r.metadata.playbook_context) == optional_json(self.execution_context),
    {
        EventEnvelope {
            event,
            metadata: EventMetadata {
                source_client_id: clone_optional(&self.client_id),
                playbook_context: clone_context(&self.execution_context),
            },
        }
    }
}

} // verus!
