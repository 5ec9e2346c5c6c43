//! Reading a node: its mentions, the version of its schema, and dates that are not stored yet.

use crate::error::{ErrorView, NodeServiceError};
use crate::ids::{calendar_date, is_date_node_id};
use crate::json::{Json, Object, Value};
use crate::node::{references, texts, Node, NodeUpdate, NodeUpdateView, NodeView};
use crate::protocol::{
    group_replies, replies, replies_from, Outcome, OutcomeView, Reply, ReplyView, Request,
    RequestView, Step, StepView,
};
use crate::schema::{backfilled, migration_target_of};
use crate::service::NodeService;
use vstd::prelude::*;
use vstd::string::*;

verus! {

broadcast use group_replies;

/// A new active node without mentions or title.
pub open spec fn plain_node(
    id: Seq<char>,
    node_type: Seq<char>,
    content: Seq<char>,
    properties: Json,
    now: i64,
) -> NodeView {
    NodeView {
        id,
        node_type,
        content,
        version: 1,
        created_at: now,
        modified_at: now,
        properties,
        mentions: Seq::empty(),
        mentioned_in: Seq::empty(),
        title: None,
        lifecycle_status: "active"@,
    }
}

/// Makes a new active node without mentions or title.
pub fn make_node(id: &str, node_type: &str, content: &str, properties: Value, now: i64) -> (r: Node)
    ensures
        r@ == plain_node(id@, node_type@, content@, properties@, now),
{
    let node = Node {
        id: id.to_owned(),
        node_type: node_type.to_owned(),
        content: content.to_owned(),
        version: 1,
        created_at: now,
        modified_at: now,
        properties,
        mentions: Vec::new(),
        mentioned_in: Vec::new(),
        title: None,
        lifecycle_status: "active".to_owned(),
    };
    proof {
        assert(texts(node.mentions@) =~= Seq::empty());
        assert(references(node.mentioned_in@) =~= Seq::empty());
    }
    node
}

/// The node of a date: its content is the date.
pub open spec fn date_node(id: Seq<char>, now: i64) -> NodeView {
    plain_node(id, "date"@, id, Json::Object(Map::empty()), now)
}

pub fn make_date_node(id: &str, now: i64) -> (r: Node)
    ensures
        r@ == date_node(id@, now),
{
    let empty = Object::new();
    make_node(id, "date", id, Value::Object(empty), now)
}

/// The reading of a node. A date that is not stored is a node nevertheless.
pub open spec fn get_next(id: Seq<char>, now: i64, log: Seq<ReplyView>) -> StepView {
    if log.len() == 0 {
        StepView::Ask(RequestView::LoadNode { id })
    } else {
        match log[0] {
            ReplyView::Failed { message } => StepView::Fail(
                ErrorView::DatabaseError { context: "Database operation failed: "@ + message },
            ),
            ReplyView::Node { node: Some(node) } => get_mentions_next(node, log.skip(1)),
            ReplyView::Node { node: None } => StepView::Finish(
                OutcomeView::MaybeNode {
                    node: if calendar_date(id) {
                        Some(date_node(id, now))
                    } else {
                        None
                    },
                },
            ),
            _ => StepView::Mismatch,
        }
    }
}

pub open spec fn get_mentions_next(node: NodeView, log: Seq<ReplyView>) -> StepView {
    if log.len() == 0 {
        StepView::Ask(RequestView::PopulateMentions { node })
    } else {
        match log[0] {
            ReplyView::Refused { error } => StepView::Fail(error),
            ReplyView::Node { node: Some(filled) } => get_schema_next(filled, log.skip(1)),
            _ => StepView::Mismatch,
        }
    }
}

pub open spec fn get_schema_next(node: NodeView, log: Seq<ReplyView>) -> StepView {
    if log.len() == 0 {
        StepView::Ask(RequestView::LoadSchema { node_type: node.node_type })
    } else {
        match log[0] {
            ReplyView::Failed { message } => StepView::Fail(ErrorView::QueryFailed(message)),
            ReplyView::Schema { schema, fields: _ } => {
                let noted = NodeView { properties: backfilled(node, schema), ..node };
                match migration_target_of(noted, schema) {
                    None => StepView::Finish(OutcomeView::MaybeNode { node: Some(noted) }),
                    Some(target) => get_migrate_next(noted, target, log.skip(1)),
                }
            },
            _ => StepView::Mismatch,
        }
    }
}

/// A node with an older version of its schema is migrated, and stored in the new form.
pub open spec fn get_migrate_next(node: NodeView, target: u32, log: Seq<ReplyView>) -> StepView {
    if log.len() == 0 {
        StepView::Ask(RequestView::Migrate { node, target })
    } else {
        match log[0] {
            ReplyView::Refused { error } => StepView::Fail(error),
            ReplyView::Node { node: Some(migrated) } => get_persist_next(
                node.id,
                migrated,
                log.skip(1),
            ),
            _ => StepView::Mismatch,
        }
    }
}

pub open spec fn get_persist_next(
    id: Seq<char>,
    migrated: NodeView,
    log: Seq<ReplyView>,
) -> StepView {
    if log.len() == 0 {
        StepView::Ask(
            RequestView::StoreUpdate {
                id,
                update: NodeUpdateView {
                    node_type: None,
                    content: None,
                    properties: Some(migrated.properties),
                    title: None,
                    lifecycle_status: None,
                },
            },
        )
    } else {
        match log[0] {
            ReplyView::Failed { message } => StepView::Fail(
                ErrorView::QueryFailed("Failed to persist migrated node: "@ + message),
            ),
            ReplyView::Done => StepView::Finish(OutcomeView::MaybeNode { node: Some(migrated) }),
            _ => StepView::Mismatch,
        }
    }
}

impl NodeService {
    /// Gets a node as readers see it. `now` is the time that a date which is not stored gets.
    pub fn get_node(&self, id: &str, now: i64, log: &Vec<Reply>) -> (r: Step)
        ensures
            r@ == get_next(id@, now, replies(log@)),
    {
        if log.len() == 0 {
            return Step::Ask(Request::LoadNode { id: id.to_owned() });
        }
        let node = match &log[0] {
            Reply::Failed { message } => {
                let mut context = "Database operation failed: ".to_owned();
                context.append(message.as_str());
                return Step::Fail(NodeServiceError::DatabaseError { context });
            },
            Reply::Node { node: Some(node) } => node,
            Reply::Node { node: None } => {
                let found = if is_date_node_id(id) {
                    Some(make_date_node(id, now))
                } else {
                    None
                };
                return Step::Finish(Outcome::MaybeNode { node: found });
            },
            _ => {
                return Step::Mismatch;
            },
        };
        if log.len() == 1 {
            return Step::Ask(Request::PopulateMentions { node: node.clone() });
        }
        let filled = match &log[1] {
            Reply::Refused { error } => {
                return Step::Fail(error.clone());
            },
            Reply::Node { node: Some(node) } => node,
            _ => {
                return Step::Mismatch;
            },
        };
        if log.len() == 2 {
            return Step::Ask(Request::LoadSchema { node_type: filled.node_type.clone() });
        }
        let schema = match &log[2] {
            Reply::Failed { message } => {
                return Step::Fail(NodeServiceError::QueryFailed(message.clone()));
            },
            Reply::Schema { schema, fields: _ } => schema.as_ref(),
            _ => {
                return Step::Mismatch;
            },
        };
        let mut noted = filled.clone();
        self.backfill_schema_version(&mut noted, schema);
        match self.migration_target(&noted, schema) {
            None => Step::Finish(Outcome::MaybeNode { node: Some(noted) }),
            Some(target) => NodeService::migrate_read(noted, target, log, 3),
        }
    }

    fn migrate_read(node: Node, target: u32, log: &Vec<Reply>, from: usize) -> (r: Step)
        requires
            from <= log@.len(),
        ensures
            r@ == get_migrate_next(node@, target, replies_from(log@, from as int)),
    {
        if from >= log.len() {
            return Step::Ask(Request::Migrate { node, target });
        }
        let migrated = match &log[from] {
            Reply::Refused { error } => {
                return Step::Fail(error.clone());
            },
            Reply::Node { node: Some(migrated) } => migrated,
            _ => {
                return Step::Mismatch;
            },
        };
        if from + 1 >= log.len() {
            let update = NodeUpdate {
                node_type: None,
                content: None,
                properties: Some(migrated.properties.clone()),
                title: None,
                lifecycle_status: None,
            };
            return Step::Ask(Request::StoreUpdate { id: node.id, update });
        }
        match &log[from + 1] {
            Reply::Failed { message } => {
                let mut text = "Failed to persist migrated node: ".to_owned();
                text.append(message.as_str());
                Step::Fail(NodeServiceError::QueryFailed(text))
            },
            Reply::Done => Step::Finish(Outcome::MaybeNode { node: Some(migrated.clone()) }),
            _ => Step::Mismatch,
        }
    }
}

/// What is not stored is a node exactly if it is a day of the calendar, and reading it stores
/// nothing.
pub proof fn law_virtual_nodes_are_dates(id: Seq<char>, now: i64, log: Seq<ReplyView>)
    requires
        log.len() > 0,
        log[0] == (ReplyView::Node { node: None }),
    ensures
        get_next(id, now, log) matches StepView::Finish(OutcomeView::MaybeNode { node }) && (node is Some
            <==> calendar_date(id)) && (node matches Some(n) ==> n.id == id && n.content == id
            && n.node_type == "date"@ && n.version == 1),
{
}

/// Reading a node that is up to date stores nothing.
pub proof fn law_reading_stores_only_migrations(id: Seq<char>, now: i64, log: Seq<ReplyView>)
    requires
        get_next(id, now, log) matches StepView::Ask(RequestView::StoreUpdate { id: _, update: _ }),
    ensures
        log[1] matches ReplyView::Node { node: Some(filled) } && (log[2] matches ReplyView::Schema {
            schema,
            fields: _,
        } && migration_target_of(
            (NodeView { properties: backfilled(filled, schema), ..filled }),
            schema,
        ) is Some),
{
}

} // verus!
