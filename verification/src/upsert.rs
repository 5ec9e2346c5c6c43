//! Storing a node under a parent, whether or not either exists.

use crate::error::{ErrorView, NodeServiceError};
use crate::events::{DomainEvent, DomainEventView};
use crate::hierarchy::{child_relationship, make_child_relationship, optional_str, own};
use crate::json::{Json, Object, Value};
use crate::linking::announce_next;
use crate::protocol::{
    group_replies, replies, replies_from, Reply, ReplyView, Request, RequestView, Step, StepView,
};
use crate::reading::{date_node, make_date_node, make_node, plain_node};
use crate::service::NodeService;
use crate::text::same_text;
use vstd::prelude::*;
use vstd::string::*;

verus! {

broadcast use group_replies;

/// A node to be stored under a parent.
pub struct Upsert<'a> {
    pub node_id: &'a str,
    pub content: &'a str,
    pub node_type: &'a str,
    pub parent_id: &'a str,
    pub before_sibling_id: Option<&'a str>,
    pub now: i64,
}

#[verifier::ext_equal]
pub struct UpsertView {
    pub node_id: Seq<char>,
    pub content: Seq<char>,
    pub node_type: Seq<char>,
    pub parent_id: Seq<char>,
    pub before_sibling_id: Option<Seq<char>>,
    pub now: i64,
}

impl<'a> View for Upsert<'a> {
    type V = UpsertView;

    open spec fn view(&self) -> UpsertView {
        UpsertView {
            node_id: self.node_id@,
            content: self.content@,
            node_type: self.node_type@,
            parent_id: self.parent_id@,
            before_sibling_id: optional_str(self.before_sibling_id),
            now: self.now,
        }
    }
}

pub open spec fn failed(prefix: Seq<char>, message: Seq<char>) -> StepView {
    StepView::Fail(ErrorView::QueryFailed(prefix + message))
}

/// A node is stored under a parent in one transaction, once it is known which of the two exist. A
/// parent that is missing is stored as the node of a date.
pub open spec fn upsert_next(u: UpsertView, log: Seq<ReplyView>) -> StepView {
    if log.len() == 0 {
        StepView::Ask(RequestView::LoadNode { id: u.parent_id })
    } else {
        match log[0] {
            ReplyView::Failed { message } => failed("Failed to check parent existence: "@, message),
            ReplyView::Node { node } => upsert_node_next(u, node is None, log.skip(1)),
            _ => StepView::Mismatch,
        }
    }
}

pub open spec fn upsert_node_next(u: UpsertView, parent_is_new: bool, log: Seq<ReplyView>) -> StepView {
    if log.len() == 0 {
        StepView::Ask(RequestView::LoadNode { id: u.node_id })
    } else {
        match log[0] {
            ReplyView::Failed { message } => failed("Failed to check node existence: "@, message),
            ReplyView::Node { node } => upsert_store_next(
                u,
                parent_is_new,
                node is None,
                log.skip(1),
            ),
            _ => StepView::Mismatch,
        }
    }
}

/// What the store does in one transaction. A node that exists gets the content; one that does not is
/// stored.
pub open spec fn upsert_request(u: UpsertView, parent_is_new: bool, is_new: bool) -> RequestView {
    RequestView::StoreUpsert {
        new_parent: if parent_is_new {
            Some(date_node(u.parent_id, u.now))
        } else {
            None
        },
        new_node: if is_new {
            Some(
                plain_node(
                    u.node_id,
                    u.node_type,
                    u.content,
                    Json::Object(Map::empty()),
                    u.now,
                ),
            )
        } else {
            None
        },
        id: u.node_id,
        content: u.content,
        parent: u.parent_id,
        after: u.before_sibling_id,
    }
}

/// Nothing is stored unless all of it is. The event says whether the node is new.
pub open spec fn upsert_store_next(
    u: UpsertView,
    parent_is_new: bool,
    is_new: bool,
    log: Seq<ReplyView>,
) -> StepView {
    if log.len() == 0 {
        StepView::Ask(upsert_request(u, parent_is_new, is_new))
    } else {
        match log[0] {
            ReplyView::FailedAt { id, message } => failed(
                if parent_is_new && id == u.parent_id {
                    "Failed to create parent node: "@
                } else if is_new {
                    "Failed to create node: "@
                } else {
                    "Failed to update node: "@
                },
                message,
            ),
            ReplyView::Failed { message } => failed(
                if is_new {
                    "Failed to set parent: "@
                } else {
                    "Failed to update parent: "@
                },
                message,
            ),
            ReplyView::Order { order } => {
                let relationship = child_relationship(u.parent_id, u.node_id, order);
                announce_next(
                    if is_new {
                        DomainEventView::RelationshipCreated { relationship }
                    } else {
                        DomainEventView::RelationshipUpdated { relationship }
                    },
                    log.skip(1),
                )
            },
            _ => StepView::Mismatch,
        }
    }
}

fn fail_with(prefix: &str, message: &String) -> (r: Step)
    ensures
        r@ == failed(prefix@, message@),
{
    let mut text = prefix.to_owned();
    text.append(message.as_str());
    Step::Fail(NodeServiceError::QueryFailed(text))
}

impl NodeService {
    /// Stores a node under a parent. A parent that is missing is stored as the node of a date. The
    /// root is not used: the tree knows it.
    pub fn upsert_node_with_parent(
        &self,
        node_id: &str,
        content: &str,
        node_type: &str,
        parent_id: &str,
        _root_id: &str,
        before_sibling_id: Option<&str>,
        now: i64,
        log: &Vec<Reply>,
    ) -> (r: Step)
        ensures
            r@ == upsert_next(
                UpsertView {
                    node_id: node_id@,
                    content: content@,
                    node_type: node_type@,
                    parent_id: parent_id@,
                    before_sibling_id: optional_str(before_sibling_id),
                    now,
                },
                replies(log@),
            ),
    {
        let u = Upsert { node_id, content, node_type, parent_id, before_sibling_id, now };
        NodeService::upsert(&u, log)
    }

    fn upsert<'a>(u: &Upsert<'a>, log: &Vec<Reply>) -> (r: Step)
        ensures
            r@ == upsert_next(u@, replies(log@)),
    {
        if log.len() == 0 {
            return Step::Ask(Request::LoadNode { id: u.parent_id.to_owned() });
        }
        let parent_is_new: bool = match &log[0] {
            Reply::Failed { message } => {
                return fail_with("Failed to check parent existence: ", message);
            },
            Reply::Node { node } => node.is_none(),
            _ => {
                return Step::Mismatch;
            },
        };
        if log.len() == 1 {
            return Step::Ask(Request::LoadNode { id: u.node_id.to_owned() });
        }
        let is_new: bool = match &log[1] {
            Reply::Failed { message } => {
                return fail_with("Failed to check node existence: ", message);
            },
            Reply::Node { node } => node.is_none(),
            _ => {
                return Step::Mismatch;
            },
        };
        NodeService::upsert_store(u, parent_is_new, is_new, log)
    }

    fn upsert_store<'a>(
        u: &Upsert<'a>,
        parent_is_new: bool,
        is_new: bool,
        log: &Vec<Reply>,
    ) -> (r: Step)
        requires
            log@.len() >= 2,
        ensures
            r@ == upsert_store_next(u@, parent_is_new, is_new, replies_from(log@, 2)),
    {
        if log.len() == 2 {
            let new_parent = if parent_is_new {
                Some(make_date_node(u.parent_id, u.now))
            } else {
                None
            };
            let new_node = if is_new {
                let empty = Object::new();
                Some(make_node(u.node_id, u.node_type, u.content, Value::Object(empty), u.now))
            } else {
                None
            };
            return Step::Ask(
                Request::StoreUpsert {
                    new_parent,
                    new_node,
                    id: u.node_id.to_owned(),
                    content: u.content.to_owned(),
                    parent: u.parent_id.to_owned(),
                    after: own(u.before_sibling_id),
                },
            );
        }
        match &log[2] {
            Reply::FailedAt { id, message } => {
                if parent_is_new && same_text(id.as_str(), u.parent_id) {
                    fail_with("Failed to create parent node: ", message)
                } else if is_new {
                    fail_with("Failed to create node: ", message)
                } else {
                    fail_with("Failed to update node: ", message)
                }
            },
            Reply::Failed { message } => {
                if is_new {
                    fail_with("Failed to set parent: ", message)
                } else {
                    fail_with("Failed to update parent: ", message)
                }
            },
            Reply::Order { order } => {
                let relationship = make_child_relationship(u.parent_id, u.node_id, order);
                let event = if is_new {
                    DomainEvent::RelationshipCreated { relationship }
                } else {
                    DomainEvent::RelationshipUpdated { relationship }
                };
                NodeService::announce(event, log, 3)
            },
            _ => Step::Mismatch,
        }
    }
}

/// An upsert writes once: its only request that changes the store holds the missing parent, the node
/// and its place together, and it succeeds only after the store has done all of it.
pub proof fn law_upserts_write_once(u: UpsertView, log: Seq<ReplyView>)
    ensures
        upsert_next(u, log) matches StepView::Ask(request) ==> {
            ||| request matches RequestView::LoadNode { id: _ }
            ||| request matches RequestView::Emit { event: _ } && log[2] is Order
            ||| request == upsert_request(
                u,
                log[0] == (ReplyView::Node { node: None }),
                log[1] == (ReplyView::Node { node: None }),
            ) && log.len() == 2
        },
        upsert_next(u, log) is Finish ==> log[2] is Order,
{
}

} // verus!
