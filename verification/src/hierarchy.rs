//! The tree of nodes: roots, moves, and the order of children.

use crate::error::{ErrorView, NodeServiceError};
use crate::events::{DomainEvent, DomainEventView, RelationshipEvent, RelationshipEventView};
use crate::json::{Json, Object, Value};
use crate::node::{optional_text, Node, NodeUpdate, NodeUpdateView, NodeView};
use crate::protocol::{
    group_replies, replies, replies_from, Outcome, OutcomeView, Reply, ReplyView, Request,
    RequestView, Step, StepView,
};
use crate::service::NodeService;
use crate::text::{decimal, decimal_of_i64, same_text};
use vstd::prelude::*;
use vstd::string::*;

verus! {

broadcast use group_replies;

pub open spec fn optional_str(text: Option<&str>) -> Option<Seq<char>> {
    match text {
        Some(s) => Some(s@),
        None => None,
    }
}

pub(crate) fn own(text: Option<&str>) -> (r: Option<String>)
    ensures
        optional_text(r) == optional_str(text),
{
    match text {
        Some(s) => Some(s.to_owned()),
        None => None,
    }
}

/// The relationship between a parent and a child, with the order of the child.
pub open spec fn child_relationship(
    parent: Seq<char>,
    child: Seq<char>,
    order: Json,
) -> RelationshipEventView {
    RelationshipEventView {
        id: "relationship:"@ + parent + ":"@ + child,
        from_id: parent,
        to_id: child,
        relationship_type: "has_child"@,
        properties: Json::Object(Map::<Seq<char>, Json>::empty().insert("order"@, order)),
    }
}

pub(crate) fn make_child_relationship(parent: &str, child: &str, order: &Value) -> (r: RelationshipEvent)
    ensures
        r@ == child_relationship(parent@, child@, order@),
{
    let mut id = "relationship:".to_owned();
    id.append(parent);
    id.append(":");
    id.append(child);
    let mut properties = Object::new();
    properties.insert("order".to_owned(), order.clone());
    RelationshipEvent {
        id,
        from_id: parent.to_owned(),
        to_id: child.to_owned(),
        relationship_type: "has_child".to_owned(),
        properties: Value::Object(properties),
    }
}

/// Whether a node exists in the store.
pub open spec fn node_exists_next(id: Seq<char>, log: Seq<ReplyView>) -> StepView {
    if log.len() == 0 {
        StepView::Ask(RequestView::LoadNode { id })
    } else {
        match log[0] {
            ReplyView::Failed { message } => StepView::Fail(
                ErrorView::QueryFailed("Failed to check node existence: "@ + message),
            ),
            ReplyView::Node { node } => StepView::Finish(OutcomeView::Flag { value: node is Some }),
            _ => StepView::Mismatch,
        }
    }
}

/// The way up from a node to its root.
pub open spec fn root_next(current: Seq<char>, log: Seq<ReplyView>) -> StepView
    decreases log.len(),
{
    if log.len() == 0 {
        StepView::Ask(RequestView::LoadParentId { id: current })
    } else {
        match log[0] {
            ReplyView::Failed { message } => StepView::Fail(ErrorView::QueryFailed(message)),
            ReplyView::MaybeText { text: Some(parent) } => root_next(parent, log.skip(1)),
            ReplyView::MaybeText { text: None } => StepView::Finish(OutcomeView::Id { id: current }),
            _ => StepView::Mismatch,
        }
    }
}

/// How many parents are visited at most in the search for an ancestor.
pub const MAX_ANCESTOR_STEPS: usize = 1000;

/// The way up from `current` in search of `node_id`. A walk that a failure cuts short counts as one
/// that did not meet the node.
pub open spec fn descendant_next(
    node_id: Seq<char>,
    current: Seq<char>,
    steps: nat,
    log: Seq<ReplyView>,
) -> StepView
    decreases log.len(),
{
    if steps == 0 {
        StepView::Finish(OutcomeView::Flag { value: false })
    } else if current == node_id {
        StepView::Finish(OutcomeView::Flag { value: true })
    } else if log.len() == 0 {
        StepView::Ask(RequestView::GetParent { id: current })
    } else {
        match log[0] {
            ReplyView::Node { node: Some(parent) } => descendant_next(
                node_id,
                parent.id,
                (steps - 1) as nat,
                log.skip(1),
            ),
            ReplyView::Node { node: None } | ReplyView::Refused { error: _ } => StepView::Finish(
                OutcomeView::Flag { value: false },
            ),
            _ => StepView::Mismatch,
        }
    }
}

pub open spec fn date_cannot_move(node_id: Seq<char>) -> ErrorView {
    ErrorView::HierarchyViolation(
        "Date node '"@ + node_id + "' cannot be moved (it's a top-level container)"@,
    )
}

pub open spec fn would_be_circular(node_id: Seq<char>, parent_id: Seq<char>) -> ErrorView {
    ErrorView::CircularReference(
        "Cannot move node "@ + node_id + " under its descendant "@ + parent_id,
    )
}

/// A move without a version: the node exists, is no date, and its new parent is fit.
pub open spec fn move_unchecked_next(
    node_id: Seq<char>,
    parent: Option<Seq<char>>,
    after: Option<Seq<char>>,
    log: Seq<ReplyView>,
) -> StepView {
    if log.len() == 0 {
        StepView::Ask(RequestView::GetNode { id: node_id })
    } else {
        match log[0] {
            ReplyView::Refused { error } => StepView::Fail(error),
            ReplyView::Node { node: None } => StepView::Fail(ErrorView::NodeNotFound { id: node_id }),
            ReplyView::Node { node: Some(node) } => if node.node_type == "date"@ {
                StepView::Fail(date_cannot_move(node_id))
            } else {
                move_parent_next(node_id, parent, after, None, log.skip(1))
            },
            _ => StepView::Mismatch,
        }
    }
}

/// A move with a version: as without, and the node has the version that the caller saw.
pub open spec fn move_next(
    node_id: Seq<char>,
    expected_version: i64,
    parent: Option<Seq<char>>,
    after: Option<Seq<char>>,
    log: Seq<ReplyView>,
) -> StepView {
    if log.len() == 0 {
        StepView::Ask(RequestView::GetNode { id: node_id })
    } else {
        match log[0] {
            ReplyView::Refused { error } => StepView::Fail(error),
            ReplyView::Node { node: None } => StepView::Fail(ErrorView::NodeNotFound { id: node_id }),
            ReplyView::Node { node: Some(node) } => if node.version != expected_version {
                StepView::Fail(
                    ErrorView::VersionConflict {
                        node_id,
                        expected_version,
                        actual_version: node.version,
                    },
                )
            } else if node.node_type == "date"@ {
                StepView::Fail(date_cannot_move(node_id))
            } else {
                move_parent_next(node_id, parent, after, Some(expected_version), log.skip(1))
            },
            _ => StepView::Mismatch,
        }
    }
}

/// The new parent exists and does not lie below the node.
pub open spec fn move_parent_next(
    node_id: Seq<char>,
    parent: Option<Seq<char>>,
    after: Option<Seq<char>>,
    version: Option<i64>,
    log: Seq<ReplyView>,
) -> StepView {
    match parent {
        None => move_store_next(node_id, parent, after, version, log),
        Some(parent_id) => if log.len() == 0 {
            StepView::Ask(RequestView::NodeExists { id: parent_id })
        } else {
            match log[0] {
                ReplyView::Refused { error } => StepView::Fail(error),
                ReplyView::Flag { value: false } => StepView::Fail(
                    ErrorView::InvalidParent { parent_id },
                ),
                ReplyView::Flag { value: true } => move_ancestry_next(
                    node_id,
                    parent_id,
                    after,
                    version,
                    log.skip(1),
                ),
                _ => StepView::Mismatch,
            }
        },
    }
}

pub open spec fn move_ancestry_next(
    node_id: Seq<char>,
    parent_id: Seq<char>,
    after: Option<Seq<char>>,
    version: Option<i64>,
    log: Seq<ReplyView>,
) -> StepView {
    if log.len() == 0 {
        StepView::Ask(RequestView::IsDescendant { ancestor: node_id, id: parent_id })
    } else {
        match log[0] {
            ReplyView::Refused { error } => StepView::Fail(error),
            ReplyView::Flag { value: true } => StepView::Fail(would_be_circular(node_id, parent_id)),
            ReplyView::Flag { value: false } => move_store_next(
                node_id,
                Some(parent_id),
                after,
                version,
                log.skip(1),
            ),
            _ => StepView::Mismatch,
        }
    }
}

/// The move itself and the event that tells of it.
pub open spec fn move_store_next(
    node_id: Seq<char>,
    parent: Option<Seq<char>>,
    after: Option<Seq<char>>,
    version: Option<i64>,
    log: Seq<ReplyView>,
) -> StepView {
    if log.len() == 0 {
        StepView::Ask(RequestView::StoreMove { id: node_id, parent, after })
    } else {
        match log[0] {
            ReplyView::Failed { message } => StepView::Fail(ErrorView::QueryFailed(message)),
            ReplyView::Order { order } => match parent {
                None => move_bump_next(node_id, version, log.skip(1)),
                Some(parent_id) => if log.len() == 1 {
                    StepView::Ask(
                        RequestView::Emit {
                            event: DomainEventView::RelationshipUpdated {
                                relationship: child_relationship(parent_id, node_id, order),
                            },
                        },
                    )
                } else {
                    match log[1] {
                        ReplyView::Done => move_bump_next(node_id, version, log.skip(1).skip(1)),
                        _ => StepView::Mismatch,
                    }
                },
            },
            _ => StepView::Mismatch,
        }
    }
}

/// A versioned move raises the version of the node, so that a concurrent one fails.
pub open spec fn move_bump_next(
    node_id: Seq<char>,
    version: Option<i64>,
    log: Seq<ReplyView>,
) -> StepView {
    match version {
        None => StepView::Finish(OutcomeView::Nothing),
        Some(expected_version) => if log.len() == 0 {
            StepView::Ask(RequestView::BumpVersion { id: node_id, expected_version })
        } else {
            match log[0] {
                ReplyView::Refused { error } => StepView::Fail(error),
                ReplyView::Node { node: Some(node) } => StepView::Finish(OutcomeView::Node { node }),
                _ => StepView::Mismatch,
            }
        },
    }
}

/// The update that changes nothing but the version.
pub open spec fn same_values(node: NodeView) -> NodeUpdateView {
    NodeUpdateView {
        node_type: Some(node.node_type),
        content: Some(node.content),
        properties: Some(node.properties),
        title: None,
        lifecycle_status: None,
    }
}

pub open spec fn bump_next(node_id: Seq<char>, expected_version: i64, log: Seq<ReplyView>) -> StepView {
    if log.len() == 0 {
        StepView::Ask(RequestView::GetNode { id: node_id })
    } else {
        match log[0] {
            ReplyView::Refused { error } => StepView::Fail(error),
            ReplyView::Node { node: None } => StepView::Fail(ErrorView::NodeNotFound { id: node_id }),
            ReplyView::Node { node: Some(node) } => if log.len() == 1 {
                StepView::Ask(
                    RequestView::StoreVersionedUpdate {
                        id: node_id,
                        expected_version,
                        update: same_values(node),
                    },
                )
            } else {
                match log[1] {
                    ReplyView::Failed { message } => StepView::Fail(ErrorView::QueryFailed(message)),
                    ReplyView::Node { node: Some(updated) } => StepView::Finish(
                        OutcomeView::Node { node: updated },
                    ),
                    ReplyView::Node { node: None } => StepView::Fail(
                        ErrorView::QueryFailed(
                            "Version conflict: expected version "@ + decimal(expected_version as int)
                                + " for node "@ + node_id,
                        ),
                    ),
                    _ => StepView::Mismatch,
                }
            },
            _ => StepView::Mismatch,
        }
    }
}

impl NodeService {
    /// Whether a node exists in the store.
    pub fn node_exists(&self, id: &str, log: &Vec<Reply>) -> (r: Step)
        ensures
            r@ == node_exists_next(id@, replies(log@)),
    {
        if log.len() == 0 {
            return Step::Ask(Request::LoadNode { id: id.to_owned() });
        }
        match &log[0] {
            Reply::Failed { message } => {
                let mut text = "Failed to check node existence: ".to_owned();
                text.append(message.as_str());
                Step::Fail(NodeServiceError::QueryFailed(text))
            },
            Reply::Node { node } => Step::Finish(Outcome::Flag { value: node.is_some() }),
            _ => Step::Mismatch,
        }
    }

    /// The root above a node, found by going from parent to parent.
    pub fn get_root_id(&self, node_id: &str, log: &Vec<Reply>) -> (r: Step)
        ensures
            r@ == root_next(node_id@, replies(log@)),
    {
        let mut current = node_id.to_owned();
        let mut i: usize = 0;
        while i < log.len()
            invariant
                i <= log@.len(),
                root_next(node_id@, replies(log@)) == root_next(current@, replies_from(log@, i as int)),
            decreases log@.len() - i,
        {
            match &log[i] {
                Reply::Failed { message } => {
                    return Step::Fail(NodeServiceError::QueryFailed(message.clone()));
                },
                Reply::MaybeText { text: Some(parent) } => {
                    current = parent.clone();
                },
                Reply::MaybeText { text: None } => {
                    return Step::Finish(Outcome::Id { id: current });
                },
                _ => {
                    return Step::Mismatch;
                },
            }
            i += 1;
        }
        Step::Ask(Request::LoadParentId { id: current })
    }

    /// Whether `potential_descendant` is `node_id` or lies below it.
    pub fn is_descendant(&self, node_id: &str, potential_descendant: &str, log: &Vec<Reply>) -> (r: Step)
        ensures
            r@ == descendant_next(
                node_id@,
                potential_descendant@,
                MAX_ANCESTOR_STEPS as nat,
                replies(log@),
            ),
    {
        let mut current = potential_descendant.to_owned();
        let mut i: usize = 0;
        while i < MAX_ANCESTOR_STEPS
            invariant
                i <= log@.len(),
                i <= MAX_ANCESTOR_STEPS,
                descendant_next(
                    node_id@,
                    potential_descendant@,
                    MAX_ANCESTOR_STEPS as nat,
                    replies(log@),
                ) == descendant_next(
                    node_id@,
                    current@,
                    (MAX_ANCESTOR_STEPS - i) as nat,
                    replies_from(log@, i as int),
                ),
            decreases MAX_ANCESTOR_STEPS - i,
        {
            if same_text(current.as_str(), node_id) {
                return Step::Finish(Outcome::Flag { value: true });
            }
            if i >= log.len() {
                return Step::Ask(Request::GetParent { id: current });
            }
            match &log[i] {
                Reply::Node { node: Some(parent) } => {
                    current = parent.id.clone();
                },
                Reply::Node { node: None } => {
                    return Step::Finish(Outcome::Flag { value: false });
                },
                Reply::Refused { error: _ } => {
                    return Step::Finish(Outcome::Flag { value: false });
                },
                _ => {
                    return Step::Mismatch;
                },
            }
            i += 1;
        }
        Step::Finish(Outcome::Flag { value: false })
    }

    fn refuse_date(node_id: &str) -> (r: NodeServiceError)
        ensures
            r@ == date_cannot_move(node_id@),
    {
        let mut message = "Date node '".to_owned();
        message.append(node_id);
        message.append("' cannot be moved (it's a top-level container)");
        NodeServiceError::HierarchyViolation(message)
    }

    /// Moves a node without a look at its version.
    pub fn move_node_unchecked(
        &self,
        node_id: &str,
        new_parent: Option<&str>,
        insert_after_node_id: Option<&str>,
        log: &Vec<Reply>,
    ) -> (r: Step)
        ensures
            r@ == move_unchecked_next(
                node_id@,
                optional_str(new_parent),
                optional_str(insert_after_node_id),
                replies(log@),
            ),
    {
        if log.len() == 0 {
            return Step::Ask(Request::GetNode { id: node_id.to_owned() });
        }
        match &log[0] {
            Reply::Refused { error } => Step::Fail(error.clone()),
            Reply::Node { node: None } => Step::Fail(NodeServiceError::node_not_found(node_id)),
            Reply::Node { node: Some(node) } => {
                if same_text(node.node_type.as_str(), "date") {
                    Step::Fail(NodeService::refuse_date(node_id))
                } else {
                    NodeService::move_parent(node_id, new_parent, insert_after_node_id, None, log, 1)
                }
            },
            _ => Step::Mismatch,
        }
    }

    /// Moves a node that has the version the caller saw.
    pub fn move_node(
        &self,
        node_id: &str,
        expected_version: i64,
        new_parent: Option<&str>,
        insert_after_node_id: Option<&str>,
        log: &Vec<Reply>,
    ) -> (r: Step)
        ensures
            r@ == move_next(
                node_id@,
                expected_version,
                optional_str(new_parent),
                optional_str(insert_after_node_id),
                replies(log@),
            ),
    {
        if log.len() == 0 {
            return Step::Ask(Request::GetNode { id: node_id.to_owned() });
        }
        match &log[0] {
            Reply::Refused { error } => Step::Fail(error.clone()),
            Reply::Node { node: None } => Step::Fail(NodeServiceError::node_not_found(node_id)),
            Reply::Node { node: Some(node) } => {
                if node.version != expected_version {
                    Step::Fail(
                        NodeServiceError::version_conflict(node_id, expected_version, node.version),
                    )
                } else if same_text(node.node_type.as_str(), "date") {
                    Step::Fail(NodeService::refuse_date(node_id))
                } else {
                    NodeService::move_parent(
                        node_id,
                        new_parent,
                        insert_after_node_id,
                        Some(expected_version),
                        log,
                        1,
                    )
                }
            },
            _ => Step::Mismatch,
        }
    }

    fn move_parent(
        node_id: &str,
        parent: Option<&str>,
        after: Option<&str>,
        version: Option<i64>,
        log: &Vec<Reply>,
        from: usize,
    ) -> (r: Step)
        requires
            from <= log@.len(),
        ensures
            r@ == move_parent_next(
                node_id@,
                optional_str(parent),
                optional_str(after),
                version,
                replies_from(log@, from as int),
            ),
    {
        let parent_id = match parent {
            None => {
                return NodeService::move_store(node_id, parent, after, version, log, from);
            },
            Some(p) => p,
        };
        if from >= log.len() {
            return Step::Ask(Request::NodeExists { id: parent_id.to_owned() });
        }
        match &log[from] {
            Reply::Refused { error } => Step::Fail(error.clone()),
            Reply::Flag { value } => {
                if *value {
                    NodeService::move_ancestry(node_id, parent_id, after, version, log, from + 1)
                } else {
                    Step::Fail(NodeServiceError::invalid_parent(parent_id))
                }
            },
            _ => Step::Mismatch,
        }
    }

    fn move_ancestry(
        node_id: &str,
        parent_id: &str,
        after: Option<&str>,
        version: Option<i64>,
        log: &Vec<Reply>,
        from: usize,
    ) -> (r: Step)
        requires
            from <= log@.len(),
        ensures
            r@ == move_ancestry_next(
                node_id@,
                parent_id@,
                optional_str(after),
                version,
                replies_from(log@, from as int),
            ),
    {
        if from >= log.len() {
            return Step::Ask(
                Request::IsDescendant { ancestor: node_id.to_owned(), id: parent_id.to_owned() },
            );
        }
        match &log[from] {
            Reply::Refused { error } => Step::Fail(error.clone()),
            Reply::Flag { value } => {
                if *value {
                    let mut message = "Cannot move node ".to_owned();
                    message.append(node_id);
                    message.append(" under its descendant ");
                    message.append(parent_id);
                    Step::Fail(NodeServiceError::CircularReference(message))
                } else {
                    NodeService::move_store(node_id, Some(parent_id), after, version, log, from + 1)
                }
            },
            _ => Step::Mismatch,
        }
    }

    fn move_store(
        node_id: &str,
        parent: Option<&str>,
        after: Option<&str>,
        version: Option<i64>,
        log: &Vec<Reply>,
        from: usize,
    ) -> (r: Step)
        requires
            from <= log@.len(),
        ensures
            r@ == move_store_next(
                node_id@,
                optional_str(parent),
                optional_str(after),
                version,
                replies_from(log@, from as int),
            ),
    {
        if from >= log.len() {
            return Step::Ask(
                Request::StoreMove { id: node_id.to_owned(), parent: own(parent), after: own(after) },
            );
        }
        match &log[from] {
            Reply::Failed { message } => Step::Fail(NodeServiceError::QueryFailed(message.clone())),
            Reply::Order { order } => match parent {
                None => NodeService::move_bump(node_id, version, log, from + 1),
                Some(parent_id) => {
                    proof {
                        let rest = replies_from(log@, from as int).skip(1);
                        assert(rest == replies_from(log@, from + 1));
                    }
                    if from + 1 >= log.len() {
                        return Step::Ask(
                            Request::Emit {
                                event: DomainEvent::RelationshipUpdated {
                                    relationship: make_child_relationship(parent_id, node_id, order),
                                },
                            },
                        );
                    }
                    proof {
                        assert(replies_from(log@, from as int)[1] == replies_from(log@, from + 1)[0]);
                    }
                    match &log[from + 1] {
                        Reply::Done => NodeService::move_bump(node_id, version, log, from + 2),
                        _ => Step::Mismatch,
                    }
                },
            },
            _ => Step::Mismatch,
        }
    }

    fn move_bump(node_id: &str, version: Option<i64>, log: &Vec<Reply>, from: usize) -> (r: Step)
        requires
            from <= log@.len(),
        ensures
            r@ == move_bump_next(node_id@, version, replies_from(log@, from as int)),
    {
        let expected_version = match version {
            None => {
                return Step::Finish(Outcome::Nothing);
            },
            Some(v) => v,
        };
        if from >= log.len() {
            return Step::Ask(Request::BumpVersion { id: node_id.to_owned(), expected_version });
        }
        match &log[from] {
            Reply::Refused { error } => Step::Fail(error.clone()),
            Reply::Node { node: Some(node) } => Step::Finish(Outcome::Node { node: node.clone() }),
            _ => Step::Mismatch,
        }
    }

    /// Raises the version of a node and changes nothing else.
    pub fn update_node_with_version_bump(
        &self,
        node_id: &str,
        expected_version: i64,
        log: &Vec<Reply>,
    ) -> (r: Step)
        ensures
            r@ == bump_next(node_id@, expected_version, replies(log@)),
    {
        if log.len() == 0 {
            return Step::Ask(Request::GetNode { id: node_id.to_owned() });
        }
        match &log[0] {
            Reply::Refused { error } => Step::Fail(error.clone()),
            Reply::Node { node: None } => Step::Fail(NodeServiceError::node_not_found(node_id)),
            Reply::Node { node: Some(node) } => {
                if log.len() == 1 {
                    let update = NodeUpdate {
                        node_type: Some(node.node_type.clone()),
                        content: Some(node.content.clone()),
                        properties: Some(node.properties.clone()),
                        title: None,
                        lifecycle_status: None,
                    };
                    return Step::Ask(
                        Request::StoreVersionedUpdate {
                            id: node_id.to_owned(),
                            expected_version,
                            update,
                        },
                    );
                }
                match &log[1] {
                    Reply::Failed { message } => Step::Fail(
                        NodeServiceError::QueryFailed(message.clone()),
                    ),
                    Reply::Node { node: Some(updated) } => Step::Finish(
                        Outcome::Node { node: updated.clone() },
                    ),
                    Reply::Node { node: None } => {
                        let mut message = "Version conflict: expected version ".to_owned();
                        let numeral = decimal_of_i64(expected_version);
                        message.append(numeral.as_str());
                        message.append(" for node ");
                        message.append(node_id);
                        Step::Fail(NodeServiceError::QueryFailed(message))
                    },
                    _ => Step::Mismatch,
                }
            },
            _ => Step::Mismatch,
        }
    }
}

pub open spec fn root_cannot_be_reordered(node_id: Seq<char>) -> ErrorView {
    ErrorView::HierarchyViolation(
        "Root node '"@ + node_id + "' cannot be reordered (it has no parent)"@,
    )
}

/// A change of place among the siblings, with a version.
pub open spec fn reorder_next(
    node_id: Seq<char>,
    expected_version: i64,
    after: Option<Seq<char>>,
    log: Seq<ReplyView>,
) -> StepView {
    if log.len() == 0 {
        StepView::Ask(RequestView::GetNode { id: node_id })
    } else {
        match log[0] {
            ReplyView::Refused { error } => StepView::Fail(error),
            ReplyView::Node { node: None } => StepView::Fail(ErrorView::NodeNotFound { id: node_id }),
            ReplyView::Node { node: Some(node) } => if node.version != expected_version {
                StepView::Fail(
                    ErrorView::VersionConflict {
                        node_id,
                        expected_version,
                        actual_version: node.version,
                    },
                )
            } else {
                reorder_root_next(node_id, expected_version, after, log.skip(1))
            },
            _ => StepView::Mismatch,
        }
    }
}

pub open spec fn reorder_root_next(
    node_id: Seq<char>,
    expected_version: i64,
    after: Option<Seq<char>>,
    log: Seq<ReplyView>,
) -> StepView {
    if log.len() == 0 {
        StepView::Ask(RequestView::IsRoot { id: node_id })
    } else {
        match log[0] {
            ReplyView::Refused { error } => StepView::Fail(error),
            ReplyView::Flag { value: true } => StepView::Fail(root_cannot_be_reordered(node_id)),
            ReplyView::Flag { value: false } => reorder_store_next(
                node_id,
                expected_version,
                after,
                log.skip(1),
            ),
            _ => StepView::Mismatch,
        }
    }
}

pub open spec fn reorder_store_next(
    node_id: Seq<char>,
    expected_version: i64,
    after: Option<Seq<char>>,
    log: Seq<ReplyView>,
) -> StepView {
    if log.len() == 0 {
        StepView::Ask(RequestView::ReorderChild { id: node_id, after })
    } else {
        match log[0] {
            ReplyView::Refused { error } => StepView::Fail(error),
            ReplyView::Done => reorder_bump_next(node_id, expected_version, log.skip(1)),
            _ => StepView::Mismatch,
        }
    }
}

pub open spec fn reorder_bump_next(
    node_id: Seq<char>,
    expected_version: i64,
    log: Seq<ReplyView>,
) -> StepView {
    if log.len() == 0 {
        StepView::Ask(RequestView::BumpVersion { id: node_id, expected_version })
    } else {
        match log[0] {
            ReplyView::Refused { error } => StepView::Fail(error),
            ReplyView::Node { node: Some(_) } => StepView::Finish(OutcomeView::Nothing),
            _ => StepView::Mismatch,
        }
    }
}

/// A child put after a sibling, under the parent that it has.
pub open spec fn reorder_child_next(
    node_id: Seq<char>,
    after: Option<Seq<char>>,
    log: Seq<ReplyView>,
) -> StepView {
    if log.len() == 0 {
        StepView::Ask(RequestView::GetNode { id: node_id })
    } else {
        match log[0] {
            ReplyView::Refused { error } => StepView::Fail(error),
            ReplyView::Node { node: None } => StepView::Fail(ErrorView::NodeNotFound { id: node_id }),
            ReplyView::Node { node: Some(_) } => match after {
                None => reorder_parent_next(node_id, after, log.skip(1)),
                Some(sibling) => reorder_sibling_next(node_id, sibling, log.skip(1)),
            },
            _ => StepView::Mismatch,
        }
    }
}

pub open spec fn reorder_sibling_next(
    node_id: Seq<char>,
    sibling: Seq<char>,
    log: Seq<ReplyView>,
) -> StepView {
    if log.len() == 0 {
        StepView::Ask(RequestView::NodeExists { id: sibling })
    } else {
        match log[0] {
            ReplyView::Refused { error } => StepView::Fail(error),
            ReplyView::Flag { value: false } => StepView::Fail(
                ErrorView::HierarchyViolation("Sibling node "@ + sibling + " does not exist"@),
            ),
            ReplyView::Flag { value: true } => reorder_parent_next(
                node_id,
                Some(sibling),
                log.skip(1),
            ),
            _ => StepView::Mismatch,
        }
    }
}

pub open spec fn reorder_parent_next(
    node_id: Seq<char>,
    after: Option<Seq<char>>,
    log: Seq<ReplyView>,
) -> StepView {
    if log.len() == 0 {
        StepView::Ask(RequestView::GetParent { id: node_id })
    } else {
        match log[0] {
            ReplyView::Refused { error } => StepView::Fail(error),
            ReplyView::Node { node } => move_store_next(
                node_id,
                match node {
                    Some(parent) => Some(parent.id),
                    None => None,
                },
                after,
                None,
                log.skip(1),
            ),
            _ => StepView::Mismatch,
        }
    }
}

impl NodeService {
    /// Puts a node that has the version the caller saw at another place among its siblings.
    pub fn reorder_node(
        &self,
        node_id: &str,
        expected_version: i64,
        insert_after: Option<&str>,
        log: &Vec<Reply>,
    ) -> (r: Step)
        ensures
            r@ == reorder_next(
                node_id@,
                expected_version,
                optional_str(insert_after),
                replies(log@),
            ),
    {
        if log.len() == 0 {
            return Step::Ask(Request::GetNode { id: node_id.to_owned() });
        }
        match &log[0] {
            Reply::Refused { error } => {
                return Step::Fail(error.clone());
            },
            Reply::Node { node: None } => {
                return Step::Fail(NodeServiceError::node_not_found(node_id));
            },
            Reply::Node { node: Some(node) } => {
                if node.version != expected_version {
                    return Step::Fail(
                        NodeServiceError::version_conflict(node_id, expected_version, node.version),
                    );
                }
            },
            _ => {
                return Step::Mismatch;
            },
        }
        if log.len() == 1 {
            return Step::Ask(Request::IsRoot { id: node_id.to_owned() });
        }
        match &log[1] {
            Reply::Refused { error } => {
                return Step::Fail(error.clone());
            },
            Reply::Flag { value } => {
                if *value {
                    let mut message = "Root node '".to_owned();
                    message.append(node_id);
                    message.append("' cannot be reordered (it has no parent)");
                    return Step::Fail(NodeServiceError::HierarchyViolation(message));
                }
            },
            _ => {
                return Step::Mismatch;
            },
        }
        if log.len() == 2 {
            return Step::Ask(
                Request::ReorderChild { id: node_id.to_owned(), after: own(insert_after) },
            );
        }
        match &log[2] {
            Reply::Refused { error } => {
                return Step::Fail(error.clone());
            },
            Reply::Done => {},
            _ => {
                return Step::Mismatch;
            },
        }
        if log.len() == 3 {
            return Step::Ask(Request::BumpVersion { id: node_id.to_owned(), expected_version });
        }
        match &log[3] {
            Reply::Refused { error } => Step::Fail(error.clone()),
            Reply::Node { node: Some(_) } => Step::Finish(Outcome::Nothing),
            _ => Step::Mismatch,
        }
    }

    /// Puts a node after a sibling, or at the beginning, under the parent that it has.
    pub fn reorder_child(&self, node_id: &str, insert_after: Option<&str>, log: &Vec<Reply>) -> (r: Step)
        ensures
            r@ == reorder_child_next(node_id@, optional_str(insert_after), replies(log@)),
    {
        if log.len() == 0 {
            return Step::Ask(Request::GetNode { id: node_id.to_owned() });
        }
        match &log[0] {
            Reply::Refused { error } => {
                return Step::Fail(error.clone());
            },
            Reply::Node { node: None } => {
                return Step::Fail(NodeServiceError::node_not_found(node_id));
            },
            Reply::Node { node: Some(_) } => {},
            _ => {
                return Step::Mismatch;
            },
        }
        let mut from: usize = 1;
        if let Some(sibling) = insert_after {
            if log.len() == 1 {
                return Step::Ask(Request::NodeExists { id: sibling.to_owned() });
            }
            match &log[1] {
                Reply::Refused { error } => {
                    return Step::Fail(error.clone());
                },
                Reply::Flag { value } => {
                    if !*value {
                        let mut message = "Sibling node ".to_owned();
                        message.append(sibling);
                        message.append(" does not exist");
                        return Step::Fail(NodeServiceError::HierarchyViolation(message));
                    }
                },
                _ => {
                    return Step::Mismatch;
                },
            }
            from = 2;
        }
        if from >= log.len() {
            return Step::Ask(Request::GetParent { id: node_id.to_owned() });
        }
        match &log[from] {
            Reply::Refused { error } => Step::Fail(error.clone()),
            Reply::Node { node } => {
                let parent = match node {
                    Some(parent) => Some(parent.id.as_str()),
                    None => None,
                };
                NodeService::move_store(node_id, parent, insert_after, None, log, from + 1)
            },
            _ => Step::Mismatch,
        }
    }
}

/// A node is moved only if it exists with the version that the caller saw and is no date; under a
/// parent only if that exists and was not found below the node.
pub proof fn law_moves_are_checked(
    node_id: Seq<char>,
    expected_version: i64,
    parent: Option<Seq<char>>,
    after: Option<Seq<char>>,
    log: Seq<ReplyView>,
)
    requires
        move_next(node_id, expected_version, parent, after, log) matches StepView::Ask(
            RequestView::StoreMove { id, parent, after },
        ),
    ensures
        move_next(node_id, expected_version, parent, after, log) == StepView::Ask(
            RequestView::StoreMove { id: node_id, parent, after },
        ),
        log[0] matches ReplyView::Node { node: Some(node) } && node.version == expected_version
            && node.node_type != "date"@,
        parent is Some ==> log[1] == (ReplyView::Flag { value: true }) && log[2] == (
        ReplyView::Flag { value: false }),
{
}

/// A move that the caller based on another version changes nothing: it fails and says which
/// version the node has.
pub proof fn law_stale_move_changes_nothing(
    node_id: Seq<char>,
    expected_version: i64,
    parent: Option<Seq<char>>,
    after: Option<Seq<char>>,
    node: NodeView,
    log: Seq<ReplyView>,
)
    requires
        log.len() > 0,
        log[0] == (ReplyView::Node { node: Some(node) }),
        node.version != expected_version,
    ensures
        move_next(node_id, expected_version, parent, after, log) == StepView::Fail(
            ErrorView::VersionConflict { node_id, expected_version, actual_version: node.version },
        ),
{
}

/// The ancestor that lies some generations above a node.
pub open spec fn above(
    parents: Map<Seq<char>, Seq<char>>,
    id: Seq<char>,
    generations: nat,
) -> Option<Seq<char>>
    decreases generations,
{
    if generations == 0 {
        Some(id)
    } else if parents.contains_key(id) {
        above(parents, parents[id], (generations - 1) as nat)
    } else {
        None
    }
}

/// No node is its own ancestor.
pub open spec fn is_forest(parents: Map<Seq<char>, Seq<char>>) -> bool {
    forall|id: Seq<char>, n: nat| n > 0 ==> #[trigger] above(parents, id, n) != Some(id)
}

/// The replies name the parents that the nodes have.
pub open spec fn truthful(
    parents: Map<Seq<char>, Seq<char>>,
    current: Seq<char>,
    log: Seq<ReplyView>,
) -> bool
    decreases log.len(),
{
    log.len() > 0 ==> match log[0] {
        ReplyView::Node { node: Some(parent) } => parents.contains_key(current) && parents[current]
            == parent.id && truthful(parents, parent.id, log.skip(1)),
        ReplyView::Node { node: None } => !parents.contains_key(current),
        _ => false,
    }
}

/// The search for an ancestor that ends with no within its bound is right: the node is not above
/// the other, nor is it the other.
pub proof fn law_no_means_not_above(
    parents: Map<Seq<char>, Seq<char>>,
    node_id: Seq<char>,
    current: Seq<char>,
    steps: nat,
    log: Seq<ReplyView>,
    n: nat,
)
    requires
        truthful(parents, current, log),
        log.len() < steps,
        descendant_next(node_id, current, steps, log) == StepView::Finish(
            OutcomeView::Flag { value: false },
        ),
    ensures
        above(parents, current, n) != Some(node_id),
    decreases log.len(),
{
    if log.len() > 0 {
        match log[0] {
            ReplyView::Node { node: Some(parent) } => {
                if n > 0 {
                    law_no_means_not_above(
                        parents,
                        node_id,
                        parent.id,
                        (steps - 1) as nat,
                        log.skip(1),
                        (n - 1) as nat,
                    );
                }
            },
            _ => {},
        }
    }
}

/// The search that ends with yes is right: the node is the other or an ancestor of it.
pub proof fn law_yes_means_above(
    parents: Map<Seq<char>, Seq<char>>,
    node_id: Seq<char>,
    current: Seq<char>,
    steps: nat,
    log: Seq<ReplyView>,
)
    requires
        truthful(parents, current, log),
        descendant_next(node_id, current, steps, log) == StepView::Finish(
            OutcomeView::Flag { value: true },
        ),
    ensures
        exists|n: nat| #[trigger] above(parents, current, n) == Some(node_id),
    decreases log.len(),
{
    if current == node_id {
        assert(above(parents, current, 0) == Some(node_id));
    } else {
        match log[0] {
            ReplyView::Node { node: Some(parent) } => {
                law_yes_means_above(parents, node_id, parent.id, (steps - 1) as nat, log.skip(1));
                let n = choose|n: nat| #[trigger] above(parents, parent.id, n) == Some(node_id);
                assert(above(parents, current, n + 1) == Some(node_id));
            },
            _ => {},
        }
    }
}

/// A move that passes the search keeps the nodes a forest: no node becomes its own ancestor.
pub proof fn law_move_keeps_forest(
    parents: Map<Seq<char>, Seq<char>>,
    node_id: Seq<char>,
    new_parent: Seq<char>,
    steps: nat,
    log: Seq<ReplyView>,
)
    requires
        is_forest(parents),
        truthful(parents, new_parent, log),
        log.len() < steps,
        descendant_next(node_id, new_parent, steps, log) == StepView::Finish(
            OutcomeView::Flag { value: false },
        ),
    ensures
        is_forest(parents.insert(node_id, new_parent)),
{
    assert forall|n: nat| #[trigger] above(parents, new_parent, n) != Some(node_id) by {
        law_no_means_not_above(parents, node_id, new_parent, steps, log, n);
    }
    let after = parents.insert(node_id, new_parent);
    assert forall|id: Seq<char>, n: nat| n > 0 implies #[trigger] above(after, id, n) != Some(id) by {
        lemma_no_cycle(parents, node_id, new_parent, id, n);
    }
}

proof fn lemma_above_splits(parents: Map<Seq<char>, Seq<char>>, id: Seq<char>, a: nat, b: nat)
    ensures
        above(parents, id, a + b) == (match above(parents, id, a) {
            Some(x) => above(parents, x, b),
            None => None,
        }),
    decreases a,
{
    if a > 0 && parents.contains_key(id) {
        lemma_above_splits(parents, parents[id], (a - 1) as nat, b);
        assert((a + b - 1) as nat == (a - 1) as nat + b);
    }
}

/// As long as the way up does not meet the moved node, the move does not change it.
proof fn lemma_above_unchanged(
    parents: Map<Seq<char>, Seq<char>>,
    node_id: Seq<char>,
    new_parent: Seq<char>,
    id: Seq<char>,
    n: nat,
)
    requires
        forall|k: nat| k < n ==> #[trigger] above(parents, id, k) != Some(node_id),
    ensures
        above(parents.insert(node_id, new_parent), id, n) == above(parents, id, n),
    decreases n,
{
    if n > 0 {
        assert(above(parents, id, 0) != Some(node_id));
        if parents.contains_key(id) {
            assert forall|k: nat| k < n - 1 implies #[trigger] above(parents, parents[id], k) != Some(
                node_id,
            ) by {
                assert(above(parents, id, k + 1) == above(parents, parents[id], k));
            }
            lemma_above_unchanged(parents, node_id, new_parent, parents[id], (n - 1) as nat);
        }
    }
}

proof fn lemma_first_meeting(
    parents: Map<Seq<char>, Seq<char>>,
    node_id: Seq<char>,
    id: Seq<char>,
    k: nat,
) -> (j: nat)
    requires
        above(parents, id, k) == Some(node_id),
    ensures
        j <= k,
        above(parents, id, j) == Some(node_id),
        forall|i: nat| i < j ==> #[trigger] above(parents, id, i) != Some(node_id),
    decreases k,
{
    if exists|i: nat| i < k && #[trigger] above(parents, id, i) == Some(node_id) {
        let i = choose|i: nat| i < k && #[trigger] above(parents, id, i) == Some(node_id);
        lemma_first_meeting(parents, node_id, id, i)
    } else {
        k
    }
}

proof fn lemma_no_cycle(
    parents: Map<Seq<char>, Seq<char>>,
    node_id: Seq<char>,
    new_parent: Seq<char>,
    id: Seq<char>,
    n: nat,
)
    requires
        is_forest(parents),
        n > 0,
        forall|k: nat| #[trigger] above(parents, new_parent, k) != Some(node_id),
    ensures
        above(parents.insert(node_id, new_parent), id, n) != Some(id),
{
    let after = parents.insert(node_id, new_parent);
    if exists|k: nat| k < n && #[trigger] above(parents, id, k) == Some(node_id) {
        let k = choose|k: nat| k < n && #[trigger] above(parents, id, k) == Some(node_id);
        let j = lemma_first_meeting(parents, node_id, id, k);
        lemma_above_unchanged(parents, node_id, new_parent, id, j);
        let rest = (n - j) as nat;
        lemma_above_splits(after, id, j, rest);
        assert(j + rest == n);
        lemma_above_unchanged(parents, node_id, new_parent, new_parent, (rest - 1) as nat);
        assert(above(after, node_id, rest) == above(after, new_parent, (rest - 1) as nat));
        assert(above(after, id, n) == above(parents, new_parent, (rest - 1) as nat));
        if above(after, id, n) == Some(id) {
            lemma_above_splits(parents, new_parent, (rest - 1) as nat, j);
            assert(above(parents, new_parent, (rest - 1) as nat + j) == Some(node_id));
        }
    } else {
        lemma_above_unchanged(parents, node_id, new_parent, id, n);
    }
}

} // verus!
