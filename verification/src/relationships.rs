//! Relationships between nodes: those that every node has, and those that schemas define.

use crate::error::{ErrorView, NodeServiceError};
use crate::events::{DomainEvent, DomainEventView, RelationshipEvent, RelationshipEventView};
use crate::json::{Json, Number, Object, Value};
use crate::linking::announce_next;
use crate::node::{
    clone_optional, node_views, optional_text, relationship_views, texts, CompletenessResult,
    CompletenessResultView, Node, NodeView, RelationshipCardinality, SchemaRelationship,
    SchemaRelationshipView,
};
use crate::properties::object_or_empty;
use crate::protocol::{
    group_replies, replies, replies_from, Outcome, OutcomeView, Reply, ReplyView, Request,
    RequestView, Step, StepView,
};
use crate::service::NodeService;
use crate::text::same_text;
use vstd::prelude::*;
use vstd::string::*;

verus! {

broadcast use group_replies;

/// The text of a record identifier: its table and its key.
pub fn extract_record_id_string(table: &str, key: &str) -> (r: String)
    ensures
        r@ == table@ + ":"@ + key@,
{
    let mut out = table.to_owned();
    out.append(":");
    out.append(key);
    out
}

/// The relationships that every node has, whatever its schema.
pub open spec fn is_builtin(name: Seq<char>) -> bool {
    name == "member_of"@ || name == "has_child"@ || name == "mentions"@
}

fn check_builtin(name: &str) -> (r: bool)
    ensures
        r == is_builtin(name@),
{
    same_text(name, "member_of") || same_text(name, "has_child") || same_text(name, "mentions")
}

/// The position of the first relationship with the name, or the number of relationships.
pub open spec fn defined_at(defined: Seq<SchemaRelationshipView>, name: Seq<char>) -> int
    decreases defined.len(),
{
    if defined.len() == 0 {
        0
    } else if defined_at(defined.drop_last(), name) < defined.len() - 1 {
        defined_at(defined.drop_last(), name)
    } else if defined.last().name == name {
        defined.len() - 1
    } else {
        defined.len() as int
    }
}

fn find_defined(defined: &Vec<SchemaRelationship>, name: &str) -> (r: usize)
    ensures
        r == defined_at(relationship_views(defined@), name@),
        r <= defined@.len(),
{
    let ghost all = relationship_views(defined@);
    let mut i: usize = 0;
    while i < defined.len()
        invariant
            i <= defined@.len() == all.len(),
            defined_at(all.take(i as int), name@) == i,
        decreases defined@.len() - i,
    {
        proof {
            assert(all.take(i + 1).drop_last() =~= all.take(i as int));
            assert(all.take(i + 1).last() == defined@[i as int]@);
        }
        if same_text(defined[i].name.as_str(), name) {
            proof {
                lemma_defined_stays(all, name@, i + 1);
            }
            return i;
        }
        i += 1;
    }
    proof {
        assert(all.take(all.len() as int) =~= all);
    }
    i
}

proof fn lemma_defined_stays(defined: Seq<SchemaRelationshipView>, name: Seq<char>, n: int)
    requires
        0 <= n <= defined.len(),
        defined_at(defined.take(n), name) < n,
    ensures
        defined_at(defined, name) == defined_at(defined.take(n), name),
    decreases defined.len() - n,
{
    if n < defined.len() {
        assert(defined.take(n + 1).drop_last() =~= defined.take(n));
        lemma_defined_stays(defined, name, n + 1);
    } else {
        assert(defined.take(n) =~= defined);
    }
}

pub open spec fn schema_not_found(schema: Seq<char>) -> ErrorView {
    ErrorView::SchemaNotFound("Schema '"@ + schema + "' not found"@)
}

pub open spec fn not_defined(name: Seq<char>, schema: Seq<char>) -> ErrorView {
    ErrorView::RelationshipNotFound(
        "Relationship '"@ + name + "' not defined in schema '"@ + schema
            + "'. Built-in relationships (member_of, has_child, mentions) are universal."@,
    )
}

pub open spec fn not_a_collection(node_type: Seq<char>) -> ErrorView {
    ErrorView::InvalidUpdate("member_of target must be a collection node, got '"@ + node_type + "'"@)
}

pub open spec fn wrong_target_type(
    found: Seq<char>,
    expected: Seq<char>,
    name: Seq<char>,
) -> ErrorView {
    ErrorView::TargetTypeMismatch(
        "Target node type '"@ + found + "' doesn't match expected type '"@ + expected
            + "' for relationship '"@ + name + "'"@,
    )
}

pub open spec fn cardinality_violated(name: Seq<char>) -> ErrorView {
    ErrorView::CardinalityViolation(
        "Relationship '"@ + name + "' has cardinality 'one' but an edge already exists"@,
    )
}

fn error_schema_not_found(schema: &str) -> (r: NodeServiceError)
    ensures
        r@ == schema_not_found(schema@),
{
    let mut m = "Schema '".to_owned();
    m.append(schema);
    m.append("' not found");
    NodeServiceError::SchemaNotFound(m)
}

fn error_not_defined(name: &str, schema: &str) -> (r: NodeServiceError)
    ensures
        r@ == not_defined(name@, schema@),
{
    let mut m = "Relationship '".to_owned();
    m.append(name);
    m.append("' not defined in schema '");
    m.append(schema);
    m.append("'. Built-in relationships (member_of, has_child, mentions) are universal.");
    NodeServiceError::RelationshipNotFound(m)
}

fn error_query(prefix: &str, message: &str) -> (r: Step)
    ensures
        r@ == StepView::Fail(ErrorView::QueryFailed(prefix@ + message@)),
{
    let mut m = prefix.to_owned();
    m.append(message);
    Step::Fail(NodeServiceError::QueryFailed(m))
}

/// An edge to be stored.
pub struct Edge<'a> {
    pub source: &'a str,
    pub name: &'a str,
    pub target: &'a str,
    pub data: &'a Value,
}

#[verifier::ext_equal]
pub struct EdgeView {
    pub source: Seq<char>,
    pub name: Seq<char>,
    pub target: Seq<char>,
    pub data: Json,
}

impl<'a> View for Edge<'a> {
    type V = EdgeView;

    open spec fn view(&self) -> EdgeView {
        EdgeView {
            source: self.source@,
            name: self.name@,
            target: self.target@,
            data: self.data@,
        }
    }
}

/// The creation of an edge. Both nodes exist; a relationship that is not built in is defined in the
/// schema of the source, and its target type and its cardinality are kept.
pub open spec fn relate_next(e: EdgeView, log: Seq<ReplyView>) -> StepView {
    if log.len() == 0 {
        StepView::Ask(RequestView::GetNode { id: e.source })
    } else {
        match log[0] {
            ReplyView::Refused { error } => StepView::Fail(error),
            ReplyView::Node { node: None } => StepView::Fail(ErrorView::NodeNotFound { id: e.source }),
            ReplyView::Node { node: Some(source) } => if is_builtin(e.name) {
                relate_builtin_next(e, log.skip(1))
            } else {
                relate_schema_next(e, source.node_type, log.skip(1))
            },
            _ => StepView::Mismatch,
        }
    }
}

pub open spec fn relate_builtin_next(e: EdgeView, log: Seq<ReplyView>) -> StepView {
    if log.len() == 0 {
        StepView::Ask(RequestView::GetNode { id: e.target })
    } else {
        match log[0] {
            ReplyView::Refused { error } => StepView::Fail(error),
            ReplyView::Node { node: None } => StepView::Fail(ErrorView::NodeNotFound { id: e.target }),
            ReplyView::Node { node: Some(target) } => if e.name == "member_of"@ {
                if target.node_type != "collection"@ {
                    StepView::Fail(not_a_collection(target.node_type))
                } else if e.data.member("order"@) is Some {
                    relate_check_next(e, log.skip(1))
                } else {
                    relate_member_next(e, log.skip(1))
                }
            } else {
                relate_check_next(e, log.skip(1))
            },
            _ => StepView::Mismatch,
        }
    }
}

pub open spec fn relate_schema_next(
    e: EdgeView,
    schema: Seq<char>,
    log: Seq<ReplyView>,
) -> StepView {
    if log.len() == 0 {
        StepView::Ask(RequestView::LoadRelationships { node_type: schema })
    } else {
        match log[0] {
            ReplyView::Refused { error } => StepView::Fail(error),
            ReplyView::Relationships { relationships: None } => StepView::Fail(
                schema_not_found(schema),
            ),
            ReplyView::Relationships { relationships: Some(defined) } => {
                let at = defined_at(defined, e.name);
                if at < defined.len() {
                    relate_target_next(e, defined[at], log.skip(1))
                } else {
                    StepView::Fail(not_defined(e.name, schema))
                }
            },
            _ => StepView::Mismatch,
        }
    }
}

pub open spec fn relate_target_next(
    e: EdgeView,
    defined: SchemaRelationshipView,
    log: Seq<ReplyView>,
) -> StepView {
    if log.len() == 0 {
        StepView::Ask(RequestView::GetNode { id: e.target })
    } else {
        match log[0] {
            ReplyView::Refused { error } => StepView::Fail(error),
            ReplyView::Node { node: None } => StepView::Fail(ErrorView::NodeNotFound { id: e.target }),
            ReplyView::Node { node: Some(target) } => match defined.target_type {
                Some(expected) if target.node_type != expected => StepView::Fail(
                    wrong_target_type(target.node_type, expected, e.name),
                ),
                _ => if defined.cardinality == RelationshipCardinality::One {
                    relate_cardinality_next(e, log.skip(1))
                } else {
                    relate_check_next(e, log.skip(1))
                },
            },
            _ => StepView::Mismatch,
        }
    }
}

pub open spec fn relate_cardinality_next(e: EdgeView, log: Seq<ReplyView>) -> StepView {
    if log.len() == 0 {
        StepView::Ask(RequestView::HasEdge { source: e.source, relationship: e.name })
    } else {
        match log[0] {
            ReplyView::Failed { message } => StepView::Fail(
                ErrorView::QueryFailed("Failed to check cardinality: "@ + message),
            ),
            ReplyView::Garbled { message } => StepView::Fail(
                ErrorView::QueryFailed("Failed to parse cardinality check: "@ + message),
            ),
            ReplyView::Flag { value: true } => StepView::Fail(cardinality_violated(e.name)),
            ReplyView::Flag { value: false } => relate_check_next(e, log.skip(1)),
            _ => StepView::Mismatch,
        }
    }
}

/// The number one as a float.
pub open spec fn one_point_zero() -> Json {
    Json::Number(Number::Float(0x3ff0_0000_0000_0000))
}

pub open spec fn edge_created(e: EdgeView, id: Seq<char>, properties: Json) -> DomainEventView {
    DomainEventView::RelationshipCreated {
        relationship: RelationshipEventView {
            id,
            from_id: e.source,
            to_id: e.target,
            relationship_type: e.name,
            properties,
        },
    }
}

/// A member without an order is put at the end of the collection by the store in one go.
pub open spec fn relate_member_next(e: EdgeView, log: Seq<ReplyView>) -> StepView {
    if log.len() == 0 {
        StepView::Ask(RequestView::AddToCollection { source: e.source, target: e.target })
    } else {
        match log[0] {
            ReplyView::Failed { message } => StepView::Fail(
                ErrorView::QueryFailed("Failed to add to collection: "@ + message),
            ),
            ReplyView::MaybeText { text: None } => StepView::Finish(OutcomeView::Nothing),
            ReplyView::MaybeText { text: Some(id) } => relate_order_next(e, id, log.skip(1)),
            _ => StepView::Mismatch,
        }
    }
}

pub open spec fn relate_order_next(e: EdgeView, id: Seq<char>, log: Seq<ReplyView>) -> StepView {
    if log.len() == 0 {
        StepView::Ask(RequestView::LoadMemberOrder { source: e.source, target: e.target })
    } else {
        match log[0] {
            ReplyView::Failed { message } => StepView::Fail(
                ErrorView::QueryFailed("Failed to get order: "@ + message),
            ),
            ReplyView::MaybeOrder { order } => announce_next(
                edge_created(
                    e,
                    id,
                    Json::Object(
                        Map::<Seq<char>, Json>::empty().insert(
                            "order"@,
                            match order {
                                Some(o) => o,
                                None => one_point_zero(),
                            },
                        ),
                    ),
                ),
                log.skip(1),
            ),
            _ => StepView::Mismatch,
        }
    }
}

/// An edge that exists is left as it is.
pub open spec fn relate_check_next(e: EdgeView, log: Seq<ReplyView>) -> StepView {
    if log.len() == 0 {
        StepView::Ask(
            RequestView::FindEdge { source: e.source, target: e.target, relationship: e.name },
        )
    } else {
        match log[0] {
            ReplyView::Failed { message } => StepView::Fail(
                ErrorView::QueryFailed("Failed to check existing relationship: "@ + message),
            ),
            ReplyView::MaybeText { text: Some(_) } => StepView::Finish(OutcomeView::Nothing),
            ReplyView::MaybeText { text: None } => relate_data_next(e, log.skip(1)),
            _ => StepView::Mismatch,
        }
    }
}

/// The data of a built-in edge is an object, and a child has an order in it.
pub open spec fn relate_data_next(e: EdgeView, log: Seq<ReplyView>) -> StepView {
    if !is_builtin(e.name) {
        relate_store_next(e, e.data, log)
    } else {
        let data = object_or_empty(e.data);
        if e.name == "has_child"@ && !data.contains_key("order"@) {
            if log.len() == 0 {
                StepView::Ask(RequestView::NextChildOrder { id: e.source })
            } else {
                match log[0] {
                    ReplyView::Failed { message } => StepView::Fail(
                        ErrorView::QueryFailed("Failed to calculate child order: "@ + message),
                    ),
                    ReplyView::Order { order } => relate_store_next(
                        e,
                        Json::Object(data.insert("order"@, order)),
                        log.skip(1),
                    ),
                    _ => StepView::Mismatch,
                }
            }
        } else {
            relate_store_next(e, Json::Object(data), log)
        }
    }
}

pub open spec fn relate_store_next(e: EdgeView, properties: Json, log: Seq<ReplyView>) -> StepView {
    if log.len() == 0 {
        StepView::Ask(
            RequestView::Relate {
                source: e.source,
                target: e.target,
                relationship: e.name,
                properties,
            },
        )
    } else {
        match log[0] {
            ReplyView::Failed { message } => StepView::Fail(
                ErrorView::QueryFailed("Failed to create relationship: "@ + message),
            ),
            ReplyView::MaybeText { text: None } => StepView::Finish(OutcomeView::Nothing),
            ReplyView::MaybeText { text: Some(id) } => announce_next(
                edge_created(e, id, properties),
                log.skip(1),
            ),
            _ => StepView::Mismatch,
        }
    }
}

impl NodeService {
    /// Creates a relationship between two nodes.
    pub fn create_relationship(
        &self,
        source_id: &str,
        relationship_name: &str,
        target_id: &str,
        edge_data: &Value,
        log: &Vec<Reply>,
    ) -> (r: Step)
        ensures
            r@ == relate_next(
                EdgeView {
                    source: source_id@,
                    name: relationship_name@,
                    target: target_id@,
                    data: edge_data@,
                },
                replies(log@),
            ),
    {
        let e = Edge {
            source: source_id,
            name: relationship_name,
            target: target_id,
            data: edge_data,
        };
        if log.len() == 0 {
            return Step::Ask(Request::GetNode { id: source_id.to_owned() });
        }
        match &log[0] {
            Reply::Refused { error } => Step::Fail(error.clone()),
            Reply::Node { node: None } => Step::Fail(NodeServiceError::node_not_found(source_id)),
            Reply::Node { node: Some(source) } => {
                if check_builtin(relationship_name) {
                    NodeService::relate_builtin(&e, log, 1)
                } else {
                    NodeService::relate_schema(&e, source.node_type.as_str(), log, 1)
                }
            },
            _ => Step::Mismatch,
        }
    }

    fn relate_builtin<'a>(e: &Edge<'a>, log: &Vec<Reply>, from: usize) -> (r: Step)
        requires
            from <= log@.len(),
        ensures
            r@ == relate_builtin_next(e@, replies_from(log@, from as int)),
    {
        if from >= log.len() {
            return Step::Ask(Request::GetNode { id: e.target.to_owned() });
        }
        match &log[from] {
            Reply::Refused { error } => Step::Fail(error.clone()),
            Reply::Node { node: None } => Step::Fail(NodeServiceError::node_not_found(e.target)),
            Reply::Node { node: Some(target) } => {
                if same_text(e.name, "member_of") {
                    if !same_text(target.node_type.as_str(), "collection") {
                        let mut m = "member_of target must be a collection node, got '".to_owned();
                        m.append(target.node_type.as_str());
                        m.append("'");
                        Step::Fail(NodeServiceError::InvalidUpdate(m))
                    } else if e.data.get("order").is_some() {
                        NodeService::relate_check(e, log, from + 1)
                    } else {
                        NodeService::relate_member(e, log, from + 1)
                    }
                } else {
                    NodeService::relate_check(e, log, from + 1)
                }
            },
            _ => Step::Mismatch,
        }
    }

    fn relate_schema<'a>(e: &Edge<'a>, schema: &str, log: &Vec<Reply>, from: usize) -> (r: Step)
        requires
            from <= log@.len(),
        ensures
            r@ == relate_schema_next(e@, schema@, replies_from(log@, from as int)),
    {
        if from >= log.len() {
            return Step::Ask(Request::LoadRelationships { node_type: schema.to_owned() });
        }
        match &log[from] {
            Reply::Refused { error } => Step::Fail(error.clone()),
            Reply::Relationships { relationships: None } => Step::Fail(error_schema_not_found(schema)),
            Reply::Relationships { relationships: Some(defined) } => {
                let at = find_defined(defined, e.name);
                if at < defined.len() {
                    NodeService::relate_target(e, &defined[at], log, from + 1)
                } else {
                    Step::Fail(error_not_defined(e.name, schema))
                }
            },
            _ => Step::Mismatch,
        }
    }

    fn relate_target<'a>(
        e: &Edge<'a>,
        defined: &SchemaRelationship,
        log: &Vec<Reply>,
        from: usize,
    ) -> (r: Step)
        requires
            from <= log@.len(),
        ensures
            r@ == relate_target_next(e@, defined@, replies_from(log@, from as int)),
    {
        if from >= log.len() {
            return Step::Ask(Request::GetNode { id: e.target.to_owned() });
        }
        let target = match &log[from] {
            Reply::Refused { error } => {
                return Step::Fail(error.clone());
            },
            Reply::Node { node: None } => {
                return Step::Fail(NodeServiceError::node_not_found(e.target));
            },
            Reply::Node { node: Some(target) } => target,
            _ => {
                return Step::Mismatch;
            },
        };
        if let Some(expected) = &defined.target_type {
            if !same_text(target.node_type.as_str(), expected.as_str()) {
                let mut m = "Target node type '".to_owned();
                m.append(target.node_type.as_str());
                m.append("' doesn't match expected type '");
                m.append(expected.as_str());
                m.append("' for relationship '");
                m.append(e.name);
                m.append("'");
                return Step::Fail(NodeServiceError::TargetTypeMismatch(m));
            }
        }
        if defined.cardinality == RelationshipCardinality::One {
            NodeService::relate_cardinality(e, log, from + 1)
        } else {
            NodeService::relate_check(e, log, from + 1)
        }
    }

    fn relate_cardinality<'a>(e: &Edge<'a>, log: &Vec<Reply>, from: usize) -> (r: Step)
        requires
            from <= log@.len(),
        ensures
            r@ == relate_cardinality_next(e@, replies_from(log@, from as int)),
    {
        if from >= log.len() {
            return Step::Ask(
                Request::HasEdge { source: e.source.to_owned(), relationship: e.name.to_owned() },
            );
        }
        match &log[from] {
            Reply::Failed { message } => error_query("Failed to check cardinality: ", message.as_str()),
            Reply::Garbled { message } => error_query(
                "Failed to parse cardinality check: ",
                message.as_str(),
            ),
            Reply::Flag { value } => {
                if *value {
                    let mut m = "Relationship '".to_owned();
                    m.append(e.name);
                    m.append("' has cardinality 'one' but an edge already exists");
                    Step::Fail(NodeServiceError::CardinalityViolation(m))
                } else {
                    NodeService::relate_check(e, log, from + 1)
                }
            },
            _ => Step::Mismatch,
        }
    }

    fn relationship_event<'a>(e: &Edge<'a>, id: &String, properties: Value) -> (r: DomainEvent)
        ensures
            r@ == edge_created(e@, id@, properties@),
    {
        DomainEvent::RelationshipCreated {
            relationship: RelationshipEvent {
                id: id.clone(),
                from_id: e.source.to_owned(),
                to_id: e.target.to_owned(),
                relationship_type: e.name.to_owned(),
                properties,
            },
        }
    }

    fn relate_member<'a>(e: &Edge<'a>, log: &Vec<Reply>, from: usize) -> (r: Step)
        requires
            from <= log@.len(),
        ensures
            r@ == relate_member_next(e@, replies_from(log@, from as int)),
    {
        if from >= log.len() {
            return Step::Ask(
                Request::AddToCollection {
                    source: e.source.to_owned(),
                    target: e.target.to_owned(),
                },
            );
        }
        let id = match &log[from] {
            Reply::Failed { message } => {
                return error_query("Failed to add to collection: ", message.as_str());
            },
            Reply::MaybeText { text: None } => {
                return Step::Finish(Outcome::Nothing);
            },
            Reply::MaybeText { text: Some(id) } => id,
            _ => {
                return Step::Mismatch;
            },
        };
        if from + 1 >= log.len() {
            return Step::Ask(
                Request::LoadMemberOrder {
                    source: e.source.to_owned(),
                    target: e.target.to_owned(),
                },
            );
        }
        match &log[from + 1] {
            Reply::Failed { message } => error_query("Failed to get order: ", message.as_str()),
            Reply::MaybeOrder { order } => {
                let value = match order {
                    Some(o) => o.clone(),
                    None => Value::Number(Number::Float(0x3ff0_0000_0000_0000)),
                };
                let mut data = Object::new();
                data.insert("order".to_owned(), value);
                let event = NodeService::relationship_event(e, id, Value::Object(data));
                NodeService::announce(event, log, from + 2)
            },
            _ => Step::Mismatch,
        }
    }

    fn relate_check<'a>(e: &Edge<'a>, log: &Vec<Reply>, from: usize) -> (r: Step)
        requires
            from <= log@.len(),
        ensures
            r@ == relate_check_next(e@, replies_from(log@, from as int)),
    {
        if from >= log.len() {
            return Step::Ask(
                Request::FindEdge {
                    source: e.source.to_owned(),
                    target: e.target.to_owned(),
                    relationship: e.name.to_owned(),
                },
            );
        }
        match &log[from] {
            Reply::Failed { message } => error_query(
                "Failed to check existing relationship: ",
                message.as_str(),
            ),
            Reply::MaybeText { text: Some(_) } => Step::Finish(Outcome::Nothing),
            Reply::MaybeText { text: None } => NodeService::relate_data(e, log, from + 1),
            _ => Step::Mismatch,
        }
    }

    fn relate_data<'a>(e: &Edge<'a>, log: &Vec<Reply>, from: usize) -> (r: Step)
        requires
            from <= log@.len(),
        ensures
            r@ == relate_data_next(e@, replies_from(log@, from as int)),
    {
        if !check_builtin(e.name) {
            return NodeService::relate_store(e, e.data.clone(), log, from);
        }
        let mut data = match e.data {
            Value::Object(o) => o.clone(),
            _ => Object::new(),
        };
        if same_text(e.name, "has_child") && !data.contains_key("order") {
            if from >= log.len() {
                return Step::Ask(Request::NextChildOrder { id: e.source.to_owned() });
            }
            match &log[from] {
                Reply::Failed { message } => error_query(
                    "Failed to calculate child order: ",
                    message.as_str(),
                ),
                Reply::Order { order } => {
                    data.insert("order".to_owned(), order.clone());
                    NodeService::relate_store(e, Value::Object(data), log, from + 1)
                },
                _ => Step::Mismatch,
            }
        } else {
            NodeService::relate_store(e, Value::Object(data), log, from)
        }
    }

    fn relate_store<'a>(e: &Edge<'a>, properties: Value, log: &Vec<Reply>, from: usize) -> (r: Step)
        requires
            from <= log@.len(),
        ensures
            r@ == relate_store_next(e@, properties@, replies_from(log@, from as int)),
    {
        if from >= log.len() {
            return Step::Ask(
                Request::Relate {
                    source: e.source.to_owned(),
                    target: e.target.to_owned(),
                    relationship: e.name.to_owned(),
                    properties,
                },
            );
        }
        match &log[from] {
            Reply::Failed { message } => error_query(
                "Failed to create relationship: ",
                message.as_str(),
            ),
            Reply::MaybeText { text: None } => Step::Finish(Outcome::Nothing),
            Reply::MaybeText { text: Some(id) } => {
                let event = NodeService::relationship_event(e, id, properties);
                NodeService::announce(event, log, from + 1)
            },
            _ => Step::Mismatch,
        }
    }
}

/// The source of a relationship exists, and a relationship that is not built in is defined in its
/// schema. What follows is `deletion` or the reading of the other ends.
pub open spec fn defined_next(
    source: Seq<char>,
    name: Seq<char>,
    follow: FollowUp,
    log: Seq<ReplyView>,
) -> StepView {
    if log.len() == 0 {
        StepView::Ask(RequestView::GetNode { id: source })
    } else {
        match log[0] {
            ReplyView::Refused { error } => StepView::Fail(error),
            ReplyView::Node { node: None } => StepView::Fail(ErrorView::NodeNotFound { id: source }),
            ReplyView::Node { node: Some(node) } => if is_builtin(name) {
                follow_up_next(source, name, follow, log.skip(1))
            } else {
                defined_schema_next(source, name, node.node_type, follow, log.skip(1))
            },
            _ => StepView::Mismatch,
        }
    }
}

/// What is done with a relationship once it is known to be defined.
#[verifier::ext_equal]
pub enum FollowUp {
    Delete(Seq<char>),
    ReadTargets,
}

pub open spec fn follow_up_next(
    source: Seq<char>,
    name: Seq<char>,
    follow: FollowUp,
    log: Seq<ReplyView>,
) -> StepView {
    match follow {
        FollowUp::Delete(target) => unrelate_find_next(source, name, target, log),
        FollowUp::ReadTargets => related_next(source, name, true, log),
    }
}

pub open spec fn defined_schema_next(
    source: Seq<char>,
    name: Seq<char>,
    schema: Seq<char>,
    follow: FollowUp,
    log: Seq<ReplyView>,
) -> StepView {
    if log.len() == 0 {
        StepView::Ask(RequestView::LoadRelationships { node_type: schema })
    } else {
        match log[0] {
            ReplyView::Refused { error } => StepView::Fail(error),
            ReplyView::Relationships { relationships: None } => StepView::Fail(
                schema_not_found(schema),
            ),
            ReplyView::Relationships { relationships: Some(defined) } => if defined_at(defined, name)
                < defined.len() {
                follow_up_next(source, name, follow, log.skip(1))
            } else {
                StepView::Fail(not_defined(name, schema))
            },
            _ => StepView::Mismatch,
        }
    }
}

pub open spec fn unrelate_find_next(
    source: Seq<char>,
    name: Seq<char>,
    target: Seq<char>,
    log: Seq<ReplyView>,
) -> StepView {
    if log.len() == 0 {
        StepView::Ask(RequestView::FindEdge { source, target, relationship: name })
    } else {
        match log[0] {
            ReplyView::Failed { message } => StepView::Fail(
                ErrorView::QueryFailed("Failed to get relationship ID: "@ + message),
            ),
            ReplyView::MaybeText { text } => unrelate_delete_next(
                source,
                name,
                target,
                text,
                log.skip(1),
            ),
            _ => StepView::Mismatch,
        }
    }
}

/// To delete an edge that is not there is no failure, and no event tells of it.
pub open spec fn unrelate_delete_next(
    source: Seq<char>,
    name: Seq<char>,
    target: Seq<char>,
    found: Option<Seq<char>>,
    log: Seq<ReplyView>,
) -> StepView {
    if log.len() == 0 {
        StepView::Ask(RequestView::DeleteEdge { source, target, relationship: name })
    } else {
        match log[0] {
            ReplyView::Failed { message } => StepView::Fail(
                ErrorView::QueryFailed("Failed to delete relationship: "@ + message),
            ),
            ReplyView::Done => match found {
                None => StepView::Finish(OutcomeView::Nothing),
                Some(id) => announce_next(
                    DomainEventView::RelationshipDeleted {
                        id,
                        from_id: source,
                        to_id: target,
                        relationship_type: name,
                    },
                    log.skip(1),
                ),
            },
            _ => StepView::Mismatch,
        }
    }
}

/// The nodes at the other ends of the edges, in the order of the edges. Those that are gone are left
/// out.
pub open spec fn related_next(
    id: Seq<char>,
    name: Seq<char>,
    outgoing: bool,
    log: Seq<ReplyView>,
) -> StepView {
    if log.len() == 0 {
        StepView::Ask(RequestView::LoadRelated { id, relationship: name, outgoing })
    } else {
        match log[0] {
            ReplyView::Failed { message } => StepView::Fail(
                ErrorView::QueryFailed("Failed to get related nodes: "@ + message),
            ),
            ReplyView::Garbled { message } => StepView::Fail(
                ErrorView::QueryFailed("Failed to parse related edges: "@ + message),
            ),
            ReplyView::Texts { items } => related_nodes_next(items, Seq::empty(), log.skip(1)),
            _ => StepView::Mismatch,
        }
    }
}

pub open spec fn related_nodes_next(
    ids: Seq<Seq<char>>,
    found: Seq<NodeView>,
    log: Seq<ReplyView>,
) -> StepView
    decreases ids.len(),
{
    if ids.len() == 0 {
        StepView::Finish(OutcomeView::Nodes { nodes: found })
    } else if log.len() == 0 {
        StepView::Ask(RequestView::GetNode { id: ids[0] })
    } else {
        match log[0] {
            ReplyView::Refused { error } => StepView::Fail(error),
            ReplyView::Node { node: Some(node) } => related_nodes_next(
                ids.skip(1),
                found.push(node),
                log.skip(1),
            ),
            ReplyView::Node { node: None } => related_nodes_next(ids.skip(1), found, log.skip(1)),
            _ => StepView::Mismatch,
        }
    }
}

pub open spec fn invalid_direction(direction: Seq<char>) -> ErrorView {
    ErrorView::InvalidUpdate("Invalid direction '"@ + direction + "', must be 'out' or 'in'"@)
}

/// The reading of related nodes: forward from a source, for which the relationship is defined, or
/// backward from a target.
pub open spec fn get_related_next(
    id: Seq<char>,
    name: Seq<char>,
    direction: Seq<char>,
    log: Seq<ReplyView>,
) -> StepView {
    if direction == "out"@ {
        defined_next(id, name, FollowUp::ReadTargets, log)
    } else if direction == "in"@ {
        related_next(id, name, false, log)
    } else {
        StepView::Fail(invalid_direction(direction))
    }
}

impl NodeService {
    /// Checks the source of a relationship. `Ok` says from which reply on the operation goes on.
    fn check_defined(source: &str, name: &str, log: &Vec<Reply>) -> (r: Result<usize, Step>)
        ensures
            forall|follow: FollowUp|
                match r {
                    Ok(from) => from <= log@.len() && #[trigger] defined_next(
                        source@,
                        name@,
                        follow,
                        replies(log@),
                    ) == follow_up_next(source@, name@, follow, replies_from(log@, from as int)),
                    Err(step) => #[trigger] defined_next(source@, name@, follow, replies(log@)) == step@,
                },
    {
        if log.len() == 0 {
            return Err(Step::Ask(Request::GetNode { id: source.to_owned() }));
        }
        let schema = match &log[0] {
            Reply::Refused { error } => {
                return Err(Step::Fail(error.clone()));
            },
            Reply::Node { node: None } => {
                return Err(Step::Fail(NodeServiceError::node_not_found(source)));
            },
            Reply::Node { node: Some(node) } => node.node_type.as_str(),
            _ => {
                return Err(Step::Mismatch);
            },
        };
        if check_builtin(name) {
            return Ok(1);
        }
        if log.len() == 1 {
            return Err(Step::Ask(Request::LoadRelationships { node_type: schema.to_owned() }));
        }
        match &log[1] {
            Reply::Refused { error } => Err(Step::Fail(error.clone())),
            Reply::Relationships { relationships: None } => Err(
                Step::Fail(error_schema_not_found(schema)),
            ),
            Reply::Relationships { relationships: Some(defined) } => {
                if find_defined(defined, name) < defined.len() {
                    Ok(2)
                } else {
                    Err(Step::Fail(error_not_defined(name, schema)))
                }
            },
            _ => Err(Step::Mismatch),
        }
    }

    /// Deletes a relationship between two nodes.
    pub fn delete_relationship(
        &self,
        source_id: &str,
        relationship_name: &str,
        target_id: &str,
        log: &Vec<Reply>,
    ) -> (r: Step)
        ensures
            r@ == defined_next(
                source_id@,
                relationship_name@,
                FollowUp::Delete(target_id@),
                replies(log@),
            ),
    {
        let ghost follow = FollowUp::Delete(target_id@);
        let ghost want = defined_next(source_id@, relationship_name@, follow, replies(log@));
        let from: usize = match NodeService::check_defined(source_id, relationship_name, log) {
            Ok(from) => from,
            Err(step) => {
                return step;
            },
        };
        if from >= log.len() {
            return Step::Ask(
                Request::FindEdge {
                    source: source_id.to_owned(),
                    target: target_id.to_owned(),
                    relationship: relationship_name.to_owned(),
                },
            );
        }
        let found = match &log[from] {
            Reply::Failed { message } => {
                return error_query("Failed to get relationship ID: ", message.as_str());
            },
            Reply::MaybeText { text } => text,
            _ => {
                return Step::Mismatch;
            },
        };
        if from + 1 >= log.len() {
            return Step::Ask(
                Request::DeleteEdge {
                    source: source_id.to_owned(),
                    target: target_id.to_owned(),
                    relationship: relationship_name.to_owned(),
                },
            );
        }
        match &log[from + 1] {
            Reply::Failed { message } => error_query(
                "Failed to delete relationship: ",
                message.as_str(),
            ),
            Reply::Done => match found {
                None => Step::Finish(Outcome::Nothing),
                Some(id) => {
                    let event = DomainEvent::RelationshipDeleted {
                        id: id.clone(),
                        from_id: source_id.to_owned(),
                        to_id: target_id.to_owned(),
                        relationship_type: relationship_name.to_owned(),
                    };
                    NodeService::announce(event, log, from + 2)
                },
            },
            _ => Step::Mismatch,
        }
    }

    /// Gets the nodes that a relationship links with a node: with direction `out` those that it
    /// points to, with `in` those that point to it.
    pub fn get_related_nodes(
        &self,
        node_id: &str,
        relationship_name: &str,
        direction: &str,
        log: &Vec<Reply>,
    ) -> (r: Step)
        ensures
            r@ == get_related_next(node_id@, relationship_name@, direction@, replies(log@)),
    {
        if same_text(direction, "out") {
            let ghost want = defined_next(
                node_id@,
                relationship_name@,
                FollowUp::ReadTargets,
                replies(log@),
            );
            match NodeService::check_defined(node_id, relationship_name, log) {
                Ok(from) => NodeService::read_related(node_id, relationship_name, true, log, from),
                Err(step) => step,
            }
        } else if same_text(direction, "in") {
            NodeService::read_related(node_id, relationship_name, false, log, 0)
        } else {
            let mut m = "Invalid direction '".to_owned();
            m.append(direction);
            m.append("', must be 'out' or 'in'");
            Step::Fail(NodeServiceError::InvalidUpdate(m))
        }
    }

    fn read_related(id: &str, name: &str, outgoing: bool, log: &Vec<Reply>, from: usize) -> (r: Step)
        requires
            from <= log@.len(),
        ensures
            r@ == related_next(id@, name@, outgoing, replies_from(log@, from as int)),
    {
        if from >= log.len() {
            return Step::Ask(
                Request::LoadRelated {
                    id: id.to_owned(),
                    relationship: name.to_owned(),
                    outgoing,
                },
            );
        }
        let ids = match &log[from] {
            Reply::Failed { message } => {
                return error_query("Failed to get related nodes: ", message.as_str());
            },
            Reply::Garbled { message } => {
                return error_query("Failed to parse related edges: ", message.as_str());
            },
            Reply::Texts { items } => items,
            _ => {
                return Step::Mismatch;
            },
        };
        let ghost want = related_next(id@, name@, outgoing, replies_from(log@, from as int));
        let ghost all = texts(ids@);
        let mut nodes: Vec<Node> = Vec::new();
        proof {
            assert(node_views(nodes@) =~= Seq::empty());
            assert(all.skip(0) =~= all);
        }
        let mut at: usize = from + 1;
        let mut i: usize = 0;
        while i < ids.len()
            invariant
                i <= ids@.len() == all.len(),
                at <= log@.len(),
                want == related_nodes_next(
                    all.skip(i as int),
                    node_views(nodes@),
                    replies_from(log@, at as int),
                ),
            decreases ids@.len() - i,
        {
            let ghost left = all.skip(i as int);
            proof {
                assert(left[0] == ids@[i as int]@);
                assert(left.skip(1) =~= all.skip(i + 1));
            }
            if at >= log.len() {
                return Step::Ask(Request::GetNode { id: ids[i].clone() });
            }
            match &log[at] {
                Reply::Refused { error } => {
                    return Step::Fail(error.clone());
                },
                Reply::Node { node: Some(node) } => {
                    let ghost before = node_views(nodes@);
                    nodes.push(node.clone());
                    proof {
                        assert(node_views(nodes@) =~= before.push(node@));
                    }
                },
                Reply::Node { node: None } => {},
                _ => {
                    return Step::Mismatch;
                },
            }
            at += 1;
            i += 1;
        }
        Step::Finish(Outcome::Nodes { nodes })
    }
}

/// The check whether a node is complete. A type without a schema requires nothing.
pub open spec fn completeness_next(id: Seq<char>, log: Seq<ReplyView>) -> StepView {
    if log.len() == 0 {
        StepView::Ask(RequestView::GetNode { id })
    } else {
        match log[0] {
            ReplyView::Refused { error } => StepView::Fail(error),
            ReplyView::Node { node: None } => StepView::Fail(ErrorView::NodeNotFound { id }),
            ReplyView::Node { node: Some(node) } => completeness_schema_next(
                id,
                node.node_type,
                log.skip(1),
            ),
            _ => StepView::Mismatch,
        }
    }
}

pub open spec fn completeness_schema_next(
    id: Seq<char>,
    node_type: Seq<char>,
    log: Seq<ReplyView>,
) -> StepView {
    if log.len() == 0 {
        StepView::Ask(RequestView::LoadSchemaRelationships { node_type })
    } else {
        match log[0] {
            ReplyView::Refused { error } => StepView::Fail(error),
            ReplyView::Relationships { relationships: None } => completeness(id, Seq::empty()),
            ReplyView::Relationships { relationships: Some(defined) } => completeness_edges_next(
                id,
                defined,
                Seq::empty(),
                log.skip(1),
            ),
            _ => StepView::Mismatch,
        }
    }
}

pub open spec fn completeness(id: Seq<char>, missing: Seq<Seq<char>>) -> StepView {
    StepView::Finish(
        OutcomeView::Completeness {
            result: CompletenessResultView {
                node_id: id,
                is_complete: missing.len() == 0,
                missing_relationships: missing,
            },
        },
    )
}

/// A required relationship without an edge is missing; one that is not required never is.
pub open spec fn completeness_edges_next(
    id: Seq<char>,
    defined: Seq<SchemaRelationshipView>,
    missing: Seq<Seq<char>>,
    log: Seq<ReplyView>,
) -> StepView
    decreases defined.len(),
{
    if defined.len() == 0 {
        completeness(id, missing)
    } else if defined[0].required != Some(true) {
        completeness_edges_next(id, defined.skip(1), missing, log)
    } else if log.len() == 0 {
        StepView::Ask(RequestView::HasEdge { source: id, relationship: defined[0].name })
    } else {
        match log[0] {
            ReplyView::Failed { message } => StepView::Fail(
                ErrorView::QueryFailed(
                    "Failed to check required relationship '"@ + defined[0].name + "': "@ + message,
                ),
            ),
            ReplyView::Garbled { message } => StepView::Fail(
                ErrorView::QueryFailed(
                    "Failed to parse relationship check for '"@ + defined[0].name + "': "@ + message,
                ),
            ),
            ReplyView::Flag { value } => completeness_edges_next(
                id,
                defined.skip(1),
                if value {
                    missing
                } else {
                    missing.push(defined[0].name)
                },
                log.skip(1),
            ),
            _ => StepView::Mismatch,
        }
    }
}

impl NodeService {
    /// Checks whether a node has all the relationships that its schema requires.
    pub fn check_node_completeness(&self, node_id: &str, log: &Vec<Reply>) -> (r: Step)
        ensures
            r@ == completeness_next(node_id@, replies(log@)),
    {
        if log.len() == 0 {
            return Step::Ask(Request::GetNode { id: node_id.to_owned() });
        }
        let node = match &log[0] {
            Reply::Refused { error } => {
                return Step::Fail(error.clone());
            },
            Reply::Node { node: None } => {
                return Step::Fail(NodeServiceError::node_not_found(node_id));
            },
            Reply::Node { node: Some(node) } => node,
            _ => {
                return Step::Mismatch;
            },
        };
        if log.len() == 1 {
            return Step::Ask(
                Request::LoadSchemaRelationships { node_type: node.node_type.clone() },
            );
        }
        let mut missing: Vec<String> = Vec::new();
        proof {
            assert(texts(missing@) =~= Seq::empty());
        }
        let defined = match &log[1] {
            Reply::Refused { error } => {
                return Step::Fail(error.clone());
            },
            Reply::Relationships { relationships: None } => {
                return NodeService::complete(node_id, missing);
            },
            Reply::Relationships { relationships: Some(defined) } => defined,
            _ => {
                return Step::Mismatch;
            },
        };
        let ghost want = completeness_next(node_id@, replies(log@));
        let ghost all = relationship_views(defined@);
        proof {
            assert(all.skip(0) =~= all);
        }
        let mut at: usize = 2;
        let mut i: usize = 0;
        while i < defined.len()
            invariant
                i <= defined@.len() == all.len(),
                at <= log@.len(),
                want == completeness_edges_next(
                    node_id@,
                    all.skip(i as int),
                    texts(missing@),
                    replies_from(log@, at as int),
                ),
            decreases defined@.len() - i,
        {
            let ghost left = all.skip(i as int);
            proof {
                assert(left[0] == defined@[i as int]@);
                assert(left.skip(1) =~= all.skip(i + 1));
            }
            let required = match defined[i].required {
                Some(b) => b,
                None => false,
            };
            if required {
                if at >= log.len() {
                    return Step::Ask(
                        Request::HasEdge {
                            source: node_id.to_owned(),
                            relationship: defined[i].name.clone(),
                        },
                    );
                }
                match &log[at] {
                    Reply::Failed { message } => {
                        let mut m = "Failed to check required relationship '".to_owned();
                        m.append(defined[i].name.as_str());
                        m.append("': ");
                        m.append(message.as_str());
                        return Step::Fail(NodeServiceError::QueryFailed(m));
                    },
                    Reply::Garbled { message } => {
                        let mut m = "Failed to parse relationship check for '".to_owned();
                        m.append(defined[i].name.as_str());
                        m.append("': ");
                        m.append(message.as_str());
                        return Step::Fail(NodeServiceError::QueryFailed(m));
                    },
                    Reply::Flag { value } => {
                        if !*value {
                            let ghost before = texts(missing@);
                            missing.push(defined[i].name.clone());
                            proof {
                                assert(texts(missing@) =~= before.push(defined@[i as int].name@));
                            }
                        }
                    },
                    _ => {
                        return Step::Mismatch;
                    },
                }
                at += 1;
            }
            i += 1;
        }
        NodeService::complete(node_id, missing)
    }

    fn complete(node_id: &str, missing: Vec<String>) -> (r: Step)
        ensures
            r@ == completeness(node_id@, texts(missing@)),
    {
        Step::Finish(
            Outcome::Completeness {
                result: CompletenessResult {
                    node_id: node_id.to_owned(),
                    is_complete: missing.len() == 0,
                    missing_relationships: missing,
                },
            },
        )
    }
}

/// A schema with the relationships that it defines.
#[derive(Debug)]
pub struct SchemaSummary {
    pub id: String,
    pub relationships: Vec<SchemaRelationship>,
}

#[verifier::ext_equal]
pub struct SchemaSummaryView {
    pub id: Seq<char>,
    pub relationships: Seq<SchemaRelationshipView>,
}

impl View for SchemaSummary {
    type V = SchemaSummaryView;

    open spec fn view(&self) -> SchemaSummaryView {
        SchemaSummaryView {
            id: self.id@,
            relationships: relationship_views(self.relationships@),
        }
    }
}

pub open spec fn summaries(schemas: Seq<SchemaSummary>) -> Seq<SchemaSummaryView> {
    schemas.map_values(|s: SchemaSummary| s@)
}

/// The relationship may point to nodes of the type.
pub open spec fn may_target(relationship: SchemaRelationshipView, node_type: Seq<char>) -> bool {
    relationship.target_type is None || relationship.target_type == Some(node_type)
}

/// The relationships of one schema that may point to nodes of a type.
pub open spec fn inbound_of(
    id: Seq<char>,
    relationships: Seq<SchemaRelationshipView>,
    node_type: Seq<char>,
) -> Seq<(Seq<char>, SchemaRelationshipView)>
    decreases relationships.len(),
{
    if relationships.len() == 0 {
        Seq::empty()
    } else {
        let front = inbound_of(id, relationships.drop_last(), node_type);
        if may_target(relationships.last(), node_type) {
            front.push((id, relationships.last()))
        } else {
            front
        }
    }
}

/// The relationships of all schemas that may point to nodes of a type.
pub open spec fn inbound(
    schemas: Seq<SchemaSummaryView>,
    node_type: Seq<char>,
) -> Seq<(Seq<char>, SchemaRelationshipView)>
    decreases schemas.len(),
{
    if schemas.len() == 0 {
        Seq::empty()
    } else {
        inbound(schemas.drop_last(), node_type) + inbound_of(
            schemas.last().id,
            schemas.last().relationships,
            node_type,
        )
    }
}

/// The edges that one schema adds to the graph of types.
pub open spec fn graph_of(
    id: Seq<char>,
    relationships: Seq<SchemaRelationshipView>,
) -> Seq<(Seq<char>, Seq<char>, Option<Seq<char>>)> {
    relationships.map_values(|r: SchemaRelationshipView| (id, r.name, r.target_type))
}

/// The graph of types: who points to whom by which relationship.
pub open spec fn type_graph(schemas: Seq<SchemaSummaryView>) -> Seq<
    (Seq<char>, Seq<char>, Option<Seq<char>>),
>
    decreases schemas.len(),
{
    if schemas.len() == 0 {
        Seq::empty()
    } else {
        type_graph(schemas.drop_last()) + graph_of(schemas.last().id, schemas.last().relationships)
    }
}

pub open spec fn inbound_views(items: Seq<(String, SchemaRelationship)>) -> Seq<
    (Seq<char>, SchemaRelationshipView),
> {
    items.map_values(|p: (String, SchemaRelationship)| (p.0@, p.1@))
}

pub open spec fn graph_views(items: Seq<(String, String, Option<String>)>) -> Seq<
    (Seq<char>, Seq<char>, Option<Seq<char>>),
> {
    items.map_values(|p: (String, String, Option<String>)| (p.0@, p.1@, optional_text(p.2)))
}

impl NodeService {
    /// The relationships that may point to nodes of a type, each with the schema that defines it.
    pub fn get_inbound_relationships(target_type: &str, schemas: &Vec<SchemaSummary>) -> (r: Vec<
        (String, SchemaRelationship),
    >)
        ensures
            inbound_views(r@) == inbound(summaries(schemas@), target_type@),
    {
        let ghost all = summaries(schemas@);
        let mut out: Vec<(String, SchemaRelationship)> = Vec::new();
        proof {
            assert(inbound_views(out@) =~= Seq::empty());
        }
        let mut i: usize = 0;
        while i < schemas.len()
            invariant
                i <= schemas@.len() == all.len(),
                inbound_views(out@) == inbound(all.take(i as int), target_type@),
            decreases schemas@.len() - i,
        {
            let ghost before = inbound_views(out@);
            let ghost one = relationship_views(schemas@[i as int].relationships@);
            let ghost id = schemas@[i as int].id@;
            let mut k: usize = 0;
            proof {
                assert(one.take(0) =~= Seq::empty());
                assert(before + inbound_of(id, one.take(0), target_type@) =~= before);
            }
            while k < schemas[i as usize].relationships.len()
                invariant
                    i < schemas@.len(),
                    k <= one.len(),
                    one.len() == schemas@[i as int].relationships@.len(),
                    one == relationship_views(schemas@[i as int].relationships@),
                    inbound_views(out@) == before + inbound_of(id, one.take(k as int), target_type@),
                decreases one.len() - k,
            {
                let relationship = &schemas[i].relationships[k];
                proof {
                    assert(one.take(k + 1).drop_last() =~= one.take(k as int));
                    assert(one.take(k + 1).last() == relationship@);
                }
                let fits = match &relationship.target_type {
                    Some(t) => same_text(t.as_str(), target_type),
                    None => true,
                };
                if fits {
                    let ghost earlier = inbound_views(out@);
                    out.push((schemas[i].id.clone(), relationship.clone()));
                    proof {
                        assert(inbound_views(out@) =~= earlier.push((id, relationship@)));
                        assert(before + inbound_of(id, one.take(k as int), target_type@).push(
                            (id, relationship@),
                        ) =~= (before + inbound_of(id, one.take(k as int), target_type@)).push(
                            (id, relationship@),
                        ));
                    }
                }
                k += 1;
            }
            proof {
                assert(one.take(one.len() as int) =~= one);
                assert(all.take(i + 1).drop_last() =~= all.take(i as int));
                assert(all.take(i + 1).last() == schemas@[i as int]@);
            }
            i += 1;
        }
        proof {
            assert(all.take(all.len() as int) =~= all);
        }
        out
    }

    /// The graph of types: source type, relationship and target type of every relationship.
    pub fn get_relationship_graph(schemas: &Vec<SchemaSummary>) -> (r: Vec<
        (String, String, Option<String>),
    >)
        ensures
            graph_views(r@) == type_graph(summaries(schemas@)),
    {
        let ghost all = summaries(schemas@);
        let mut out: Vec<(String, String, Option<String>)> = Vec::new();
        proof {
            assert(graph_views(out@) =~= Seq::empty());
        }
        let mut i: usize = 0;
        while i < schemas.len()
            invariant
                i <= schemas@.len() == all.len(),
                graph_views(out@) == type_graph(all.take(i as int)),
            decreases schemas@.len() - i,
        {
            let ghost before = graph_views(out@);
            let ghost one = relationship_views(schemas@[i as int].relationships@);
            let ghost id = schemas@[i as int].id@;
            let ghost edges = graph_of(id, one);
            let mut k: usize = 0;
            proof {
                assert(before + edges.take(0) =~= before);
            }
            while k < schemas[i as usize].relationships.len()
                invariant
                    i < schemas@.len(),
                    k <= one.len() == edges.len(),
                    one.len() == schemas@[i as int].relationships@.len(),
                    edges == graph_of(id, one),
                    one == relationship_views(schemas@[i as int].relationships@),
                    graph_views(out@) == before + edges.take(k as int),
                decreases one.len() - k,
            {
                let relationship = &schemas[i].relationships[k];
                let ghost earlier = graph_views(out@);
                let entry = (
                    schemas[i].id.clone(),
                    relationship.name.clone(),
                    clone_optional(&relationship.target_type),
                );
                proof {
                    assert(one[k as int] == relationship@);
                    assert((entry.0@, entry.1@, optional_text(entry.2)) == edges[k as int]);
                    assert(edges.take(k + 1) =~= edges.take(k as int).push(edges[k as int]));
                    assert(before + edges.take(k + 1) =~= (before + edges.take(k as int)).push(
                        edges[k as int],
                    ));
                }
                out.push(entry);
                proof {
                    assert(graph_views(out@) =~= earlier.push(edges[k as int]));
                }
                k += 1;
            }
            proof {
                assert(edges.take(edges.len() as int) =~= edges);
                assert(all.take(i + 1).drop_last() =~= all.take(i as int));
                assert(all.take(i + 1).last() == schemas@[i as int]@);
            }
            i += 1;
        }
        proof {
            assert(all.take(all.len() as int) =~= all);
        }
        out
    }
}

/// Creating an edge that exists succeeds and stores nothing. Whether it exists is found out before
/// anything is stored, or by the store itself where a member gets no order.
pub proof fn law_creating_an_edge_twice_is_harmless(e: EdgeView, id: Seq<char>, log: Seq<ReplyView>)
    ensures
        relate_check_next(e, seq![ReplyView::MaybeText { text: Some(id) }] + log)
            == StepView::Finish(OutcomeView::Nothing),
        relate_member_next(e, seq![ReplyView::MaybeText { text: None }] + log) == StepView::Finish(
            OutcomeView::Nothing,
        ),
        relate_check_next(e, Seq::empty()) == StepView::Ask(
            RequestView::FindEdge { source: e.source, target: e.target, relationship: e.name },
        ),
        relate_member_next(e, Seq::empty()) == StepView::Ask(
            RequestView::AddToCollection { source: e.source, target: e.target },
        ),
{
}

/// Both nodes of an edge that is stored exist, and only collections have members.
pub proof fn law_builtin_edges_are_checked(e: EdgeView, log: Seq<ReplyView>)
    requires
        is_builtin(e.name),
        relate_next(e, log) matches StepView::Ask(request) && (request is Relate
            || request is AddToCollection),
    ensures
        log[0] matches ReplyView::Node { node: Some(_) },
        log[1] matches ReplyView::Node { node: Some(target) } && (e.name == "member_of"@
            ==> target.node_type == "collection"@),
{
}

/// An edge of a relationship that schemas define is stored only if the schema of the source defines
/// it, the target is of the right type, and a relationship for one edge has none yet.
pub proof fn law_defined_edges_are_checked(e: EdgeView, log: Seq<ReplyView>)
    requires
        !is_builtin(e.name),
        relate_next(e, log) matches StepView::Ask(RequestView::Relate {
            source: _,
            target: _,
            relationship: _,
            properties: _,
        }),
    ensures
        log[0] matches ReplyView::Node { node: Some(_) },
        log[1] matches ReplyView::Relationships { relationships: Some(defined) } && defined_at(
            defined,
            e.name,
        ) < defined.len() && (log[2] matches ReplyView::Node { node: Some(target) } && may_target(
            defined[defined_at(defined, e.name)],
            target.node_type,
        )) && (defined[defined_at(defined, e.name)].cardinality == RelationshipCardinality::One
            ==> log[3] == (ReplyView::Flag { value: false })),
{
}

/// A child edge is stored with an order.
pub proof fn law_children_have_an_order(e: EdgeView, properties: Json, log: Seq<ReplyView>)
    requires
        e.name == "has_child"@,
        relate_data_next(e, log) == StepView::Ask(
            RequestView::Relate {
                source: e.source,
                target: e.target,
                relationship: e.name,
                properties,
            },
        ),
    ensures
        properties.member("order"@) is Some,
{
}

/// One of the relationships has the name and is required.
pub open spec fn requires_name(defined: Seq<SchemaRelationshipView>, name: Seq<char>) -> bool {
    exists|k: int|
        0 <= k < defined.len() && (#[trigger] defined[k]).required == Some(true) && defined[k].name
            == name
}

/// A node is complete exactly if nothing is missing, and only what is required can be missing.
pub proof fn law_completeness(
    id: Seq<char>,
    defined: Seq<SchemaRelationshipView>,
    missing: Seq<Seq<char>>,
    result: CompletenessResultView,
    log: Seq<ReplyView>,
)
    requires
        completeness_edges_next(id, defined, missing, log) == StepView::Finish(
            OutcomeView::Completeness { result },
        ),
    ensures
        result.node_id == id,
        result.is_complete <==> result.missing_relationships.len() == 0,
        missing.is_prefix_of(result.missing_relationships),
        forall|i: int|
            missing.len() <= i < result.missing_relationships.len() ==> requires_name(
                defined,
                #[trigger] result.missing_relationships[i],
            ),
    decreases defined.len(),
{
    if defined.len() > 0 {
        let rest = defined.skip(1);
        let (more, left) = if defined[0].required != Some(true) {
            (missing, log)
        } else {
            (
                if log[0] == (ReplyView::Flag { value: true }) {
                    missing
                } else {
                    missing.push(defined[0].name)
                },
                log.skip(1),
            )
        };
        law_completeness(id, rest, more, result, left);
        assert forall|i: int|
            missing.len() <= i < result.missing_relationships.len() implies requires_name(
            defined,
            #[trigger] result.missing_relationships[i],
        ) by {
            if i < more.len() {
                assert(result.missing_relationships[i] == more[i]);
                assert(defined[0].name == result.missing_relationships[i]);
            } else {
                let k = choose|k: int|
                    0 <= k < rest.len() && (#[trigger] rest[k]).required == Some(true)
                        && rest[k].name == result.missing_relationships[i];
                assert(defined[k + 1] == rest[k]);
            }
        }
    }
}

} // verus!
