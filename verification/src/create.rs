//! Creating nodes.

use crate::error::{ErrorView, NodeServiceError};
use crate::hierarchy::{optional_str, own};
use crate::ids::{
    calendar_date, is_date_node_id, lower_uuid, new_uuid, normalize_schema_id, parses_as_uuid,
    schema_id, uuid_text,
};
use crate::json::{Json, Value};
use crate::node::{
    clone_optional, fields_view, optional_text, Node, NodeView, SchemaField, SchemaFieldView,
};
use crate::properties::{field_names, namespace_not_an_object, namespaced, properties_with_defaults};
use crate::protocol::{
    group_replies, replies, replies_from, Outcome, OutcomeView, Reply, ReplyView, Request,
    RequestView, Step, StepView,
};
use crate::reading::{date_node, make_date_node, make_node, plain_node};
use crate::schema::{first_error, integer, note_version, with_version};
use crate::service::NodeService;
use crate::text::{same_text, text_starts_with};
use vstd::prelude::*;
use vstd::string::*;

verus! {

broadcast use group_replies;

/// What a new node is to be.
#[derive(Debug)]
pub struct CreateNodeParams {
    /// The identifier; if there is none, one is derived from the type and the content.
    pub id: Option<String>,
    pub node_type: String,
    pub content: String,
    pub parent_id: Option<String>,
    /// The sibling after which the node comes; without one it comes first.
    pub insert_after_node_id: Option<String>,
    pub properties: Value,
}

/// The mathematical value of [`CreateNodeParams`].
#[verifier::ext_equal]
pub struct CreateNodeParamsView {
    pub id: Option<Seq<char>>,
    pub node_type: Seq<char>,
    pub content: Seq<char>,
    pub parent_id: Option<Seq<char>>,
    pub insert_after_node_id: Option<Seq<char>>,
    pub properties: Json,
}

impl View for CreateNodeParams {
    type V = CreateNodeParamsView;

    open spec fn view(&self) -> CreateNodeParamsView {
        CreateNodeParamsView {
            id: optional_text(self.id),
            node_type: self.node_type@,
            content: self.content@,
            parent_id: optional_text(self.parent_id),
            insert_after_node_id: optional_text(self.insert_after_node_id),
            properties: self.properties@,
        }
    }
}

/// The date of an identifier exists as a node, or is made.
pub open spec fn ensure_date_next(id: Seq<char>, now: i64, log: Seq<ReplyView>) -> StepView {
    if !calendar_date(id) {
        StepView::Finish(OutcomeView::Nothing)
    } else if log.len() == 0 {
        StepView::Ask(RequestView::LoadNode { id })
    } else {
        match log[0] {
            ReplyView::Failed { message } => StepView::Fail(
                ErrorView::QueryFailed("Database error: "@ + message),
            ),
            ReplyView::Node { node: Some(_) } => StepView::Finish(OutcomeView::Nothing),
            ReplyView::Node { node: None } => ensure_date_create_next(id, now, log.skip(1)),
            _ => StepView::Mismatch,
        }
    }
}

pub open spec fn ensure_date_create_next(id: Seq<char>, now: i64, log: Seq<ReplyView>) -> StepView {
    if log.len() == 0 {
        StepView::Ask(RequestView::CreateNode { node: date_node(id, now) })
    } else {
        match log[0] {
            ReplyView::Refused { error } => StepView::Fail(error),
            ReplyView::Text { text: _ } => StepView::Finish(OutcomeView::Nothing),
            _ => StepView::Mismatch,
        }
    }
}

pub open spec fn titled(title: Option<Seq<char>>) -> StepView {
    StepView::Finish(OutcomeView::Title { title })
}

/// The properties that a title template of a type is filled with.
pub open spec fn template_properties(node: NodeView) -> Json {
    match node.properties.member(node.node_type) {
        Some(ns) => ns,
        None => node.properties,
    }
}

/// The title of a node: none for dates and schemas, the template of its schema filled in where there
/// is one, the content of a task or a collection, and otherwise the content of a root.
pub open spec fn title_next(node: NodeView, is_root: Option<bool>, log: Seq<ReplyView>) -> StepView {
    if node.node_type == "date"@ || node.node_type == "schema"@ {
        titled(None)
    } else if log.len() == 0 {
        StepView::Ask(RequestView::LoadTitleTemplate { node_type: node.node_type })
    } else {
        match log[0] {
            ReplyView::MaybeText { text: Some(template) } => title_template_next(
                node,
                template,
                log.skip(1),
            ),
            ReplyView::MaybeText { text: None } | ReplyView::Refused { error: _ } =>
                title_content_next(node, is_root, log.skip(1)),
            _ => StepView::Mismatch,
        }
    }
}

pub open spec fn title_template_next(
    node: NodeView,
    template: Seq<char>,
    log: Seq<ReplyView>,
) -> StepView {
    if log.len() == 0 {
        StepView::Ask(
            RequestView::InterpolateTitle {
                template,
                properties: template_properties(node),
                node_type: node.node_type,
            },
        )
    } else {
        match log[0] {
            ReplyView::Text { text } => titled(Some(text)),
            _ => StepView::Mismatch,
        }
    }
}

pub open spec fn title_content_next(
    node: NodeView,
    is_root: Option<bool>,
    log: Seq<ReplyView>,
) -> StepView {
    if node.node_type == "task"@ || node.node_type == "collection"@ {
        title_strip_next(node.content, log)
    } else {
        match is_root {
            Some(true) => title_strip_next(node.content, log),
            Some(false) => titled(None),
            None => if log.len() == 0 {
                StepView::Ask(RequestView::LoadParentId { id: node.id })
            } else {
                match log[0] {
                    ReplyView::Failed { message } => StepView::Fail(ErrorView::QueryFailed(message)),
                    ReplyView::MaybeText { text: None } => title_strip_next(
                        node.content,
                        log.skip(1),
                    ),
                    ReplyView::MaybeText { text: Some(_) } => titled(None),
                    _ => StepView::Mismatch,
                }
            },
        }
    }
}

pub open spec fn title_strip_next(content: Seq<char>, log: Seq<ReplyView>) -> StepView {
    if log.len() == 0 {
        StepView::Ask(RequestView::StripMarkdown { content })
    } else {
        match log[0] {
            ReplyView::Text { text } => titled(Some(text)),
            _ => StepView::Mismatch,
        }
    }
}

impl NodeService {
    /// A new random identifier.
    pub fn new_node_id() -> (r: String)
        ensures
            lower_uuid(r@),
    {
        new_uuid()
    }

    /// Makes sure that the node of a date exists. Of any other identifier nothing is made sure.
    pub fn ensure_date_exists(&self, node_id: &str, now: i64, log: &Vec<Reply>) -> (r: Step)
        ensures
            r@ == ensure_date_next(node_id@, now, replies(log@)),
    {
        if !is_date_node_id(node_id) {
            return Step::Finish(Outcome::Nothing);
        }
        if log.len() == 0 {
            return Step::Ask(Request::LoadNode { id: node_id.to_owned() });
        }
        match &log[0] {
            Reply::Failed { message } => {
                let mut text = "Database error: ".to_owned();
                text.append(message.as_str());
                return Step::Fail(NodeServiceError::QueryFailed(text));
            },
            Reply::Node { node: Some(_) } => {
                return Step::Finish(Outcome::Nothing);
            },
            Reply::Node { node: None } => {},
            _ => {
                return Step::Mismatch;
            },
        }
        if log.len() == 1 {
            return Step::Ask(Request::CreateNode { node: make_date_node(node_id, now) });
        }
        match &log[1] {
            Reply::Refused { error } => Step::Fail(error.clone()),
            Reply::Text { text: _ } => Step::Finish(Outcome::Nothing),
            _ => Step::Mismatch,
        }
    }

    /// Computes the title under which a node is found. Where `is_root` is not given, the store is
    /// asked if that matters.
    pub fn compute_title(&self, node: &Node, is_root: Option<bool>, log: &Vec<Reply>) -> (r: Step)
        ensures
            r@ == title_next(node@, is_root, replies(log@)),
    {
        if same_text(node.node_type.as_str(), "date") || same_text(node.node_type.as_str(), "schema") {
            return Step::Finish(Outcome::Title { title: None });
        }
        if log.len() == 0 {
            return Step::Ask(Request::LoadTitleTemplate { node_type: node.node_type.clone() });
        }
        match &log[0] {
            Reply::MaybeText { text: Some(template) } => {
                if log.len() == 1 {
                    let properties = match node.properties.get(node.node_type.as_str()) {
                        Some(ns) => ns.clone(),
                        None => node.properties.clone(),
                    };
                    return Step::Ask(
                        Request::InterpolateTitle {
                            template: template.clone(),
                            properties,
                            node_type: node.node_type.clone(),
                        },
                    );
                }
                match &log[1] {
                    Reply::Text { text } => Step::Finish(Outcome::Title { title: Some(text.clone()) }),
                    _ => Step::Mismatch,
                }
            },
            Reply::MaybeText { text: None } => NodeService::title_from_content(node, is_root, log, 1),
            Reply::Refused { error: _ } => NodeService::title_from_content(node, is_root, log, 1),
            _ => Step::Mismatch,
        }
    }

    fn title_from_content(node: &Node, is_root: Option<bool>, log: &Vec<Reply>, from: usize) -> (r: Step)
        requires
            from <= log@.len(),
        ensures
            r@ == title_content_next(node@, is_root, replies_from(log@, from as int)),
    {
        if same_text(node.node_type.as_str(), "task") || same_text(
            node.node_type.as_str(),
            "collection",
        ) {
            return NodeService::strip_title(node.content.as_str(), log, from);
        }
        match is_root {
            Some(root) => {
                if root {
                    NodeService::strip_title(node.content.as_str(), log, from)
                } else {
                    Step::Finish(Outcome::Title { title: None })
                }
            },
            None => {
                if from >= log.len() {
                    return Step::Ask(Request::LoadParentId { id: node.id.clone() });
                }
                match &log[from] {
                    Reply::Failed { message } => Step::Fail(
                        NodeServiceError::QueryFailed(message.clone()),
                    ),
                    Reply::MaybeText { text: None } => NodeService::strip_title(
                        node.content.as_str(),
                        log,
                        from + 1,
                    ),
                    Reply::MaybeText { text: Some(_) } => Step::Finish(Outcome::Title { title: None }),
                    _ => Step::Mismatch,
                }
            },
        }
    }

    fn strip_title(content: &str, log: &Vec<Reply>, from: usize) -> (r: Step)
        requires
            from <= log@.len(),
        ensures
            r@ == title_strip_next(content@, replies_from(log@, from as int)),
    {
        if from >= log.len() {
            return Step::Ask(Request::StripMarkdown { content: content.to_owned() });
        }
        match &log[from] {
            Reply::Text { text } => Step::Finish(Outcome::Title { title: Some(text.clone()) }),
            _ => Step::Mismatch,
        }
    }
}

/// A node whose identifier is a date is a date node, whatever the caller said.
pub open spec fn with_date_type(node: NodeView) -> NodeView {
    if calendar_date(node.id) {
        NodeView { node_type: "date"@, ..node }
    } else {
        node
    }
}

/// A task as it is stored: its properties in storage form, with defaults filled in, checked, and
/// with the version that its schema states noted.
pub open spec fn prepared_task(
    node: NodeView,
    schema: Json,
    fields: Seq<SchemaFieldView>,
) -> Result<NodeView, ErrorView> {
    let spaced = namespaced(node.node_type, node.properties, field_names(Some(fields)));
    match properties_with_defaults(node.node_type, spaced, fields) {
        None => Err(ErrorView::InvalidUpdate(namespace_not_an_object(node.node_type))),
        Some(filled) => {
            let full = NodeView { properties: filled, ..node };
            match first_error(full, fields) {
                Some(message) => Err(ErrorView::InvalidUpdate(message)),
                None => Ok(
                    match schema.member("version"@) {
                        Some(Json::Number(n)) if fields.len() > 0 && n.i64_of() is Some => NodeView {
                            properties: with_version(
                                node.node_type,
                                filled,
                                integer(n.i64_of()->0),
                            ),
                            ..full
                        },
                        _ => full,
                    },
                ),
            }
        },
    }
}

/// The creation of a node. Nothing is stored before all checks have passed.
pub open spec fn create_next(node: NodeView, log: Seq<ReplyView>) -> StepView {
    let dated = with_date_type(node);
    if log.len() == 0 {
        StepView::Ask(RequestView::ValidateBehavior { node: dated })
    } else {
        match log[0] {
            ReplyView::Refused { error } => StepView::Fail(error),
            ReplyView::Done => create_prepare_next(dated, log.skip(1)),
            _ => StepView::Mismatch,
        }
    }
}

pub open spec fn create_prepare_next(node: NodeView, log: Seq<ReplyView>) -> StepView {
    if node.node_type == "task"@ {
        if log.len() == 0 {
            StepView::Ask(RequestView::LoadSchema { node_type: node.node_type })
        } else {
            match log[0] {
                ReplyView::Failed { message } => StepView::Fail(ErrorView::QueryFailed(message)),
                ReplyView::Schema { schema: Some(schema), fields: Some(fields) } => match prepared_task(
                    node,
                    schema,
                    fields,
                ) {
                    Ok(prepared) => create_title_next(prepared, log.skip(1)),
                    Err(error) => StepView::Fail(error),
                },
                ReplyView::Schema { schema: _, fields: _ } => create_title_next(node, log.skip(1)),
                _ => StepView::Mismatch,
            }
        }
    } else if node.node_type == "schema"@ {
        create_title_next(node, log)
    } else {
        create_title_next(
            NodeView {
                properties: namespaced(node.node_type, node.properties, Set::empty()),
                ..node
            },
            log,
        )
    }
}

pub open spec fn create_title_next(node: NodeView, log: Seq<ReplyView>) -> StepView {
    if node.title is Some {
        create_playbook_next(node, log)
    } else if log.len() == 0 {
        StepView::Ask(RequestView::ComputeTitle { node, is_root: None })
    } else {
        match log[0] {
            ReplyView::Refused { error } => StepView::Fail(error),
            ReplyView::MaybeText { text } => create_playbook_next(
                NodeView { title: text, ..node },
                log.skip(1),
            ),
            _ => StepView::Mismatch,
        }
    }
}

pub open spec fn create_playbook_next(node: NodeView, log: Seq<ReplyView>) -> StepView {
    if node.node_type == "playbook"@ {
        if log.len() == 0 {
            StepView::Ask(RequestView::ValidatePlaybook { properties: node.properties })
        } else {
            match log[0] {
                ReplyView::Refused { error } => StepView::Fail(error),
                ReplyView::Done => create_store_next(node, log.skip(1)),
                _ => StepView::Mismatch,
            }
        }
    } else {
        create_store_next(node, log)
    }
}

pub open spec fn create_store_next(node: NodeView, log: Seq<ReplyView>) -> StepView {
    let schema = node.node_type == "schema"@;
    if log.len() == 0 {
        StepView::Ask(
            if schema {
                RequestView::InsertSchemaNode { node }
            } else {
                RequestView::InsertNode { node }
            },
        )
    } else {
        match log[0] {
            ReplyView::Refused { error } => StepView::Fail(error),
            ReplyView::Failed { message } => StepView::Fail(
                ErrorView::QueryFailed(
                    if schema {
                        message
                    } else {
                        "Failed to insert node: "@ + message
                    },
                ),
            ),
            ReplyView::Done => StepView::Finish(OutcomeView::Id { id: node.id }),
            _ => StepView::Mismatch,
        }
    }
}

impl NodeService {
    fn prepare_task(&self, node: &Node, schema: &Value, fields: &Vec<SchemaField>) -> (r: Result<
        Node,
        NodeServiceError,
    >)
        ensures
            match prepared_task(node@, schema@, fields_view(fields@)) {
                Ok(prepared) => r matches Ok(n) && n@ == prepared,
                Err(error) => r matches Err(e) && e@ == error,
            },
    {
        let mut out = node.clone();
        out.properties =
        NodeService::normalize_flat_properties_to_namespace(
            node.node_type.as_str(),
            &node.properties,
            Some(fields),
        );
        match self.apply_schema_defaults_with_fields(&mut out, fields) {
            Err(e) => {
                return Err(e);
            },
            Ok(()) => {},
        }
        match self.validate_node_with_fields(&out, fields) {
            Err(e) => {
                return Err(e);
            },
            Ok(()) => {},
        }
        if fields.len() > 0 {
            let version = match schema.get("version") {
                Some(v) => v.as_i64(),
                None => None,
            };
            if let Some(version) = version {
                note_version(&mut out, version);
            }
        }
        Ok(out)
    }

    /// Creates a node.
    pub fn create_node(&self, node: &Node, log: &Vec<Reply>) -> (r: Step)
        ensures
            r@ == create_next(node@, replies(log@)),
    {
        let mut dated = node.clone();
        if is_date_node_id(dated.id.as_str()) {
            dated.node_type = "date".to_owned();
        }
        if log.len() == 0 {
            return Step::Ask(Request::ValidateBehavior { node: dated });
        }
        match &log[0] {
            Reply::Refused { error } => {
                return Step::Fail(error.clone());
            },
            Reply::Done => {},
            _ => {
                return Step::Mismatch;
            },
        }
        if same_text(dated.node_type.as_str(), "task") {
            if log.len() == 1 {
                return Step::Ask(Request::LoadSchema { node_type: dated.node_type });
            }
            match &log[1] {
                Reply::Failed { message } => Step::Fail(
                    NodeServiceError::QueryFailed(message.clone()),
                ),
                Reply::Schema { schema: Some(schema), fields: Some(fields) } => {
                    match self.prepare_task(&dated, schema, fields) {
                        Ok(prepared) => NodeService::create_with_title(prepared, log, 2),
                        Err(e) => Step::Fail(e),
                    }
                },
                Reply::Schema { schema: _, fields: _ } => NodeService::create_with_title(
                    dated,
                    log,
                    2,
                ),
                _ => Step::Mismatch,
            }
        } else if same_text(dated.node_type.as_str(), "schema") {
            NodeService::create_with_title(dated, log, 1)
        } else {
            let properties = NodeService::normalize_flat_properties_to_namespace(
                dated.node_type.as_str(),
                &dated.properties,
                None,
            );
            dated.properties = properties;
            NodeService::create_with_title(dated, log, 1)
        }
    }

    fn create_with_title(node: Node, log: &Vec<Reply>, from: usize) -> (r: Step)
        requires
            from <= log@.len(),
        ensures
            r@ == create_title_next(node@, replies_from(log@, from as int)),
    {
        if node.title.is_some() {
            return NodeService::create_checked(node, log, from);
        }
        if from >= log.len() {
            return Step::Ask(Request::ComputeTitle { node, is_root: None });
        }
        match &log[from] {
            Reply::Refused { error } => Step::Fail(error.clone()),
            Reply::MaybeText { text } => {
                let mut named = node;
                named.title = clone_optional(text);
                NodeService::create_checked(named, log, from + 1)
            },
            _ => Step::Mismatch,
        }
    }

    fn create_checked(node: Node, log: &Vec<Reply>, from: usize) -> (r: Step)
        requires
            from <= log@.len(),
        ensures
            r@ == create_playbook_next(node@, replies_from(log@, from as int)),
    {
        if same_text(node.node_type.as_str(), "playbook") {
            if from >= log.len() {
                return Step::Ask(Request::ValidatePlaybook { properties: node.properties });
            }
            match &log[from] {
                Reply::Refused { error } => Step::Fail(error.clone()),
                Reply::Done => NodeService::create_stored(node, log, from + 1),
                _ => Step::Mismatch,
            }
        } else {
            NodeService::create_stored(node, log, from)
        }
    }

    fn create_stored(node: Node, log: &Vec<Reply>, from: usize) -> (r: Step)
        requires
            from <= log@.len(),
        ensures
            r@ == create_store_next(node@, replies_from(log@, from as int)),
    {
        let schema = same_text(node.node_type.as_str(), "schema");
        if from >= log.len() {
            return Step::Ask(
                if schema {
                    Request::InsertSchemaNode { node }
                } else {
                    Request::InsertNode { node }
                },
            );
        }
        match &log[from] {
            Reply::Refused { error } => Step::Fail(error.clone()),
            Reply::Failed { message } => {
                if schema {
                    Step::Fail(NodeServiceError::QueryFailed(message.clone()))
                } else {
                    let mut text = "Failed to insert node: ".to_owned();
                    text.append(message.as_str());
                    Step::Fail(NodeServiceError::QueryFailed(text))
                }
            },
            Reply::Done => Step::Finish(Outcome::Id { id: node.id }),
            _ => Step::Mismatch,
        }
    }
}

pub open spec fn not_a_uuid(id: Seq<char>) -> ErrorView {
    ErrorView::InvalidOperation(
        "Provided ID '"@ + id
            + "' is not a valid UUID format (required for non-date/non-schema nodes)"@,
    )
}

/// The identifier of a new node. A given one must be a UUID unless the node is a date or a schema or
/// the identifier is that of a test; otherwise a date is named by its content, a schema by its
/// normalized content, and any other node by the fresh identifier.
pub open spec fn new_id(params: CreateNodeParamsView, fresh: Seq<char>) -> Result<Seq<char>, ErrorView> {
    match params.id {
        Some(id) => if params.node_type == "date"@ || params.node_type == "schema"@
            || "test-"@.is_prefix_of(id) || uuid_text(id) {
            Ok(id)
        } else {
            Err(not_a_uuid(id))
        },
        None => if params.node_type == "date"@ {
            Ok(params.content)
        } else if params.node_type == "schema"@ {
            if schema_id(params.content).len() == 0 {
                Err(
                    ErrorView::InvalidUpdate(
                        "Schema content must not be empty or contain only special characters"@,
                    ),
                )
            } else {
                Ok(schema_id(params.content))
            }
        } else {
            Ok(fresh)
        },
    }
}

/// How often the sibling hint is checked.
pub const SIBLING_ATTEMPTS: usize = 5;

/// The pause after a check that failed.
pub const SIBLING_PAUSE_MILLIS: u64 = 50;

/// The creation of a node under a parent. `fresh` is the identifier of a node that has no other.
pub open spec fn create_with_parent_next(
    params: CreateNodeParamsView,
    fresh: Seq<char>,
    now: i64,
    log: Seq<ReplyView>,
) -> StepView {
    match params.parent_id {
        None => sibling_hint_next(params, fresh, now, log),
        Some(parent) => if log.len() == 0 {
            StepView::Ask(RequestView::EnsureDate { id: parent })
        } else {
            match log[0] {
                ReplyView::Refused { error } => StepView::Fail(error),
                ReplyView::Done => parent_exists_next(params, fresh, now, parent, log.skip(1)),
                _ => StepView::Mismatch,
            }
        },
    }
}

pub open spec fn parent_exists_next(
    params: CreateNodeParamsView,
    fresh: Seq<char>,
    now: i64,
    parent: Seq<char>,
    log: Seq<ReplyView>,
) -> StepView {
    if log.len() == 0 {
        StepView::Ask(RequestView::NodeExists { id: parent })
    } else {
        match log[0] {
            ReplyView::Refused { error } => StepView::Fail(error),
            ReplyView::Flag { value: false } => StepView::Fail(
                ErrorView::InvalidParent { parent_id: parent },
            ),
            ReplyView::Flag { value: true } => sibling_hint_next(params, fresh, now, log.skip(1)),
            _ => StepView::Mismatch,
        }
    }
}

pub open spec fn sibling_hint_next(
    params: CreateNodeParamsView,
    fresh: Seq<char>,
    now: i64,
    log: Seq<ReplyView>,
) -> StepView {
    match params.insert_after_node_id {
        None => new_node_next(params, fresh, now, None, log),
        Some(sibling) => sibling_check_next(
            params,
            fresh,
            now,
            sibling,
            SIBLING_ATTEMPTS as nat,
            log,
        ),
    }
}

/// The checks of the sibling hint: the sibling exists and has the parent of the new node. The hint
/// is checked a few times, since a sibling that was just created may not be visible yet. A hint
/// that stays stale never makes the creation fail: the node is then appended at the end.
pub open spec fn sibling_check_next(
    params: CreateNodeParamsView,
    fresh: Seq<char>,
    now: i64,
    sibling: Seq<char>,
    attempts: nat,
    log: Seq<ReplyView>,
) -> StepView
    decreases log.len(),
{
    if attempts == 0 {
        append_next(params, fresh, now, log)
    } else if log.len() == 0 {
        StepView::Ask(RequestView::GetNode { id: sibling })
    } else {
        match log[0] {
            ReplyView::Node { node: Some(_) } => if log.skip(1).len() == 0 {
                StepView::Ask(RequestView::GetParent { id: sibling })
            } else {
                match log.skip(1)[0] {
                    ReplyView::Node { node } => if (match node {
                        Some(parent) => Some(parent.id),
                        None => None,
                    }) == params.parent_id {
                        new_node_next(params, fresh, now, Some(sibling), log.skip(1).skip(1))
                    } else {
                        sibling_pause_next(
                            params,
                            fresh,
                            now,
                            sibling,
                            attempts,
                            log.skip(1).skip(1),
                        )
                    },
                    ReplyView::Refused { error: _ } => sibling_pause_next(
                        params,
                        fresh,
                        now,
                        sibling,
                        attempts,
                        log.skip(1).skip(1),
                    ),
                    _ => StepView::Mismatch,
                }
            },
            ReplyView::Node { node: None } | ReplyView::Refused { error: _ } => sibling_pause_next(
                params,
                fresh,
                now,
                sibling,
                attempts,
                log.skip(1),
            ),
            _ => StepView::Mismatch,
        }
    }
}

pub open spec fn sibling_pause_next(
    params: CreateNodeParamsView,
    fresh: Seq<char>,
    now: i64,
    sibling: Seq<char>,
    attempts: nat,
    log: Seq<ReplyView>,
) -> StepView
    decreases log.len(),
{
    if log.len() == 0 {
        StepView::Ask(RequestView::Pause { millis: SIBLING_PAUSE_MILLIS })
    } else {
        match log[0] {
            ReplyView::Done => sibling_check_next(
                params,
                fresh,
                now,
                sibling,
                (attempts - 1) as nat,
                log.skip(1),
            ),
            _ => StepView::Mismatch,
        }
    }
}

/// The last child of the parent becomes the sibling after which the new node comes.
pub open spec fn append_next(
    params: CreateNodeParamsView,
    fresh: Seq<char>,
    now: i64,
    log: Seq<ReplyView>,
) -> StepView {
    match params.parent_id {
        None => new_node_next(params, fresh, now, None, log),
        Some(parent) => if log.len() == 0 {
            StepView::Ask(RequestView::GetChildren { id: parent })
        } else {
            match log[0] {
                ReplyView::Refused { error } => StepView::Fail(error),
                ReplyView::Nodes { nodes } => new_node_next(
                    params,
                    fresh,
                    now,
                    if nodes.len() > 0 {
                        Some(nodes.last().id)
                    } else {
                        None
                    },
                    log.skip(1),
                ),
                _ => StepView::Mismatch,
            }
        },
    }
}

/// The properties from which the title of a new node is computed.
pub open spec fn title_properties(params: CreateNodeParamsView) -> Json {
    if params.node_type == "schema"@ {
        params.properties
    } else {
        namespaced(params.node_type, params.properties, Set::empty())
    }
}

pub open spec fn new_node_next(
    params: CreateNodeParamsView,
    fresh: Seq<char>,
    now: i64,
    after: Option<Seq<char>>,
    log: Seq<ReplyView>,
) -> StepView {
    match new_id(params, fresh) {
        Err(error) => StepView::Fail(error),
        Ok(id) => if log.len() == 0 {
            StepView::Ask(
                RequestView::ComputeTitle {
                    node: plain_node(
                        id,
                        params.node_type,
                        params.content,
                        title_properties(params),
                        now,
                    ),
                    is_root: Some(params.parent_id is None),
                },
            )
        } else {
            match log[0] {
                ReplyView::Refused { error } => StepView::Fail(error),
                ReplyView::MaybeText { text } => new_node_create_next(
                    params,
                    NodeView {
                        title: text,
                        ..plain_node(id, params.node_type, params.content, params.properties, now)
                    },
                    after,
                    log.skip(1),
                ),
                _ => StepView::Mismatch,
            }
        },
    }
}

pub open spec fn new_node_create_next(
    params: CreateNodeParamsView,
    node: NodeView,
    after: Option<Seq<char>>,
    log: Seq<ReplyView>,
) -> StepView {
    if log.len() == 0 {
        StepView::Ask(RequestView::CreateNode { node })
    } else {
        match log[0] {
            ReplyView::Refused { error } => StepView::Fail(error),
            ReplyView::Text { text: created } => match params.parent_id {
                Some(parent) => new_child_next(created, parent, after, log.skip(1)),
                None => new_root_next(created, params.node_type, log.skip(1)),
            },
            _ => StepView::Mismatch,
        }
    }
}

/// A new child is put under its parent, and the root above it is queued for embedding.
pub open spec fn new_child_next(
    created: Seq<char>,
    parent: Seq<char>,
    after: Option<Seq<char>>,
    log: Seq<ReplyView>,
) -> StepView {
    if log.len() == 0 {
        StepView::Ask(RequestView::CreateParentEdge { child: created, parent, after })
    } else {
        match log[0] {
            ReplyView::Refused { error } => StepView::Fail(error),
            ReplyView::Done => new_child_queue_next(created, log.skip(1)),
            _ => StepView::Mismatch,
        }
    }
}

pub open spec fn new_child_queue_next(created: Seq<char>, log: Seq<ReplyView>) -> StepView {
    if log.len() == 0 {
        StepView::Ask(RequestView::QueueRoot { id: created })
    } else {
        match log[0] {
            ReplyView::Done => StepView::Finish(OutcomeView::Id { id: created }),
            _ => StepView::Mismatch,
        }
    }
}

/// A new root is queued for embedding if its type can be embedded. That this fails does not matter.
pub open spec fn new_root_next(
    created: Seq<char>,
    node_type: Seq<char>,
    log: Seq<ReplyView>,
) -> StepView {
    if log.len() == 0 {
        StepView::Ask(RequestView::IsEmbeddable { node_type })
    } else {
        match log[0] {
            ReplyView::Flag { value: false } => StepView::Finish(OutcomeView::Id { id: created }),
            ReplyView::Flag { value: true } => new_root_marker_next(created, log.skip(1)),
            _ => StepView::Mismatch,
        }
    }
}

pub open spec fn new_root_marker_next(created: Seq<char>, log: Seq<ReplyView>) -> StepView {
    if log.len() == 0 {
        StepView::Ask(RequestView::CreateStaleMarker { id: created })
    } else {
        match log[0] {
            ReplyView::Failed { message: _ } => StepView::Finish(OutcomeView::Id { id: created }),
            ReplyView::Done => new_root_wake_next(created, log.skip(1)),
            _ => StepView::Mismatch,
        }
    }
}

pub open spec fn new_root_wake_next(created: Seq<char>, log: Seq<ReplyView>) -> StepView {
    if log.len() == 0 {
        StepView::Ask(RequestView::WakeEmbedder)
    } else {
        match log[0] {
            ReplyView::Done => StepView::Finish(OutcomeView::Id { id: created }),
            _ => StepView::Mismatch,
        }
    }
}

/// The identifier of a new node, or why there is none.
fn decide_id(params: &CreateNodeParams, fresh: &str) -> (r: Result<String, NodeServiceError>)
    ensures
        match new_id(params@, fresh@) {
            Ok(id) => r matches Ok(s) && s@ == id,
            Err(error) => r matches Err(e) && e@ == error,
        },
{
    let date = same_text(params.node_type.as_str(), "date");
    let schema = same_text(params.node_type.as_str(), "schema");
    match &params.id {
        Some(id) => {
            if date || schema || text_starts_with(id.as_str(), "test-") || parses_as_uuid(id.as_str()) {
                Ok(id.clone())
            } else {
                let mut message = "Provided ID '".to_owned();
                message.append(id.as_str());
                message.append(
                    "' is not a valid UUID format (required for non-date/non-schema nodes)",
                );
                Err(NodeServiceError::InvalidOperation(message))
            }
        },
        None => {
            if date {
                Ok(params.content.clone())
            } else if schema {
                let id = normalize_schema_id(params.content.as_str());
                if id.as_str().is_empty() {
                    Err(
                        NodeServiceError::invalid_update(
                            "Schema content must not be empty or contain only special characters",
                        ),
                    )
                } else {
                    Ok(id)
                }
            } else {
                Ok(fresh.to_owned())
            }
        },
    }
}

fn same_optional(a: Option<&str>, b: Option<&str>) -> (r: bool)
    ensures
        r == (optional_str(a) == optional_str(b)),
{
    match (a, b) {
        (Some(x), Some(y)) => same_text(x, y),
        (None, None) => true,
        _ => false,
    }
}

pub(crate) fn borrow_optional(text: &Option<String>) -> (r: Option<&str>)
    ensures
        optional_str(r) == optional_text(*text),
{
    match text {
        Some(s) => Some(s.as_str()),
        None => None,
    }
}

impl NodeService {
    /// Creates a node under a parent, after a sibling, or as a root. `fresh` is the identifier for a
    /// node that gets no other, and `now` the time of its creation.
    pub fn create_node_with_parent(
        &self,
        params: &CreateNodeParams,
        fresh: &str,
        now: i64,
        log: &Vec<Reply>,
    ) -> (r: Step)
        ensures
            r@ == create_with_parent_next(params@, fresh@, now, replies(log@)),
    {
        let parent = match &params.parent_id {
            None => {
                return NodeService::check_sibling_hint(params, fresh, now, log, 0);
            },
            Some(p) => p,
        };
        if log.len() == 0 {
            return Step::Ask(Request::EnsureDate { id: parent.clone() });
        }
        match &log[0] {
            Reply::Refused { error } => {
                return Step::Fail(error.clone());
            },
            Reply::Done => {},
            _ => {
                return Step::Mismatch;
            },
        }
        if log.len() == 1 {
            return Step::Ask(Request::NodeExists { id: parent.clone() });
        }
        match &log[1] {
            Reply::Refused { error } => Step::Fail(error.clone()),
            Reply::Flag { value } => {
                if *value {
                    NodeService::check_sibling_hint(params, fresh, now, log, 2)
                } else {
                    Step::Fail(NodeServiceError::invalid_parent(parent.as_str()))
                }
            },
            _ => Step::Mismatch,
        }
    }

    fn check_sibling_hint(
        params: &CreateNodeParams,
        fresh: &str,
        now: i64,
        log: &Vec<Reply>,
        from: usize,
    ) -> (r: Step)
        requires
            from <= log@.len(),
        ensures
            r@ == sibling_hint_next(params@, fresh@, now, replies_from(log@, from as int)),
    {
        match &params.insert_after_node_id {
            None => NodeService::make_new_node(params, fresh, now, None, log, from),
            Some(sibling) => NodeService::check_sibling(
                params,
                fresh,
                now,
                sibling.as_str(),
                SIBLING_ATTEMPTS,
                log,
                from,
            ),
        }
    }

    fn check_sibling(
        params: &CreateNodeParams,
        fresh: &str,
        now: i64,
        sibling: &str,
        attempts: usize,
        log: &Vec<Reply>,
        from: usize,
    ) -> (r: Step)
        requires
            from <= log@.len(),
        ensures
            r@ == sibling_check_next(
                params@,
                fresh@,
                now,
                sibling@,
                attempts as nat,
                replies_from(log@, from as int),
            ),
        decreases attempts, 1nat,
    {
        if attempts == 0 {
            return NodeService::append_at_end(params, fresh, now, log, from);
        }
        if from >= log.len() {
            return Step::Ask(Request::GetNode { id: sibling.to_owned() });
        }
        match &log[from] {
            Reply::Node { node: Some(_) } => {
                if from + 1 >= log.len() {
                    return Step::Ask(Request::GetParent { id: sibling.to_owned() });
                }
                match &log[from + 1] {
                    Reply::Node { node } => {
                        let parent = match node {
                            Some(parent) => Some(parent.id.as_str()),
                            None => None,
                        };
                        if same_optional(parent, borrow_optional(&params.parent_id)) {
                            NodeService::make_new_node(
                                params,
                                fresh,
                                now,
                                Some(sibling),
                                log,
                                from + 2,
                            )
                        } else {
                            NodeService::pause_sibling(
                                params,
                                fresh,
                                now,
                                sibling,
                                attempts,
                                log,
                                from + 2,
                            )
                        }
                    },
                    Reply::Refused { error: _ } => NodeService::pause_sibling(
                        params,
                        fresh,
                        now,
                        sibling,
                        attempts,
                        log,
                        from + 2,
                    ),
                    _ => Step::Mismatch,
                }
            },
            Reply::Node { node: None } => NodeService::pause_sibling(
                params,
                fresh,
                now,
                sibling,
                attempts,
                log,
                from + 1,
            ),
            Reply::Refused { error: _ } => NodeService::pause_sibling(
                params,
                fresh,
                now,
                sibling,
                attempts,
                log,
                from + 1,
            ),
            _ => Step::Mismatch,
        }
    }

    fn pause_sibling(
        params: &CreateNodeParams,
        fresh: &str,
        now: i64,
        sibling: &str,
        attempts: usize,
        log: &Vec<Reply>,
        from: usize,
    ) -> (r: Step)
        requires
            from <= log@.len(),
            attempts > 0,
        ensures
            r@ == sibling_pause_next(
                params@,
                fresh@,
                now,
                sibling@,
                attempts as nat,
                replies_from(log@, from as int),
            ),
        decreases attempts, 0nat,
    {
        if from >= log.len() {
            return Step::Ask(Request::Pause { millis: SIBLING_PAUSE_MILLIS });
        }
        match &log[from] {
            Reply::Done => NodeService::check_sibling(
                params,
                fresh,
                now,
                sibling,
                attempts - 1,
                log,
                from + 1,
            ),
            _ => Step::Mismatch,
        }
    }

    fn append_at_end(
        params: &CreateNodeParams,
        fresh: &str,
        now: i64,
        log: &Vec<Reply>,
        from: usize,
    ) -> (r: Step)
        requires
            from <= log@.len(),
        ensures
            r@ == append_next(params@, fresh@, now, replies_from(log@, from as int)),
    {
        let parent = match &params.parent_id {
            None => {
                return NodeService::make_new_node(params, fresh, now, None, log, from);
            },
            Some(p) => p,
        };
        if from >= log.len() {
            return Step::Ask(Request::GetChildren { id: parent.clone() });
        }
        match &log[from] {
            Reply::Refused { error } => Step::Fail(error.clone()),
            Reply::Nodes { nodes } => {
                let last = if nodes.len() > 0 {
                    Some(nodes[nodes.len() - 1].id.as_str())
                } else {
                    None
                };
                NodeService::make_new_node(params, fresh, now, last, log, from + 1)
            },
            _ => Step::Mismatch,
        }
    }

    fn make_new_node(
        params: &CreateNodeParams,
        fresh: &str,
        now: i64,
        after: Option<&str>,
        log: &Vec<Reply>,
        from: usize,
    ) -> (r: Step)
        requires
            from <= log@.len(),
        ensures
            r@ == new_node_next(
                params@,
                fresh@,
                now,
                optional_str(after),
                replies_from(log@, from as int),
            ),
    {
        let id = match decide_id(params, fresh) {
            Ok(id) => id,
            Err(e) => {
                return Step::Fail(e);
            },
        };
        if from >= log.len() {
            let properties = if same_text(params.node_type.as_str(), "schema") {
                params.properties.clone()
            } else {
                NodeService::normalize_flat_properties_to_namespace(
                    params.node_type.as_str(),
                    &params.properties,
                    None,
                )
            };
            let probe = make_node(
                id.as_str(),
                params.node_type.as_str(),
                params.content.as_str(),
                properties,
                now,
            );
            return Step::Ask(
                Request::ComputeTitle { node: probe, is_root: Some(params.parent_id.is_none()) },
            );
        }
        let title = match &log[from] {
            Reply::Refused { error } => {
                return Step::Fail(error.clone());
            },
            Reply::MaybeText { text } => clone_optional(text),
            _ => {
                return Step::Mismatch;
            },
        };
        let mut node = make_node(
            id.as_str(),
            params.node_type.as_str(),
            params.content.as_str(),
            params.properties.clone(),
            now,
        );
        node.title = title;
        if from + 1 >= log.len() {
            return Step::Ask(Request::CreateNode { node });
        }
        match &log[from + 1] {
            Reply::Refused { error } => Step::Fail(error.clone()),
            Reply::Text { text: created } => match &params.parent_id {
                Some(parent) => NodeService::finish_child(
                    created.as_str(),
                    parent.as_str(),
                    after,
                    log,
                    from + 2,
                ),
                None => NodeService::finish_root(
                    created.as_str(),
                    params.node_type.as_str(),
                    log,
                    from + 2,
                ),
            },
            _ => Step::Mismatch,
        }
    }

    fn finish_child(
        created: &str,
        parent: &str,
        after: Option<&str>,
        log: &Vec<Reply>,
        from: usize,
    ) -> (r: Step)
        requires
            from <= log@.len(),
        ensures
            r@ == new_child_next(
                created@,
                parent@,
                optional_str(after),
                replies_from(log@, from as int),
            ),
    {
        if from >= log.len() {
            return Step::Ask(
                Request::CreateParentEdge {
                    child: created.to_owned(),
                    parent: parent.to_owned(),
                    after: own(after),
                },
            );
        }
        match &log[from] {
            Reply::Refused { error } => {
                return Step::Fail(error.clone());
            },
            Reply::Done => {},
            _ => {
                return Step::Mismatch;
            },
        }
        if from + 1 >= log.len() {
            return Step::Ask(Request::QueueRoot { id: created.to_owned() });
        }
        match &log[from + 1] {
            Reply::Done => Step::Finish(Outcome::Id { id: created.to_owned() }),
            _ => Step::Mismatch,
        }
    }

    fn finish_root(created: &str, node_type: &str, log: &Vec<Reply>, from: usize) -> (r: Step)
        requires
            from <= log@.len(),
        ensures
            r@ == new_root_next(created@, node_type@, replies_from(log@, from as int)),
    {
        if from >= log.len() {
            return Step::Ask(Request::IsEmbeddable { node_type: node_type.to_owned() });
        }
        match &log[from] {
            Reply::Flag { value } => {
                if !*value {
                    return Step::Finish(Outcome::Id { id: created.to_owned() });
                }
            },
            _ => {
                return Step::Mismatch;
            },
        }
        if from + 1 >= log.len() {
            return Step::Ask(Request::CreateStaleMarker { id: created.to_owned() });
        }
        match &log[from + 1] {
            Reply::Failed { message: _ } => {
                return Step::Finish(Outcome::Id { id: created.to_owned() });
            },
            Reply::Done => {},
            _ => {
                return Step::Mismatch;
            },
        }
        if from + 2 >= log.len() {
            return Step::Ask(Request::WakeEmbedder);
        }
        match &log[from + 2] {
            Reply::Done => Step::Finish(Outcome::Id { id: created.to_owned() }),
            _ => Step::Mismatch,
        }
    }
}

/// A node is stored only after the behavior of its type accepted it, under the identifier that it
/// came with; with the identifier of a date it is stored as a date.
pub proof fn law_nodes_are_checked_before_they_are_stored(node: NodeView, log: Seq<ReplyView>)
    requires
        create_next(node, log) matches StepView::Ask(request) && (request is InsertNode
            || request is InsertSchemaNode),
    ensures
        log[0] == ReplyView::Done,
        create_next(node, log) matches StepView::Ask(request) && (match request {
            RequestView::InsertNode { node: stored } => stored.id == node.id && stored.content
                == node.content && stored.node_type != "schema"@ && (calendar_date(node.id)
                ==> stored.node_type == "date"@),
            RequestView::InsertSchemaNode { node: stored } => stored.id == node.id
                && stored.node_type == "schema"@ && stored.properties == node.properties,
            _ => false,
        }),
{
    reveal_strlit("date");
    reveal_strlit("schema");
    reveal_strlit("task");
    assert("date"@.len() != "schema"@.len());
    assert("task"@.len() != "schema"@.len());
}

/// A task that fails the check of its schema is not stored.
pub proof fn law_invalid_tasks_are_refused(
    node: NodeView,
    schema: Json,
    fields: Seq<SchemaFieldView>,
    error: ErrorView,
    log: Seq<ReplyView>,
)
    requires
        node.node_type == "task"@,
        !calendar_date(node.id),
        log.len() >= 2,
        log[0] == ReplyView::Done,
        log[1] == (ReplyView::Schema { schema: Some(schema), fields: Some(fields) }),
        prepared_task(node, schema, fields) == Err::<NodeView, ErrorView>(error),
    ensures
        create_next(node, log) == StepView::Fail(error),
{
}

/// A node under a parent is created only if the parent exists, under the identifier that the rules
/// for new nodes give it.
pub proof fn law_children_need_a_parent(
    params: CreateNodeParamsView,
    fresh: Seq<char>,
    now: i64,
    parent: Seq<char>,
    log: Seq<ReplyView>,
)
    requires
        params.parent_id == Some(parent),
        create_with_parent_next(params, fresh, now, log) matches StepView::Ask(RequestView::CreateNode {
            node: _,
        }),
    ensures
        log[0] == ReplyView::Done,
        log[1] == (ReplyView::Flag { value: true }),
        creates_under_new_id(params, fresh, create_with_parent_next(params, fresh, now, log)),
{
    let rest = log.skip(1).skip(1);
    match params.insert_after_node_id {
        None => {},
        Some(sibling) => {
            lemma_check_creates(
                params,
                fresh,
                now,
                sibling,
                SIBLING_ATTEMPTS as nat,
                rest,
            );
        },
    }
}

/// Where the step asks to create a node, the node has the identifier that the rules give it.
pub open spec fn creates_under_new_id(
    params: CreateNodeParamsView,
    fresh: Seq<char>,
    step: StepView,
) -> bool {
    step matches StepView::Ask(RequestView::CreateNode { node }) ==> new_id(params, fresh) == Ok::<
        Seq<char>,
        ErrorView,
    >(node.id) && node.node_type == params.node_type && node.content == params.content
        && node.properties == params.properties && node.version == 1
}

proof fn lemma_check_creates(
    params: CreateNodeParamsView,
    fresh: Seq<char>,
    now: i64,
    sibling: Seq<char>,
    attempts: nat,
    log: Seq<ReplyView>,
)
    ensures
        creates_under_new_id(
            params,
            fresh,
            sibling_check_next(params, fresh, now, sibling, attempts, log),
        ),
    decreases log.len(),
{
    if attempts > 0 && log.len() > 0 {
        let one = log.skip(1);
        let two = one.skip(1);
        let fewer = (attempts - 1) as nat;
        if one.len() > 0 {
            lemma_check_creates(params, fresh, now, sibling, fewer, two);
            assert(creates_under_new_id(
                params,
                fresh,
                sibling_pause_next(params, fresh, now, sibling, attempts, one),
            ));
        }
        if one.len() > 0 && two.len() > 0 {
            lemma_check_creates(params, fresh, now, sibling, fewer, two.skip(1));
            assert(creates_under_new_id(
                params,
                fresh,
                sibling_pause_next(params, fresh, now, sibling, attempts, two),
            ));
        }
    }
}

/// The replies of checks each of which found the hint stale: the sibling is gone or cannot be read, or
/// it lies under another parent or its parent cannot be read.
pub open spec fn stale_checks(parent: Option<Seq<char>>, checks: nat, log: Seq<ReplyView>) -> bool
    decreases checks,
{
    if checks == 0 {
        log.len() == 0
    } else {
        let fewer = (checks - 1) as nat;
        ||| {
            &&& log.len() >= 2
            &&& log[0] == (ReplyView::Node { node: None }) || log[0] is Refused
            &&& log[1] == ReplyView::Done
            &&& stale_checks(parent, fewer, log.skip(2))
        }
        ||| {
            &&& log.len() >= 3
            &&& log[0] matches ReplyView::Node { node: Some(_) }
            &&& log[1] is Refused || (log[1] matches ReplyView::Node { node } && (match node {
                Some(found) => Some(found.id),
                None => None,
            }) != parent)
            &&& log[2] == ReplyView::Done
            &&& stale_checks(parent, fewer, log.skip(3))
        }
    }
}

/// A hint that stays stale does not make the creation fail: the node is appended at the end.
pub proof fn law_stale_hint_appends(
    params: CreateNodeParamsView,
    fresh: Seq<char>,
    now: i64,
    sibling: Seq<char>,
    checks: nat,
    log: Seq<ReplyView>,
    rest: Seq<ReplyView>,
)
    requires
        stale_checks(params.parent_id, checks, log),
    ensures
        sibling_check_next(params, fresh, now, sibling, checks, log + rest) == append_next(
            params,
            fresh,
            now,
            rest,
        ),
    decreases checks,
{
    if checks == 0 {
        assert(log + rest =~= rest);
    } else {
        let all = log + rest;
        let fewer = (checks - 1) as nat;
        let one = all.skip(1);
        let two = one.skip(1);
        if log[0] matches ReplyView::Node { node: Some(_) } {
            law_stale_hint_appends(params, fresh, now, sibling, fewer, log.skip(3), rest);
            assert(two.skip(1) =~= log.skip(3) + rest);
            assert(sibling_pause_next(params, fresh, now, sibling, checks, two)
                == sibling_check_next(params, fresh, now, sibling, fewer, two.skip(1)));
        } else {
            law_stale_hint_appends(params, fresh, now, sibling, fewer, log.skip(2), rest);
            assert(two =~= log.skip(2) + rest);
            assert(sibling_pause_next(params, fresh, now, sibling, checks, one)
                == sibling_check_next(params, fresh, now, sibling, fewer, two));
        }
    }
}

/// A node that is appended comes after the last child of its parent, and is not created if the
/// children cannot be read.
pub proof fn law_appended_nodes_come_last(
    params: CreateNodeParamsView,
    fresh: Seq<char>,
    now: i64,
    parent: Seq<char>,
    children: Seq<NodeView>,
    error: ErrorView,
    rest: Seq<ReplyView>,
)
    requires
        params.parent_id == Some(parent),
    ensures
        append_next(params, fresh, now, seq![ReplyView::Nodes { nodes: children }] + rest)
            == new_node_next(
            params,
            fresh,
            now,
            if children.len() > 0 {
                Some(children.last().id)
            } else {
                None
            },
            rest,
        ),
        append_next(params, fresh, now, seq![ReplyView::Refused { error }] + rest)
            == StepView::Fail(error),
{
    assert((seq![ReplyView::Nodes { nodes: children }] + rest).skip(1) =~= rest);
}

/// An identifier that the service makes up may be mentioned, if the fresh one may.
pub proof fn law_new_ids_can_be_mentioned(params: CreateNodeParamsView, fresh: Seq<char>)
    requires
        params.id is None,
        params.node_type != "date"@,
        params.node_type != "schema"@,
        lower_uuid(fresh),
    ensures
        new_id(params, fresh) matches Ok(id) && crate::ids::valid_node_id(id) && uuid_text(id),
{
    crate::ids::law_mentionable_uuids_are_uuids(fresh);
}

} // verus!
