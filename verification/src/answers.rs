//! Which of its own operations answers a request of the library, and what it can answer.
//!
//! Many requests of an operation name another operation of the library. Its steps are given here,
//! and its end is the reply: so it can be said of an operation what those that it asked for did.

use crate::bulk::{import_next, ImportKind};
use crate::create::{
    append_next, borrow_optional, create_next, create_playbook_next, create_prepare_next,
    create_store_next, create_title_next, create_with_parent_next, ensure_date_next, new_node_next,
    prepared_task, sibling_check_next, sibling_hint_next, sibling_pause_next, title_next,
    CreateNodeParamsView, SIBLING_ATTEMPTS,
};
use crate::hierarchy::{
    bump_next, descendant_next, node_exists_next, reorder_child_next, root_next, MAX_ANCESTOR_STEPS,
};
use crate::linking::{mention_next, sync_next, unmention_next, MentionGuard};
use crate::lookups::{get_children_next, get_parent_next, is_root_next, populate_mentions_next};
use crate::mentions::mentions_in;
use crate::node::NodeView;
use crate::placement::{edge_next, EDGE_ATTEMPTS};
use crate::playbook::{embeddable_next, playbook_next};
use crate::protocol::{
    replies, Outcome, OutcomeView, Reply, ReplyView, Request, RequestView, Step, StepView,
};
use crate::query::{query_next, NodeFilter, NodeFilterView};
use crate::queueing::queue_next;
use crate::reading::get_next;
use crate::removal::delete_next;
use crate::service::NodeService;
use crate::update::update_versioned_next;
use vstd::prelude::*;
use vstd::string::*;

verus! {

/// The filter for all nodes of a type.
pub open spec fn type_filter(node_type: Seq<char>) -> NodeFilterView {
    NodeFilterView {
        ids: None,
        node_type: Some(node_type),
        content_contains: None,
        title_contains: None,
        property_filters: None,
        limit: None,
        offset: None,
    }
}

/// The step of the operation that answers a request. There is none for a request that only the
/// surroundings can perform. `now` is the time and `fresh` an identifier that no node has.
pub open spec fn own_step(
    request: RequestView,
    now: i64,
    fresh: Seq<char>,
    log: Seq<ReplyView>,
) -> Option<StepView> {
    match request {
        RequestView::GetNode { id } => Some(get_next(id, now, log)),
        RequestView::NodeExists { id } => Some(node_exists_next(id, log)),
        RequestView::GetParent { id } => Some(get_parent_next(id, log)),
        RequestView::GetChildren { id } => Some(get_children_next(id, log)),
        RequestView::GetRoot { id } => Some(root_next(id, log)),
        RequestView::IsRoot { id } => Some(is_root_next(id, log)),
        RequestView::IsDescendant { ancestor, id } => Some(
            descendant_next(ancestor, id, MAX_ANCESTOR_STEPS as nat, log),
        ),
        RequestView::EnsureDate { id } => Some(ensure_date_next(id, now, log)),
        RequestView::CreateNode { node } => Some(create_next(node, log)),
        RequestView::CreateNodeWithParent { params } => Some(
            create_with_parent_next(params, fresh, now, log),
        ),
        RequestView::ComputeTitle { node, is_root } => Some(title_next(node, is_root, log)),
        RequestView::CreateParentEdge { child, parent, after } => Some(
            edge_next(child, parent, after, EDGE_ATTEMPTS as nat, Seq::empty(), log),
        ),
        RequestView::QueueRoot { id } => Some(queue_next(id, log)),
        RequestView::SyncMentions { id, old_content, new_content } => Some(
            sync_next(id, mentions_in(old_content), mentions_in(new_content), log),
        ),
        RequestView::CreateMention { from, to } => Some(
            mention_next(from, to, MentionGuard::Root, log),
        ),
        RequestView::DeleteMention { from, to } => Some(
            unmention_next(from, to, Seq::empty(), log),
        ),
        RequestView::DeleteNode { id, expected_version } => Some(
            delete_next(id, expected_version, log),
        ),
        RequestView::ReorderChild { id, after } => Some(reorder_child_next(id, after, log)),
        RequestView::BumpVersion { id, expected_version } => Some(
            bump_next(id, expected_version, log),
        ),
        RequestView::VersionedUpdate { id, expected_version, update } => Some(
            update_versioned_next(id, expected_version, update, log),
        ),
        RequestView::PopulateMentions { node } => Some(populate_mentions_next(node, log)),
        RequestView::IsEmbeddable { node_type } => Some(embeddable_next(node_type, now, log)),
        RequestView::ValidatePlaybook { properties } => Some(playbook_next(properties, log)),
        RequestView::QueryByType { node_type } => Some(query_next(type_filter(node_type), log)),
        RequestView::BulkCreateHierarchy { nodes } => Some(
            import_next(nodes, ImportKind::Announced, now, log),
        ),
        _ => None,
    }
}

/// The reply that the end of an operation makes: its outcome, or its error. Before its end there is
/// none.
pub open spec fn reply_of(step: StepView) -> Option<ReplyView> {
    match step {
        StepView::Fail(error) => Some(ReplyView::Refused { error }),
        StepView::Finish(outcome) => match outcome {
            OutcomeView::Nothing => Some(ReplyView::Done),
            OutcomeView::Id { id } => Some(ReplyView::Text { text: id }),
            OutcomeView::Title { title } => Some(ReplyView::MaybeText { text: title }),
            OutcomeView::Node { node } => Some(ReplyView::Node { node: Some(node) }),
            OutcomeView::MaybeNode { node } => Some(ReplyView::Node { node }),
            OutcomeView::Deleted { existed } => Some(ReplyView::Flag { value: existed }),
            OutcomeView::Flag { value } => Some(ReplyView::Flag { value }),
            OutcomeView::Nodes { nodes } => Some(ReplyView::Nodes { nodes }),
            OutcomeView::Ids { ids } => Some(ReplyView::Texts { items: ids }),
            OutcomeView::Content { text } => Some(ReplyView::MaybeText { text }),
            OutcomeView::Hits { hits } => Some(ReplyView::Hits { hits }),
            OutcomeView::References { items } => Some(ReplyView::References { items }),
            OutcomeView::Values { values } => Some(ReplyView::Values { values }),
            OutcomeView::Json { value } => Some(ReplyView::Json { value }),
            OutcomeView::MaybeJson { value } => Some(ReplyView::MaybeValue { value }),
            OutcomeView::Count { count } => Some(ReplyView::Count { value: count }),
            OutcomeView::Completeness { result: _ } => None,
            OutcomeView::Subtree { data: _ } => None,
        },
        _ => None,
    }
}

/// The request names an operation of the library.
pub open spec fn is_own(request: RequestView) -> bool {
    own_step(request, 0, Seq::empty(), Seq::empty()) is Some
}

/// The operation that answers the request can end with the reply. The surroundings may reply what
/// they like to requests of their own.
pub open spec fn can_answer(request: RequestView, reply: ReplyView) -> bool {
    is_own(request) ==> exists|now: i64, fresh: Seq<char>, log: Seq<ReplyView>|
        ends_with(#[trigger] own_step(request, now, fresh, log), reply)
}

pub open spec fn ends_with(step: Option<StepView>, reply: ReplyView) -> bool {
    step matches Some(s) && reply_of(s) == Some(reply)
}

/// Every reply in the list can be the answer to the request that the operation made at its place.
pub open spec fn answered(op: spec_fn(Seq<ReplyView>) -> StepView, log: Seq<ReplyView>) -> bool {
    forall|i: int|
        0 <= i < log.len() ==> (op(log.take(i)) matches StepView::Ask(request) && can_answer(
            request,
            #[trigger] log[i],
        ))
}

pub open spec fn optional_step(step: Option<Step>) -> Option<StepView> {
    match step {
        Some(s) => Some(s@),
        None => None,
    }
}

pub open spec fn optional_reply(reply: Option<Reply>) -> Option<ReplyView> {
    match reply {
        Some(r) => Some(r@),
        None => None,
    }
}

impl NodeService {
    /// The next step of the operation that answers a request of another, if it is one of this
    /// service.
    pub fn answer_step(&self, request: &Request, now: i64, fresh: &str, log: &Vec<Reply>) -> (r:
        Option<Step>)
        ensures
            optional_step(r) == own_step(request@, now, fresh@, replies(log@)),
    {
        Some(
            match request {
                Request::GetNode { id } => self.get_node(id.as_str(), now, log),
                Request::NodeExists { id } => self.node_exists(id.as_str(), log),
                Request::GetParent { id } => self.get_parent(id.as_str(), log),
                Request::GetChildren { id } => self.get_children(id.as_str(), log),
                Request::GetRoot { id } => self.get_root_id(id.as_str(), log),
                Request::IsRoot { id } => self.is_root_node(id.as_str(), log),
                Request::IsDescendant { ancestor, id } => self.is_descendant(
                    ancestor.as_str(),
                    id.as_str(),
                    log,
                ),
                Request::EnsureDate { id } => self.ensure_date_exists(id.as_str(), now, log),
                Request::CreateNode { node } => self.create_node(node, log),
                Request::CreateNodeWithParent { params } => self.create_node_with_parent(
                    params,
                    fresh,
                    now,
                    log,
                ),
                Request::ComputeTitle { node, is_root } => self.compute_title(node, *is_root, log),
                Request::CreateParentEdge { child, parent, after } => self.create_parent_edge(
                    child.as_str(),
                    parent.as_str(),
                    borrow_optional(after),
                    log,
                ),
                Request::QueueRoot { id } => self.queue_root_for_embedding(id.as_str(), log),
                Request::SyncMentions { id, old_content, new_content } => self.sync_mentions(
                    id.as_str(),
                    old_content.as_str(),
                    new_content.as_str(),
                    log,
                ),
                Request::CreateMention { from, to } => self.create_mention(
                    from.as_str(),
                    to.as_str(),
                    log,
                ),
                Request::DeleteMention { from, to } => self.delete_mention(
                    from.as_str(),
                    to.as_str(),
                    log,
                ),
                Request::DeleteNode { id, expected_version } => self.delete_node(
                    id.as_str(),
                    *expected_version,
                    log,
                ),
                Request::ReorderChild { id, after } => self.reorder_child(
                    id.as_str(),
                    borrow_optional(after),
                    log,
                ),
                Request::BumpVersion { id, expected_version } => self.update_node_with_version_bump(
                    id.as_str(),
                    *expected_version,
                    log,
                ),
                Request::VersionedUpdate { id, expected_version, update } =>
                    self.update_with_version_check_returning_node(
                    id.as_str(),
                    *expected_version,
                    update,
                    log,
                ),
                Request::PopulateMentions { node } => self.populate_mentions(node, log),
                Request::IsEmbeddable { node_type } => self.is_embeddable_type(
                    node_type.as_str(),
                    now,
                    log,
                ),
                Request::ValidatePlaybook { properties } => self.validate_playbook_rules(
                    properties,
                    log,
                ),
                Request::QueryByType { node_type } => {
                    let filter = NodeFilter {
                        ids: None,
                        node_type: Some(node_type.clone()),
                        content_contains: None,
                        title_contains: None,
                        property_filters: None,
                        limit: None,
                        offset: None,
                    };
                    self.query_nodes(&filter, log)
                },
                Request::BulkCreateHierarchy { nodes } => self.bulk_create_hierarchy(
                    nodes,
                    now,
                    log,
                ),
                _ => {
                    return None;
                },
            },
        )
    }

    /// The reply that the end of an operation makes.
    pub fn reply_for(step: Step) -> (r: Option<Reply>)
        ensures
            optional_reply(r) == reply_of(step@),
    {
        match step {
            Step::Fail(error) => Some(Reply::Refused { error }),
            Step::Finish(outcome) => match outcome {
                Outcome::Nothing => Some(Reply::Done),
                Outcome::Id { id } => Some(Reply::Text { text: id }),
                Outcome::Title { title } => Some(Reply::MaybeText { text: title }),
                Outcome::Node { node } => Some(Reply::Node { node: Some(node) }),
                Outcome::MaybeNode { node } => Some(Reply::Node { node }),
                Outcome::Deleted { existed } => Some(Reply::Flag { value: existed }),
                Outcome::Flag { value } => Some(Reply::Flag { value }),
                Outcome::Nodes { nodes } => Some(Reply::Nodes { nodes }),
                Outcome::Ids { ids } => Some(Reply::Texts { items: ids }),
                Outcome::Content { text } => Some(Reply::MaybeText { text }),
                Outcome::Hits { hits } => Some(Reply::Hits { hits }),
                Outcome::References { items } => Some(Reply::References { items }),
                Outcome::Values { values } => Some(Reply::Values { values }),
                Outcome::Json { value } => Some(Reply::Json { value }),
                Outcome::MaybeJson { value } => Some(Reply::MaybeValue { value }),
                Outcome::Count { count } => Some(Reply::Count { value: count }),
                Outcome::Completeness { result: _ } => None,
                Outcome::Subtree { data: _ } => None,
            },
            _ => None,
        }
    }
}

/// The step asks the store to insert a node with the identifier.
pub open spec fn inserts(step: StepView, id: Seq<char>) -> bool {
    step matches StepView::Ask(request) && match request {
        RequestView::InsertNode { node } => node.id == id,
        RequestView::InsertSchemaNode { node } => node.id == id,
        _ => false,
    }
}

/// The operation made a request at a place of its replies that inserts the node, and it was done.
pub open spec fn inserted_at(
    op: spec_fn(Seq<ReplyView>) -> StepView,
    log: Seq<ReplyView>,
    id: Seq<char>,
    at: int,
) -> bool {
    0 <= at < log.len() && inserts(op(log.take(at)), id) && log[at] == ReplyView::Done
}

/// The node was created and is in the store: the creation ended well, and on the way the store
/// inserted it.
pub open spec fn was_stored(node: NodeView, id: Seq<char>) -> bool {
    exists|log: Seq<ReplyView>, at: int|
        create_next(node, log) == StepView::Finish(OutcomeView::Id { id }) && #[trigger] inserted_at(
            creating(node),
            log,
            id,
            at,
        )
}

/// The creation of a node, by its replies.
pub open spec fn creating(node: NodeView) -> spec_fn(Seq<ReplyView>) -> StepView {
    |log: Seq<ReplyView>| create_next(node, log)
}

/// The placing of a child, by its replies.
pub open spec fn placing(
    child: Seq<char>,
    parent: Seq<char>,
    after: Option<Seq<char>>,
) -> spec_fn(Seq<ReplyView>) -> StepView {
    |log: Seq<ReplyView>| edge_step(child, parent, after, log)
}

/// The creation of a node under a parent, by its replies.
pub open spec fn creating_under(
    params: CreateNodeParamsView,
    fresh: Seq<char>,
    now: i64,
) -> spec_fn(Seq<ReplyView>) -> StepView {
    |log: Seq<ReplyView>| create_with_parent_next(params, fresh, now, log)
}

/// The steps of putting a child under its parent.
pub open spec fn edge_step(
    child: Seq<char>,
    parent: Seq<char>,
    after: Option<Seq<char>>,
    log: Seq<ReplyView>,
) -> StepView {
    edge_next(child, parent, after, EDGE_ATTEMPTS as nat, Seq::empty(), log)
}

/// The operation asked the store at a place of its replies to put the child under the parent, and
/// the store gave it an order.
pub open spec fn moved_at(
    op: spec_fn(Seq<ReplyView>) -> StepView,
    log: Seq<ReplyView>,
    child: Seq<char>,
    parent: Seq<char>,
    after: Option<Seq<char>>,
    at: int,
) -> bool {
    0 <= at < log.len() && op(log.take(at)) == StepView::Ask(
        RequestView::StoreMove { id: child, parent: Some(parent), after },
    ) && log[at] is Order
}

/// The child was put under its parent: that ended well, and on the way the store did it.
pub open spec fn was_placed(child: Seq<char>, parent: Seq<char>, after: Option<Seq<char>>) -> bool {
    exists|log: Seq<ReplyView>, at: int|
        edge_step(child, parent, after, log) is Finish && #[trigger] moved_at(
            placing(child, parent, after),
            log,
            child,
            parent,
            after,
            at,
        )
}

/// What goes before some replies shifts the place at which a node was inserted.
proof fn lemma_inserted_later(
    op: spec_fn(Seq<ReplyView>) -> StepView,
    rest: spec_fn(Seq<ReplyView>) -> StepView,
    log: Seq<ReplyView>,
    n: int,
    id: Seq<char>,
    at: int,
)
    requires
        0 <= n <= log.len(),
        inserted_at(rest, log.skip(n), id, at),
        op(log.take(at + n)) == rest(log.take(at + n).skip(n)),
    ensures
        inserted_at(op, log, id, at + n),
{
    assert(log.take(at + n).skip(n) =~= log.skip(n).take(at));
}

proof fn lemma_playbook_inserts(node: NodeView, log: Seq<ReplyView>, id: Seq<char>) -> (at: int)
    requires
        create_playbook_next(node, log) == StepView::Finish(OutcomeView::Id { id }),
    ensures
        id == node.id,
        inserted_at(|l: Seq<ReplyView>| create_playbook_next(node, l), log, id, at),
{
    let rest = |l: Seq<ReplyView>| create_store_next(node, l);
    let op = |l: Seq<ReplyView>| create_playbook_next(node, l);
    if node.node_type == "playbook"@ {
        assert(inserted_at(rest, log.skip(1), id, 0));
        assert(log.take(1)[0] == log[0]);
        lemma_inserted_later(op, rest, log, 1, id, 0);
        1
    } else {
        assert(inserted_at(op, log, id, 0));
        0
    }
}

proof fn lemma_title_inserts(node: NodeView, log: Seq<ReplyView>, id: Seq<char>) -> (at: int)
    requires
        create_title_next(node, log) == StepView::Finish(OutcomeView::Id { id }),
    ensures
        id == node.id,
        inserted_at(|l: Seq<ReplyView>| create_title_next(node, l), log, id, at),
{
    let op = |l: Seq<ReplyView>| create_title_next(node, l);
    if node.title is Some {
        let at = lemma_playbook_inserts(node, log, id);
        assert(inserted_at(op, log, id, at));
        at
    } else {
        let titled = NodeView { title: log[0]->MaybeText_text, ..node };
        let rest = |l: Seq<ReplyView>| create_playbook_next(titled, l);
        let at = lemma_playbook_inserts(titled, log.skip(1), id);
        assert(log.take(at + 1)[0] == log[0]);
        lemma_inserted_later(op, rest, log, 1, id, at);
        at + 1
    }
}

proof fn lemma_prepare_inserts(node: NodeView, log: Seq<ReplyView>, id: Seq<char>) -> (at: int)
    requires
        create_prepare_next(node, log) == StepView::Finish(OutcomeView::Id { id }),
    ensures
        id == node.id,
        inserted_at(|l: Seq<ReplyView>| create_prepare_next(node, l), log, id, at),
{
    let op = |l: Seq<ReplyView>| create_prepare_next(node, l);
    if node.node_type == "task"@ {
        let schema = log[0]->Schema_schema;
        let fields = log[0]->Schema_fields;
        let prepared = if schema is Some && fields is Some {
            prepared_task(node, schema->Some_0, fields->Some_0)->Ok_0
        } else {
            node
        };
        let rest = |l: Seq<ReplyView>| create_title_next(prepared, l);
        let at = lemma_title_inserts(prepared, log.skip(1), id);
        assert(log.take(at + 1)[0] == log[0]);
        lemma_inserted_later(op, rest, log, 1, id, at);
        at + 1
    } else {
        let spaced = if node.node_type == "schema"@ {
            node
        } else {
            NodeView {
                properties: crate::properties::namespaced(
                    node.node_type,
                    node.properties,
                    Set::empty(),
                ),
                ..node
            }
        };
        let at = lemma_title_inserts(spaced, log, id);
        assert(inserted_at(op, log, id, at));
        at
    }
}

/// A creation that ends well has had the node inserted by the store, under its own identifier.
pub proof fn law_created_nodes_are_stored(node: NodeView, log: Seq<ReplyView>, id: Seq<char>)
    requires
        create_next(node, log) == StepView::Finish(OutcomeView::Id { id }),
    ensures
        id == node.id,
        was_stored(node, id),
{
    let dated = crate::create::with_date_type(node);
    let op = creating(node);
    let rest = |l: Seq<ReplyView>| create_prepare_next(dated, l);
    let at = lemma_prepare_inserts(dated, log.skip(1), id);
    assert(log.take(at + 1)[0] == log[0]);
    lemma_inserted_later(op, rest, log, 1, id, at);
}

proof fn lemma_edge_moves(
    child: Seq<char>,
    parent: Seq<char>,
    after: Option<Seq<char>>,
    attempts: nat,
    last: Seq<char>,
    log: Seq<ReplyView>,
) -> (at: int)
    requires
        edge_next(child, parent, after, attempts, last, log) is Finish,
    ensures
        moved_at(
            |l: Seq<ReplyView>| edge_next(child, parent, after, attempts, last, l),
            log,
            child,
            parent,
            after,
            at,
        ),
    decreases log.len(),
{
    let op = |l: Seq<ReplyView>| edge_next(child, parent, after, attempts, last, l);
    if log[0] is Order {
        assert(op(log.take(0)) == StepView::Ask(
            RequestView::StoreMove { id: child, parent: Some(parent), after },
        ));
        0
    } else {
        let message = log[0]->Failed_message;
        let fewer = (attempts - 1) as nat;
        let rest = log.skip(1).skip(1);
        let at = lemma_edge_moves(child, parent, after, fewer, message, rest);
        let head = log.take(at + 2);
        assert(head[0] == log[0]);
        assert(head.skip(1)[0] == log.skip(1)[0]);
        assert(head.skip(1).skip(1) =~= rest.take(at));
        assert(op(head) == edge_next(child, parent, after, fewer, message, rest.take(at)));
        at + 2
    }
}

/// Putting a child under its parent ends well only after the store did so.
pub proof fn law_placed_children_are_moved(
    child: Seq<char>,
    parent: Seq<char>,
    after: Option<Seq<char>>,
    log: Seq<ReplyView>,
)
    requires
        edge_step(child, parent, after, log) is Finish,
    ensures
        was_placed(child, parent, after),
{
    let at = lemma_edge_moves(child, parent, after, EDGE_ATTEMPTS as nat, Seq::empty(), log);
    let op = placing(child, parent, after);
    assert(moved_at(op, log, child, parent, after, at));
}

/// The operation asked for the node to be created and was told its identifier, and later asked for it
/// to be put under the parent, which was done.
pub open spec fn makes_child(
    op: spec_fn(Seq<ReplyView>) -> StepView,
    log: Seq<ReplyView>,
    parent: Seq<char>,
    id: Seq<char>,
    create: int,
    place: int,
) -> bool {
    &&& 0 <= create < place < log.len()
    &&& op(log.take(create)) matches StepView::Ask(RequestView::CreateNode { node: _ })
    &&& log[create] == (ReplyView::Text { text: id })
    &&& op(log.take(place)) matches StepView::Ask(
        RequestView::CreateParentEdge { child, parent: above, after: _ },
    ) && child == id && above == parent
    &&& log[place] == ReplyView::Done
}

proof fn lemma_makes_child_later(
    op: spec_fn(Seq<ReplyView>) -> StepView,
    rest: spec_fn(Seq<ReplyView>) -> StepView,
    log: Seq<ReplyView>,
    n: int,
    parent: Seq<char>,
    id: Seq<char>,
    create: int,
    place: int,
)
    requires
        0 <= n <= log.len(),
        makes_child(rest, log.skip(n), parent, id, create, place),
        op(log.take(create + n)) == rest(log.take(create + n).skip(n)),
        op(log.take(place + n)) == rest(log.take(place + n).skip(n)),
    ensures
        makes_child(op, log, parent, id, create + n, place + n),
{
    assert(log.take(create + n).skip(n) =~= log.skip(n).take(create));
    assert(log.take(place + n).skip(n) =~= log.skip(n).take(place));
}

proof fn lemma_new_node_makes_child(
    params: CreateNodeParamsView,
    fresh: Seq<char>,
    now: i64,
    after: Option<Seq<char>>,
    log: Seq<ReplyView>,
    parent: Seq<char>,
    id: Seq<char>,
)
    requires
        params.parent_id == Some(parent),
        new_node_next(params, fresh, now, after, log) == StepView::Finish(OutcomeView::Id { id }),
    ensures
        makes_child(
            |l: Seq<ReplyView>| new_node_next(params, fresh, now, after, l),
            log,
            parent,
            id,
            1,
            2,
        ),
{
    let op = |l: Seq<ReplyView>| new_node_next(params, fresh, now, after, l);
    assert(log.skip(1)[0] == log[1]);
    assert(log.skip(1).skip(1)[0] == log[2]);
    assert(log.take(1)[0] == log[0]);
    assert(log.take(2)[0] == log[0]);
    assert(log.take(2).skip(1)[0] == log[1]);
    assert(op(log.take(1)) matches StepView::Ask(RequestView::CreateNode { node: _ }));
    assert(op(log.take(2)) matches StepView::Ask(
        RequestView::CreateParentEdge { child, parent: above, after: _ },
    ) && child == id && above == parent);
}

proof fn lemma_append_makes_child(
    params: CreateNodeParamsView,
    fresh: Seq<char>,
    now: i64,
    log: Seq<ReplyView>,
    parent: Seq<char>,
    id: Seq<char>,
)
    requires
        params.parent_id == Some(parent),
        append_next(params, fresh, now, log) == StepView::Finish(OutcomeView::Id { id }),
    ensures
        makes_child(
            |l: Seq<ReplyView>| append_next(params, fresh, now, l),
            log,
            parent,
            id,
            2,
            3,
        ),
{
    let nodes = log[0]->Nodes_nodes;
    let after = if nodes.len() > 0 {
        Some(nodes.last().id)
    } else {
        None
    };
    let op = |l: Seq<ReplyView>| append_next(params, fresh, now, l);
    let rest = |l: Seq<ReplyView>| new_node_next(params, fresh, now, after, l);
    lemma_new_node_makes_child(params, fresh, now, after, log.skip(1), parent, id);
    assert(log.take(2)[0] == log[0]);
    assert(log.take(3)[0] == log[0]);
    lemma_makes_child_later(op, rest, log, 1, parent, id, 1, 2);
}

proof fn lemma_check_makes_child(
    params: CreateNodeParamsView,
    fresh: Seq<char>,
    now: i64,
    sibling: Seq<char>,
    attempts: nat,
    log: Seq<ReplyView>,
    parent: Seq<char>,
    id: Seq<char>,
) -> (at: int)
    requires
        params.parent_id == Some(parent),
        sibling_check_next(params, fresh, now, sibling, attempts, log) == StepView::Finish(
            OutcomeView::Id { id },
        ),
    ensures
        makes_child(
            |l: Seq<ReplyView>| sibling_check_next(params, fresh, now, sibling, attempts, l),
            log,
            parent,
            id,
            at,
            at + 1,
        ),
    decreases log.len(),
{
    let op = |l: Seq<ReplyView>| sibling_check_next(params, fresh, now, sibling, attempts, l);
    if attempts == 0 {
        lemma_append_makes_child(params, fresh, now, log, parent, id);
        let rest = |l: Seq<ReplyView>| append_next(params, fresh, now, l);
        assert(makes_child(rest, log, parent, id, 2, 3));
        assert(makes_child(op, log, parent, id, 2, 3));
        2
    } else {
        let fewer = (attempts - 1) as nat;
        let again = |l: Seq<ReplyView>| sibling_check_next(params, fresh, now, sibling, fewer, l);
        let one = log.skip(1);
        let two = one.skip(1);
        if log[0] matches ReplyView::Node { node: Some(_) } {
            let found = one[0] matches ReplyView::Node { node } && (match node {
                Some(above) => Some(above.id),
                None => None,
            }) == params.parent_id;
            if found {
                let rest = |l: Seq<ReplyView>| new_node_next(params, fresh, now, Some(sibling), l);
                lemma_new_node_makes_child(params, fresh, now, Some(sibling), two, parent, id);
                assert(two =~= log.skip(2));
                assert forall|k: int| 2 <= k <= log.len() implies #[trigger] op(log.take(k)) == rest(
                    log.take(k).skip(2),
                ) by {
                    let head = log.take(k);
                    assert(head[0] == log[0]);
                    assert(head.skip(1)[0] == one[0]);
                    assert(head.skip(1).skip(1) =~= head.skip(2));
                }
                lemma_makes_child_later(op, rest, log, 2, parent, id, 1, 2);
                3
            } else {
                assert(sibling_pause_next(params, fresh, now, sibling, attempts, two)
                    == sibling_check_next(params, fresh, now, sibling, fewer, two.skip(1)));
                let at = lemma_check_makes_child(
                    params,
                    fresh,
                    now,
                    sibling,
                    fewer,
                    two.skip(1),
                    parent,
                    id,
                );
                assert(two.skip(1) =~= log.skip(3));
                assert forall|k: int| 3 <= k <= log.len() implies #[trigger] op(log.take(k))
                    == again(log.take(k).skip(3)) by {
                    let head = log.take(k);
                    assert(head[0] == log[0]);
                    assert(head.skip(1)[0] == one[0]);
                    assert(head.skip(1).skip(1)[0] == two[0]);
                    assert(head.skip(1).skip(1).skip(1) =~= head.skip(3));
                    assert(sibling_pause_next(
                        params,
                        fresh,
                        now,
                        sibling,
                        attempts,
                        head.skip(1).skip(1),
                    ) == again(head.skip(3)));
                }
                lemma_makes_child_later(op, again, log, 3, parent, id, at, at + 1);
                at + 3
            }
        } else {
            assert(sibling_pause_next(params, fresh, now, sibling, attempts, one)
                == sibling_check_next(params, fresh, now, sibling, fewer, two));
            let at = lemma_check_makes_child(params, fresh, now, sibling, fewer, two, parent, id);
            assert(two =~= log.skip(2));
            assert forall|k: int| 2 <= k <= log.len() implies #[trigger] op(log.take(k)) == again(
                log.take(k).skip(2),
            ) by {
                let head = log.take(k);
                assert(head[0] == log[0]);
                assert(head.skip(1)[0] == one[0]);
                assert(head.skip(1).skip(1) =~= head.skip(2));
                assert(sibling_pause_next(params, fresh, now, sibling, attempts, head.skip(1))
                    == again(head.skip(2)));
            }
            lemma_makes_child_later(op, again, log, 2, parent, id, at, at + 1);
            at + 2
        }
    }
}

proof fn lemma_hint_makes_child(
    params: CreateNodeParamsView,
    fresh: Seq<char>,
    now: i64,
    log: Seq<ReplyView>,
    parent: Seq<char>,
    id: Seq<char>,
) -> (at: int)
    requires
        params.parent_id == Some(parent),
        sibling_hint_next(params, fresh, now, log) == StepView::Finish(OutcomeView::Id { id }),
    ensures
        makes_child(
            |l: Seq<ReplyView>| sibling_hint_next(params, fresh, now, l),
            log,
            parent,
            id,
            at,
            at + 1,
        ),
{
    let op = |l: Seq<ReplyView>| sibling_hint_next(params, fresh, now, l);
    match params.insert_after_node_id {
        None => {
            lemma_new_node_makes_child(params, fresh, now, None, log, parent, id);
            let rest = |l: Seq<ReplyView>| new_node_next(params, fresh, now, None, l);
            assert(makes_child(rest, log, parent, id, 1, 2));
            assert(makes_child(op, log, parent, id, 1, 2));
            1
        },
        Some(sibling) => {
            let attempts = SIBLING_ATTEMPTS as nat;
            let at = lemma_check_makes_child(
                params,
                fresh,
                now,
                sibling,
                attempts,
                log,
                parent,
                id,
            );
            let rest = |l: Seq<ReplyView>|
                sibling_check_next(params, fresh, now, sibling, attempts, l);
            assert(makes_child(rest, log, parent, id, at, at + 1));
            assert(makes_child(op, log, parent, id, at, at + 1));
            at
        },
    }
}

/// The node that an operation asked to create at a place of its replies.
pub open spec fn asked_node(op: spec_fn(Seq<ReplyView>) -> StepView, log: Seq<ReplyView>, at: int) -> NodeView {
    match op(log.take(at)) {
        StepView::Ask(RequestView::CreateNode { node }) => node,
        _ => arbitrary(),
    }
}

/// The sibling after which an operation asked to put a child at a place of its replies.
pub open spec fn asked_sibling(
    op: spec_fn(Seq<ReplyView>) -> StepView,
    log: Seq<ReplyView>,
    at: int,
) -> Option<Seq<char>> {
    match op(log.take(at)) {
        StepView::Ask(RequestView::CreateParentEdge { child: _, parent: _, after }) => after,
        _ => None,
    }
}

/// A node created under a parent is stored and then put under that parent: where the creation ends
/// well, the operations that it asked for made the store insert the node first and move it under the
/// parent next.
pub proof fn law_new_children_are_stored_and_placed(
    params: CreateNodeParamsView,
    fresh: Seq<char>,
    now: i64,
    parent: Seq<char>,
    log: Seq<ReplyView>,
    id: Seq<char>,
)
    requires
        params.parent_id == Some(parent),
        create_with_parent_next(params, fresh, now, log) == StepView::Finish(
            OutcomeView::Id { id },
        ),
        answered(creating_under(params, fresh, now), log),
    ensures
        exists|create: int, place: int|
            {
                let op = creating_under(params, fresh, now);
                &&& #[trigger] makes_child(
                    creating_under(params, fresh, now),
                    log,
                    parent,
                    id,
                    create,
                    place,
                )
                &&& asked_node(op, log, create).id == id
                &&& asked_node(op, log, create).content == params.content
                &&& was_stored(asked_node(op, log, create), id)
                &&& was_placed(id, parent, asked_sibling(op, log, place))
            },
{
    let op = creating_under(params, fresh, now);
    let rest = |l: Seq<ReplyView>| sibling_hint_next(params, fresh, now, l);
    assert(log.skip(1).skip(1) =~= log.skip(2));
    let inner = lemma_hint_makes_child(params, fresh, now, log.skip(2), parent, id);
    assert forall|k: int| 2 <= k <= log.len() implies #[trigger] op(log.take(k)) == rest(
        log.take(k).skip(2),
    ) by {
        let head = log.take(k);
        assert(head[0] == log[0]);
        assert(head.skip(1)[0] == log.skip(1)[0]);
        assert(head.skip(1).skip(1) =~= head.skip(2));
    }
    lemma_makes_child_later(op, rest, log, 2, parent, id, inner, inner + 1);
    let create = inner + 2;
    let place = inner + 3;
    assert(makes_child(op, log, parent, id, create, place));
    let node = asked_node(op, log, create);
    let after = asked_sibling(op, log, place);
    assert(can_answer(RequestView::CreateNode { node }, log[create]));
    let (t1, f1, l1) = choose|t: i64, f: Seq<char>, l: Seq<ReplyView>|
        ends_with(#[trigger] own_step(RequestView::CreateNode { node }, t, f, l), log[create]);
    assert(reply_of(create_next(node, l1)) == Some(ReplyView::Text { text: id }));
    law_created_nodes_are_stored(node, l1, id);
    let edge = RequestView::CreateParentEdge { child: id, parent, after };
    assert(can_answer(edge, log[place]));
    let (t2, f2, l2) = choose|t: i64, f: Seq<char>, l: Seq<ReplyView>|
        ends_with(#[trigger] own_step(edge, t, f, l), log[place]);
    assert(reply_of(edge_step(id, parent, after, l2)) == Some(ReplyView::Done));
    law_placed_children_are_moved(id, parent, after, l2);
    crate::create::law_children_need_a_parent(params, fresh, now, parent, log.take(create));
}

} // verus!
