//! Operations on many nodes at once.
//!
//! All nodes are checked before the first is stored.

use crate::error::{ErrorView, NodeServiceError};
use crate::hierarchy::optional_str;
use crate::json::Json;
use crate::mentions::{distinct, push_new};
use crate::node::{
    bulk_views, clone_bulk_nodes, clone_nodes, clone_texts, clone_updates, fields_view, node_views,
    texts, update_views, BulkNode, BulkNodeView, Node, NodeUpdate, NodeUpdateView, NodeView,
    SchemaField, SchemaFieldView,
};
use crate::properties::{field_names, namespaced};
use crate::protocol::{
    group_replies, replies, replies_from, Outcome, OutcomeView, Reply, ReplyView, Request,
    RequestView, Step, StepView,
};
use crate::reading::{make_node, plain_node};
use crate::schema::first_error;
use crate::service::NodeService;
use crate::text::same_text;
use vstd::prelude::*;
use vstd::string::*;

verus! {

broadcast use group_replies;

pub open spec fn finished_ids(ids: Seq<Seq<char>>) -> StepView {
    StepView::Finish(OutcomeView::Ids { ids })
}

/// The creation of several nodes.
pub open spec fn bulk_create_next(nodes: Seq<NodeView>, log: Seq<ReplyView>) -> StepView {
    if nodes.len() == 0 {
        finished_ids(Seq::empty())
    } else {
        bulk_behavior_next(nodes, nodes, log)
    }
}

/// The checks of the nodes that are left.
pub open spec fn bulk_behavior_next(
    left: Seq<NodeView>,
    all: Seq<NodeView>,
    log: Seq<ReplyView>,
) -> StepView
    decreases left.len(), 1nat,
{
    if left.len() == 0 {
        bulk_insert_next(all, log)
    } else if log.len() == 0 {
        StepView::Ask(RequestView::ValidateBehavior { node: left[0] })
    } else {
        match log[0] {
            ReplyView::Refused { error } => StepView::Fail(error),
            ReplyView::Done => bulk_schema_next(left, all, log.skip(1)),
            _ => StepView::Mismatch,
        }
    }
}

pub open spec fn bulk_schema_next(
    left: Seq<NodeView>,
    all: Seq<NodeView>,
    log: Seq<ReplyView>,
) -> StepView
    decreases left.len(), 0nat,
{
    if left.len() == 0 {
        StepView::Mismatch
    } else if left[0].node_type == "schema"@ {
        bulk_behavior_next(left.skip(1), all, log)
    } else if log.len() == 0 {
        StepView::Ask(RequestView::LoadSchema { node_type: left[0].node_type })
    } else {
        match log[0] {
            ReplyView::Failed { message } => StepView::Fail(ErrorView::QueryFailed(message)),
            ReplyView::Schema { schema, fields } => match schema_error(left[0], schema, fields) {
                Some(message) => StepView::Fail(ErrorView::InvalidUpdate(message)),
                None => bulk_behavior_next(left.skip(1), all, log.skip(1)),
            },
            _ => StepView::Mismatch,
        }
    }
}

/// What is wrong with a node under the schema of its type. Where there is no schema, or its fields
/// cannot be read, nothing is.
pub open spec fn schema_error(
    node: NodeView,
    schema: Option<Json>,
    fields: Option<Seq<SchemaFieldView>>,
) -> Option<Seq<char>> {
    match (schema, fields) {
        (Some(_), Some(f)) => first_error(node, f),
        _ => None,
    }
}

pub open spec fn ids_of(nodes: Seq<NodeView>) -> Seq<Seq<char>> {
    nodes.map_values(|n: NodeView| n.id)
}

pub open spec fn bulk_insert_next(all: Seq<NodeView>, log: Seq<ReplyView>) -> StepView {
    if log.len() == 0 {
        StepView::Ask(RequestView::StoreBatch { nodes: all })
    } else {
        match log[0] {
            ReplyView::Failed { message } => StepView::Fail(ErrorView::QueryFailed(message)),
            ReplyView::Nodes { nodes: _ } => finished_ids(ids_of(all)),
            _ => StepView::Mismatch,
        }
    }
}

pub fn collect_ids(nodes: &Vec<Node>) -> (r: Vec<String>)
    ensures
        texts(r@) == ids_of(node_views(nodes@)),
{
    let mut out: Vec<String> = Vec::new();
    let mut i: usize = 0;
    while i < nodes.len()
        invariant
            i <= nodes@.len(),
            out@.len() == i,
            forall|j: int| 0 <= j < i ==> (#[trigger] out@[j])@ == nodes@[j].id@,
        decreases nodes@.len() - i,
    {
        out.push(nodes[i].id.clone());
        i += 1;
    }
    proof {
        assert(texts(out@) =~= ids_of(node_views(nodes@)));
    }
    out
}

fn no_ids() -> (r: Step)
    ensures
        r@ == finished_ids(Seq::empty()),
{
    let ids: Vec<String> = Vec::new();
    proof {
        assert(texts(ids@) =~= Seq::empty());
    }
    Step::Finish(Outcome::Ids { ids })
}

impl NodeService {
    /// Creates several nodes in one transaction. Their identifiers come back in the order of the
    /// nodes.
    pub fn bulk_create(&self, nodes: &Vec<Node>, log: &Vec<Reply>) -> (r: Step)
        ensures
            r@ == bulk_create_next(node_views(nodes@), replies(log@)),
    {
        if nodes.len() == 0 {
            return no_ids();
        }
        let ghost all = node_views(nodes@);
        let ghost want = bulk_create_next(all, replies(log@));
        let mut at: usize = 0;
        let mut i: usize = 0;
        proof {
            assert(all.skip(0) =~= all);
        }
        while i < nodes.len()
            invariant
                i <= nodes@.len() == all.len(),
                at <= log@.len(),
                want == bulk_behavior_next(all.skip(i as int), all, replies_from(log@, at as int)),
            decreases nodes@.len() - i,
        {
            let ghost left = all.skip(i as int);
            proof {
                assert(left[0] == nodes@[i as int]@);
                assert(left.skip(1) =~= all.skip(i + 1));
            }
            if at >= log.len() {
                return Step::Ask(Request::ValidateBehavior { node: (&nodes[i]).clone() });
            }
            match &log[at] {
                Reply::Refused { error } => {
                    return Step::Fail(error.clone());
                },
                Reply::Done => {},
                _ => {
                    return Step::Mismatch;
                },
            }
            at += 1;
            proof {
                assert(want == bulk_schema_next(left, all, replies_from(log@, at as int)));
            }
            if !same_text(nodes[i].node_type.as_str(), "schema") {
                if at >= log.len() {
                    return Step::Ask(Request::LoadSchema { node_type: nodes[i].node_type.clone() });
                }
                match &log[at] {
                    Reply::Failed { message } => {
                        return Step::Fail(NodeServiceError::QueryFailed(message.clone()));
                    },
                    Reply::Schema { schema: Some(_), fields: Some(fields) } => {
                        match self.validate_node_with_fields(&nodes[i], fields) {
                            Err(e) => {
                                return Step::Fail(e);
                            },
                            Ok(()) => {},
                        }
                    },
                    Reply::Schema { schema: _, fields: _ } => {},
                    _ => {
                        return Step::Mismatch;
                    },
                }
                at += 1;
            }
            i += 1;
        }
        if at >= log.len() {
            return Step::Ask(Request::StoreBatch { nodes: clone_nodes(nodes) });
        }
        match &log[at] {
            Reply::Failed { message } => Step::Fail(NodeServiceError::QueryFailed(message.clone())),
            Reply::Nodes { nodes: _ } => Step::Finish(Outcome::Ids { ids: collect_ids(nodes) }),
            _ => Step::Mismatch,
        }
    }
}

/// How an import treats its nodes.
#[derive(Clone, Copy, Debug, PartialEq, Eq, Structural)]
pub enum ImportKind {
    /// Schemas check the nodes, and every node is announced.
    Announced,
    /// Schemas check the nodes, and only the root is announced.
    RootAnnounced,
    /// The source is trusted: no schema is asked, and only the root is announced.
    Trusted,
}

/// The types of some nodes, each once, without the type of schemas.
pub open spec fn types_of(nodes: Seq<BulkNodeView>) -> Seq<Seq<char>> {
    distinct(nodes.map_values(|n: BulkNodeView| n.node_type)).filter(|t: Seq<char>| t != "schema"@)
}

/// The position of the first text that equals another, or the number of texts.
pub open spec fn index_in(list: Seq<Seq<char>>, text: Seq<char>) -> int
    decreases list.len(),
{
    if list.len() == 0 {
        0
    } else if index_in(list.drop_last(), text) < list.len() - 1 {
        index_in(list.drop_last(), text)
    } else if list.last() == text {
        list.len() - 1
    } else {
        list.len() as int
    }
}

/// The fields of a type, where `schemas` holds the replies to the questions for `types`.
pub open spec fn fields_for(
    types: Seq<Seq<char>>,
    schemas: Seq<ReplyView>,
    node_type: Seq<char>,
) -> Option<Seq<SchemaFieldView>> {
    let at = index_in(types, node_type);
    if at < types.len() && at < schemas.len() {
        match schemas[at] {
            ReplyView::Schema { schema: Some(_), fields } => fields,
            _ => None,
        }
    } else {
        None
    }
}

/// A node of an import with its properties in storage form.
pub open spec fn normalized(
    types: Seq<Seq<char>>,
    schemas: Seq<ReplyView>,
    node: BulkNodeView,
) -> BulkNodeView {
    BulkNodeView {
        properties: namespaced(
            node.node_type,
            node.properties,
            field_names(fields_for(types, schemas, node.node_type)),
        ),
        ..node
    }
}

/// An import that is under way.
#[verifier::ext_equal]
pub struct ImportView {
    pub nodes: Seq<BulkNodeView>,
    pub types: Seq<Seq<char>>,
    pub schemas: Seq<ReplyView>,
    pub kind: ImportKind,
    pub now: i64,
}

/// The types whose schemas an import asks for.
pub open spec fn import_types(nodes: Seq<BulkNodeView>, kind: ImportKind) -> Seq<Seq<char>> {
    if kind == ImportKind::Trusted {
        Seq::empty()
    } else {
        types_of(nodes)
    }
}

/// The import of nodes with their places in the tree.
pub open spec fn import_next(
    nodes: Seq<BulkNodeView>,
    kind: ImportKind,
    now: i64,
    log: Seq<ReplyView>,
) -> StepView {
    if nodes.len() == 0 {
        finished_ids(Seq::empty())
    } else {
        import_schemas_next(nodes, import_types(nodes, kind), kind, now, 0, log)
    }
}

/// The schema of each type is asked for once.
pub open spec fn import_schemas_next(
    nodes: Seq<BulkNodeView>,
    types: Seq<Seq<char>>,
    kind: ImportKind,
    now: i64,
    k: nat,
    log: Seq<ReplyView>,
) -> StepView
    decreases types.len() - k,
{
    if k >= types.len() {
        import_check_next(
            ImportView {
                nodes: nodes.map_values(
                    |n: BulkNodeView| normalized(types, log.take(k as int), n),
                ),
                types,
                schemas: log.take(k as int),
                kind,
                now,
            },
            0,
            log.skip(k as int),
        )
    } else if log.len() <= k {
        StepView::Ask(RequestView::LoadSchema { node_type: types[k as int] })
    } else {
        match log[k as int] {
            ReplyView::Failed { message } => StepView::Fail(ErrorView::QueryFailed(message)),
            ReplyView::Schema { schema: _, fields: _ } => import_schemas_next(
                nodes,
                types,
                kind,
                now,
                k + 1,
                log,
            ),
            _ => StepView::Mismatch,
        }
    }
}

/// A node of an import as it is checked.
pub open spec fn candidate(node: BulkNodeView, now: i64) -> NodeView {
    plain_node(node.id, node.node_type, node.content, node.properties, now)
}

/// The checks of the nodes from position `i` on.
pub open spec fn import_check_next(job: ImportView, i: nat, log: Seq<ReplyView>) -> StepView
    decreases job.nodes.len() - i,
{
    if i >= job.nodes.len() {
        if job.kind == ImportKind::Trusted {
            import_roots_next(job, 0, Seq::empty(), log)
        } else {
            import_root_next(job, log)
        }
    } else if log.len() == 0 {
        StepView::Ask(
            RequestView::ValidateBehavior { node: candidate(job.nodes[i as int], job.now) },
        )
    } else {
        match log[0] {
            ReplyView::Refused { error } => StepView::Fail(error),
            ReplyView::Done => match import_error(job, job.nodes[i as int]) {
                Some(message) => StepView::Fail(ErrorView::InvalidUpdate(message)),
                None => import_check_next(job, i + 1, log.skip(1)),
            },
            _ => StepView::Mismatch,
        }
    }
}

pub open spec fn import_error(job: ImportView, node: BulkNodeView) -> Option<Seq<char>> {
    if node.node_type == "schema"@ {
        None
    } else {
        match fields_for(job.types, job.schemas, node.node_type) {
            Some(fields) => first_error(candidate(node, job.now), fields),
            None => None,
        }
    }
}

/// The root above the parent of the first node. That it is not found does not matter.
pub open spec fn import_root_next(job: ImportView, log: Seq<ReplyView>) -> StepView {
    match job.nodes[0].parent_id {
        None => import_store_next(job, None, log),
        Some(parent) => if log.len() == 0 {
            StepView::Ask(RequestView::GetRoot { id: parent })
        } else {
            match log[0] {
                ReplyView::Text { text } => import_store_next(job, Some(text), log.skip(1)),
                ReplyView::Refused { error: _ } => import_store_next(job, None, log.skip(1)),
                _ => StepView::Mismatch,
            }
        },
    }
}

pub open spec fn import_store_next(
    job: ImportView,
    root: Option<Seq<char>>,
    log: Seq<ReplyView>,
) -> StepView {
    if log.len() == 0 {
        StepView::Ask(
            RequestView::StoreHierarchy {
                nodes: job.nodes,
                root_only: job.kind != ImportKind::Announced,
            },
        )
    } else {
        match log[0] {
            ReplyView::Failed { message } => StepView::Fail(ErrorView::QueryFailed(message)),
            ReplyView::Texts { items } => import_queue_next(items, root, log.skip(1)),
            _ => StepView::Mismatch,
        }
    }
}

pub open spec fn import_queue_next(
    ids: Seq<Seq<char>>,
    root: Option<Seq<char>>,
    log: Seq<ReplyView>,
) -> StepView {
    match root {
        None => finished_ids(ids),
        Some(root_id) => if log.len() == 0 {
            StepView::Ask(RequestView::QueueRoot { id: root_id })
        } else {
            match log[0] {
                ReplyView::Done => finished_ids(ids),
                _ => StepView::Mismatch,
            }
        },
    }
}

/// The roots among the nodes whose type can be embedded.
pub open spec fn import_roots_next(
    job: ImportView,
    i: nat,
    roots: Seq<Seq<char>>,
    log: Seq<ReplyView>,
) -> StepView
    decreases job.nodes.len() - i,
{
    if i >= job.nodes.len() {
        import_trusted_store_next(job, roots, log)
    } else if job.nodes[i as int].parent_id is Some {
        import_roots_next(job, i + 1, roots, log)
    } else if log.len() == 0 {
        StepView::Ask(RequestView::IsEmbeddable { node_type: job.nodes[i as int].node_type })
    } else {
        match log[0] {
            ReplyView::Flag { value } => import_roots_next(
                job,
                i + 1,
                if value {
                    roots.push(job.nodes[i as int].id)
                } else {
                    roots
                },
                log.skip(1),
            ),
            _ => StepView::Mismatch,
        }
    }
}

pub open spec fn import_trusted_store_next(
    job: ImportView,
    roots: Seq<Seq<char>>,
    log: Seq<ReplyView>,
) -> StepView {
    if log.len() == 0 {
        StepView::Ask(RequestView::StoreHierarchy { nodes: job.nodes, root_only: true })
    } else {
        match log[0] {
            ReplyView::Failed { message } => StepView::Fail(ErrorView::QueryFailed(message)),
            ReplyView::Texts { items } => if roots.len() == 0 {
                finished_ids(items)
            } else {
                import_markers_next(items, roots, log.skip(1))
            },
            _ => StepView::Mismatch,
        }
    }
}

/// The markers of the new roots. That they cannot be created does not matter.
pub open spec fn import_markers_next(
    ids: Seq<Seq<char>>,
    roots: Seq<Seq<char>>,
    log: Seq<ReplyView>,
) -> StepView {
    if log.len() == 0 {
        StepView::Ask(RequestView::CreateStaleMarkers { ids: roots })
    } else {
        match log[0] {
            ReplyView::Failed { message: _ } => finished_ids(ids),
            ReplyView::Count { value: _ } => import_wake_next(ids, log.skip(1)),
            _ => StepView::Mismatch,
        }
    }
}

pub open spec fn import_wake_next(ids: Seq<Seq<char>>, log: Seq<ReplyView>) -> StepView {
    if log.len() == 0 {
        StepView::Ask(RequestView::WakeEmbedder)
    } else {
        match log[0] {
            ReplyView::Done => finished_ids(ids),
            _ => StepView::Mismatch,
        }
    }
}

fn collect_types(nodes: &Vec<BulkNode>) -> (r: Vec<String>)
    ensures
        texts(r@) == types_of(bulk_views(nodes@)),
{
    let ghost all = bulk_views(nodes@).map_values(|n: BulkNodeView| n.node_type);
    let mut seen: Vec<String> = Vec::new();
    proof {
        assert(texts(seen@) =~= Seq::empty());
        assert(all.take(0) =~= Seq::empty());
    }
    let mut i: usize = 0;
    while i < nodes.len()
        invariant
            i <= nodes@.len() == all.len(),
            texts(seen@).no_duplicates(),
            texts(seen@) == distinct(all.take(i as int)),
        decreases nodes@.len() - i,
    {
        proof {
            assert(all.take(i + 1).drop_last() =~= all.take(i as int));
            assert(all.take(i + 1).last() == nodes@[i as int].node_type@);
        }
        push_new(&mut seen, nodes[i].node_type.as_str());
        i += 1;
    }
    proof {
        assert(all.take(all.len() as int) =~= all);
        reveal(Seq::filter);
    }
    let ghost keep = |t: Seq<char>| t != "schema"@;
    let ghost every = texts(seen@);
    let mut out: Vec<String> = Vec::new();
    proof {
        assert(texts(out@) =~= every.take(0).filter(keep));
    }
    let mut k: usize = 0;
    while k < seen.len()
        invariant
            k <= seen@.len() == every.len(),
            texts(out@) == every.take(k as int).filter(keep),
        decreases seen@.len() - k,
    {
        proof {
            reveal(Seq::filter);
            assert(every.take(k + 1).drop_last() =~= every.take(k as int));
            assert(every.take(k + 1).last() == seen@[k as int]@);
        }
        if !same_text(seen[k].as_str(), "schema") {
            let ghost before = texts(out@);
            out.push(seen[k].clone());
            proof {
                assert(texts(out@) =~= before.push(seen@[k as int]@));
            }
        }
        k += 1;
    }
    proof {
        assert(every.take(every.len() as int) =~= every);
    }
    out
}

pub fn find_index(list: &Vec<String>, text: &str) -> (r: usize)
    ensures
        r == index_in(texts(list@), text@),
        r <= list@.len(),
{
    let ghost all = texts(list@);
    let mut i: usize = 0;
    while i < list.len()
        invariant
            i <= list@.len() == all.len(),
            index_in(all.take(i as int), text@) == i,
        decreases list@.len() - i,
    {
        proof {
            assert(all.take(i + 1).drop_last() =~= all.take(i as int));
            assert(all.take(i + 1).last() == list@[i as int]@);
        }
        if same_text(list[i].as_str(), text) {
            proof {
                lemma_index_stays(all, text@, i + 1);
            }
            return i;
        }
        i += 1;
    }
    proof {
        assert(all.take(all.len() as int) =~= all);
    }
    i
}

proof fn lemma_index_stays(list: Seq<Seq<char>>, text: Seq<char>, n: int)
    requires
        0 <= n <= list.len(),
        index_in(list.take(n), text) < n,
    ensures
        index_in(list, text) == index_in(list.take(n), text),
    decreases list.len() - n,
{
    if n < list.len() {
        assert(list.take(n + 1).drop_last() =~= list.take(n));
        lemma_index_stays(list, text, n + 1);
    } else {
        assert(list.take(n) =~= list);
    }
}

fn find_fields<'a>(types: &Vec<String>, log: &'a Vec<Reply>, node_type: &str) -> (r: Option<
    &'a Vec<SchemaField>,
>)
    requires
        types@.len() <= log@.len(),
    ensures
        (match r {
            Some(f) => Some(fields_view(f@)),
            None => None,
        }) == fields_for(texts(types@), replies(log@).take(types@.len() as int), node_type@),
{
    let at = find_index(types, node_type);
    if at < types.len() {
        match &log[at] {
            Reply::Schema { schema: Some(_), fields: Some(fields) } => Some(fields),
            _ => None,
        }
    } else {
        None
    }
}

/// An import that is under way.
struct Import<'a> {
    nodes: Vec<BulkNode>,
    types: Vec<String>,
    log: &'a Vec<Reply>,
    kind: ImportKind,
    now: i64,
}

impl<'a> View for Import<'a> {
    type V = ImportView;

    closed spec fn view(&self) -> ImportView {
        ImportView {
            nodes: bulk_views(self.nodes@),
            types: texts(self.types@),
            schemas: replies(self.log@).take(self.types@.len() as int),
            kind: self.kind,
            now: self.now,
        }
    }
}

impl<'a> Import<'a> {
    fn check(&self, service: &NodeService, from: usize) -> (r: Step)
        requires
            self@.nodes.len() > 0,
            self.types@.len() <= from <= self.log@.len(),
        ensures
            r@ == import_check_next(self@, 0, replies_from(self.log@, from as int)),
    {
        let ghost job = self@;
        let log = self.log;
        let ghost want = import_check_next(job, 0, replies_from(log@, from as int));
        let mut at: usize = from;
        let mut i: usize = 0;
        while i < self.nodes.len()
            invariant
                i <= self.nodes@.len() == job.nodes.len(),
                at <= log@.len(),
                want == import_check_next(job, i as nat, replies_from(log@, at as int)),
            decreases self.nodes@.len() - i,
        {
            let entry = &self.nodes[i];
            proof {
                assert(job.nodes[i as int] == entry@);
            }
            let node = make_node(
                entry.id.as_str(),
                entry.node_type.as_str(),
                entry.content.as_str(),
                entry.properties.clone(),
                self.now,
            );
            if at >= log.len() {
                return Step::Ask(Request::ValidateBehavior { node });
            }
            match &log[at] {
                Reply::Refused { error } => {
                    return Step::Fail(error.clone());
                },
                Reply::Done => {},
                _ => {
                    return Step::Mismatch;
                },
            }
            if !same_text(entry.node_type.as_str(), "schema") {
                match find_fields(&self.types, log, entry.node_type.as_str()) {
                    None => {},
                    Some(fields) => match service.validate_node_with_fields(&node, fields) {
                        Err(e) => {
                            return Step::Fail(e);
                        },
                        Ok(()) => {},
                    },
                }
            }
            at += 1;
            i += 1;
        }
        match self.kind {
            ImportKind::Trusted => self.find_roots(at),
            _ => self.find_root(at),
        }
    }

    fn find_root(&self, from: usize) -> (r: Step)
        requires
            self@.nodes.len() > 0,
            from <= self.log@.len(),
        ensures
            r@ == import_root_next(self@, replies_from(self.log@, from as int)),
    {
        let log = self.log;
        match &self.nodes[0].parent_id {
            None => self.store(None, from),
            Some(parent) => {
                if from >= log.len() {
                    return Step::Ask(Request::GetRoot { id: parent.clone() });
                }
                match &log[from] {
                    Reply::Text { text } => self.store(Some(text.as_str()), from + 1),
                    Reply::Refused { error: _ } => self.store(None, from + 1),
                    _ => Step::Mismatch,
                }
            },
        }
    }

    fn store(&self, root: Option<&str>, from: usize) -> (r: Step)
        requires
            from <= self.log@.len(),
        ensures
            r@ == import_store_next(
                self@,
                optional_str(root),
                replies_from(self.log@, from as int),
            ),
    {
        let log = self.log;
        if from >= log.len() {
            let root_only = match self.kind {
                ImportKind::Announced => false,
                _ => true,
            };
            return Step::Ask(
                Request::StoreHierarchy { nodes: clone_bulk_nodes(&self.nodes), root_only },
            );
        }
        match &log[from] {
            Reply::Failed { message } => Step::Fail(NodeServiceError::QueryFailed(message.clone())),
            Reply::Texts { items } => {
                match root {
                    None => Step::Finish(Outcome::Ids { ids: clone_texts(items) }),
                    Some(root_id) => {
                        if from + 1 >= log.len() {
                            return Step::Ask(Request::QueueRoot { id: root_id.to_string() });
                        }
                        match &log[from + 1] {
                            Reply::Done => Step::Finish(Outcome::Ids { ids: clone_texts(items) }),
                            _ => Step::Mismatch,
                        }
                    },
                }
            },
            _ => Step::Mismatch,
        }
    }

    fn find_roots(&self, from: usize) -> (r: Step)
        requires
            from <= self.log@.len(),
        ensures
            r@ == import_roots_next(self@, 0, Seq::empty(), replies_from(self.log@, from as int)),
    {
        let ghost job = self@;
        let log = self.log;
        let ghost want = import_roots_next(job, 0, Seq::empty(), replies_from(log@, from as int));
        let mut roots: Vec<String> = Vec::new();
        let mut at: usize = from;
        let mut i: usize = 0;
        proof {
            assert(texts(roots@) =~= Seq::empty());
        }
        while i < self.nodes.len()
            invariant
                i <= self.nodes@.len() == job.nodes.len(),
                at <= log@.len(),
                want == import_roots_next(
                    job,
                    i as nat,
                    texts(roots@),
                    replies_from(log@, at as int),
                ),
            decreases self.nodes@.len() - i,
        {
            let entry = &self.nodes[i];
            proof {
                assert(job.nodes[i as int] == entry@);
            }
            if entry.parent_id.is_none() {
                if at >= log.len() {
                    return Step::Ask(Request::IsEmbeddable { node_type: entry.node_type.clone() });
                }
                match &log[at] {
                    Reply::Flag { value } => {
                        if *value {
                            let ghost before = texts(roots@);
                            roots.push(entry.id.clone());
                            proof {
                                assert(texts(roots@) =~= before.push(entry.id@));
                            }
                        }
                    },
                    _ => {
                        return Step::Mismatch;
                    },
                }
                at += 1;
            }
            i += 1;
        }
        self.store_trusted(&roots, at)
    }

    fn store_trusted(&self, roots: &Vec<String>, from: usize) -> (r: Step)
        requires
            from <= self.log@.len(),
        ensures
            r@ == import_trusted_store_next(
                self@,
                texts(roots@),
                replies_from(self.log@, from as int),
            ),
    {
        let log = self.log;
        if from >= log.len() {
            return Step::Ask(
                Request::StoreHierarchy { nodes: clone_bulk_nodes(&self.nodes), root_only: true },
            );
        }
        match &log[from] {
            Reply::Failed { message } => Step::Fail(NodeServiceError::QueryFailed(message.clone())),
            Reply::Texts { items } => {
                if roots.len() == 0 {
                    return Step::Finish(Outcome::Ids { ids: clone_texts(items) });
                }
                self.mark_roots(items, roots, from + 1)
            },
            _ => Step::Mismatch,
        }
    }

    fn mark_roots(&self, ids: &Vec<String>, roots: &Vec<String>, from: usize) -> (r: Step)
        requires
            from <= self.log@.len(),
        ensures
            r@ == import_markers_next(
                texts(ids@),
                texts(roots@),
                replies_from(self.log@, from as int),
            ),
    {
        let log = self.log;
        if from >= log.len() {
            return Step::Ask(Request::CreateStaleMarkers { ids: clone_texts(roots) });
        }
        match &log[from] {
            Reply::Failed { message: _ } => Step::Finish(Outcome::Ids { ids: clone_texts(ids) }),
            Reply::Count { value: _ } => {
                if from + 1 >= log.len() {
                    return Step::Ask(Request::WakeEmbedder);
                }
                match &log[from + 1] {
                    Reply::Done => Step::Finish(Outcome::Ids { ids: clone_texts(ids) }),
                    _ => Step::Mismatch,
                }
            },
            _ => Step::Mismatch,
        }
    }
}

impl NodeService {
    /// Creates nodes with their places in the tree in one transaction, and announces each.
    pub fn bulk_create_hierarchy(
        &self,
        nodes: &Vec<BulkNode>,
        now: i64,
        log: &Vec<Reply>,
    ) -> (r: Step)
        ensures
            r@ == import_next(bulk_views(nodes@), ImportKind::Announced, now, replies(log@)),
    {
        self.import(nodes, ImportKind::Announced, now, log)
    }

    /// Creates nodes with their places in the tree in one transaction, and announces the root alone.
    pub fn bulk_create_hierarchy_root_notify(
        &self,
        nodes: &Vec<BulkNode>,
        now: i64,
        log: &Vec<Reply>,
    ) -> (r: Step)
        ensures
            r@ == import_next(bulk_views(nodes@), ImportKind::RootAnnounced, now, replies(log@)),
    {
        self.import(nodes, ImportKind::RootAnnounced, now, log)
    }

    /// Creates nodes of a trusted source with their places in the tree in one transaction.
    pub fn bulk_create_hierarchy_trusted(
        &self,
        nodes: &Vec<BulkNode>,
        now: i64,
        log: &Vec<Reply>,
    ) -> (r: Step)
        ensures
            r@ == import_next(bulk_views(nodes@), ImportKind::Trusted, now, replies(log@)),
    {
        self.import(nodes, ImportKind::Trusted, now, log)
    }

    fn import(&self, nodes: &Vec<BulkNode>, kind: ImportKind, now: i64, log: &Vec<Reply>) -> (r: Step)
        ensures
            r@ == import_next(bulk_views(nodes@), kind, now, replies(log@)),
    {
        if nodes.len() == 0 {
            return no_ids();
        }
        let ghost all = bulk_views(nodes@);
        let ghost answers = replies(log@);
        let types: Vec<String> = match kind {
            ImportKind::Trusted => Vec::new(),
            _ => collect_types(nodes),
        };
        proof {
            if kind == ImportKind::Trusted {
                assert(texts(types@) =~= Seq::empty());
            }
        }
        let ghost names = texts(types@);
        let mut k: usize = 0;
        while k < types.len()
            invariant
                k <= types@.len() == names.len(),
                import_next(all, kind, now, answers) == import_schemas_next(
                    all,
                    names,
                    kind,
                    now,
                    k as nat,
                    answers,
                ),
                k <= log@.len(),
            decreases types@.len() - k,
        {
            if k >= log.len() {
                return Step::Ask(Request::LoadSchema { node_type: types[k].clone() });
            }
            match &log[k] {
                Reply::Failed { message } => {
                    return Step::Fail(NodeServiceError::QueryFailed(message.clone()));
                },
                Reply::Schema { schema: _, fields: _ } => {},
                _ => {
                    return Step::Mismatch;
                },
            }
            k += 1;
        }
        let prepared = NodeService::normalize_all(nodes, &types, log);
        let job = Import { nodes: prepared, types, log, kind, now };
        proof {
            assert(job@.nodes =~= all.map_values(
                |n: BulkNodeView| normalized(names, answers.take(k as int), n),
            ));
            assert(replies_from(log@, k as int) =~= answers.skip(k as int));
        }
        job.check(self, k)
    }

    fn normalize_all(nodes: &Vec<BulkNode>, types: &Vec<String>, log: &Vec<Reply>) -> (r: Vec<
        BulkNode,
    >)
        requires
            types@.len() <= log@.len(),
        ensures
            bulk_views(r@) == bulk_views(nodes@).map_values(
                |n: BulkNodeView| normalized(texts(types@), replies(log@).take(types@.len() as int), n),
            ),
    {
        let ghost names = texts(types@);
        let ghost schemas = replies(log@).take(types@.len() as int);
        let mut out: Vec<BulkNode> = Vec::new();
        let mut i: usize = 0;
        while i < nodes.len()
            invariant
                i <= nodes@.len(),
                out@.len() == i,
                forall|j: int|
                    0 <= j < i ==> (#[trigger] out@[j])@ == normalized(
                        names,
                        schemas,
                        nodes@[j]@,
                    ),
            decreases nodes@.len() - i,
        {
            let mut node = nodes[i].clone();
            let fields = find_fields(types, log, node.node_type.as_str());
            let properties = NodeService::normalize_flat_properties_to_namespace(
                node.node_type.as_str(),
                &node.properties,
                fields,
            );
            node.properties = properties;
            out.push(node);
            i += 1;
        }
        proof {
            assert(bulk_views(out@) =~= bulk_views(nodes@).map_values(
                |n: BulkNodeView| normalized(names, schemas, n),
            ));
        }
        out
    }
}

/// A node as a bulk update leaves it. Properties are replaced, not merged.
pub open spec fn replaced_node(node: NodeView, update: NodeUpdateView) -> NodeView {
    NodeView {
        node_type: match update.node_type {
            Some(t) => t,
            None => node.node_type,
        },
        content: match update.content {
            Some(c) => c,
            None => node.content,
        },
        properties: match update.properties {
            Some(p) => p,
            None => node.properties,
        },
        ..node
    }
}

fn replace_in_node(node: &Node, update: &NodeUpdate) -> (r: Node)
    ensures
        r@ == replaced_node(node@, update@),
{
    let mut out = node.clone();
    if let Some(node_type) = &update.node_type {
        out.node_type = node_type.clone();
    }
    if let Some(content) = &update.content {
        out.content = content.clone();
    }
    if let Some(properties) = &update.properties {
        out.properties = properties.clone();
    }
    out
}

/// A failed bulk operation. The message is made of three parts.
pub open spec fn bulk_failure(what: Seq<char>, id: Seq<char>, why: Seq<char>) -> StepView {
    StepView::Fail(ErrorView::BulkOperationFailed(what + id + ": "@ + why))
}

fn bulk_failed(what: &str, id: &str, why: &str) -> (r: Step)
    ensures
        r@ == bulk_failure(what@, id@, why@),
{
    let mut message = what.to_string();
    message.append(id);
    message.append(": ");
    message.append(why);
    Step::Fail(NodeServiceError::BulkOperationFailed(message))
}

/// The update of several nodes.
pub open spec fn bulk_update_next(
    updates: Seq<(Seq<char>, NodeUpdateView)>,
    log: Seq<ReplyView>,
) -> StepView {
    if updates.len() == 0 {
        StepView::Finish(OutcomeView::Nothing)
    } else if log.len() == 0 {
        StepView::Ask(
            RequestView::LoadNodes {
                ids: updates.map_values(|u: (Seq<char>, NodeUpdateView)| u.0),
            },
        )
    } else {
        match log[0] {
            ReplyView::Failed { message } => StepView::Fail(
                ErrorView::BulkOperationFailed(
                    "Failed to batch fetch nodes for validation: "@ + message,
                ),
            ),
            ReplyView::Nodes { nodes } => bulk_update_check_next(nodes, updates, 0, log.skip(1)),
            _ => StepView::Mismatch,
        }
    }
}

/// The checks of the updates from position `i` on.
pub open spec fn bulk_update_check_next(
    nodes: Seq<NodeView>,
    updates: Seq<(Seq<char>, NodeUpdateView)>,
    i: nat,
    log: Seq<ReplyView>,
) -> StepView
    decreases updates.len() - i, 1nat,
{
    if i >= updates.len() {
        bulk_update_store_next(updates, log)
    } else {
        let id = updates[i as int].0;
        let at = index_in(ids_of(nodes), id);
        if at >= nodes.len() {
            StepView::Fail(ErrorView::NodeNotFound { id })
        } else {
            let node = replaced_node(nodes[at], updates[i as int].1);
            if log.len() == 0 {
                StepView::Ask(RequestView::CheckBehavior { node })
            } else {
                match log[0] {
                    ReplyView::Failed { message } => bulk_failure(
                        "Failed to validate node "@,
                        id,
                        message,
                    ),
                    ReplyView::Done => bulk_update_schema_next(
                        node,
                        nodes,
                        updates,
                        i,
                        log.skip(1),
                    ),
                    _ => StepView::Mismatch,
                }
            }
        }
    }
}

pub open spec fn bulk_update_schema_next(
    node: NodeView,
    nodes: Seq<NodeView>,
    updates: Seq<(Seq<char>, NodeUpdateView)>,
    i: nat,
    log: Seq<ReplyView>,
) -> StepView
    decreases updates.len() - i, 0nat,
{
    if i >= updates.len() {
        StepView::Mismatch
    } else if node.node_type == "schema"@ {
        bulk_update_check_next(nodes, updates, i + 1, log)
    } else if log.len() == 0 {
        StepView::Ask(RequestView::LoadSchema { node_type: node.node_type })
    } else {
        match log[0] {
            ReplyView::Failed { message } => bulk_update_reject_next(
                updates[i as int].0,
                ErrorView::QueryFailed(message),
                log.skip(1),
            ),
            ReplyView::Schema { schema, fields } => match schema_error(node, schema, fields) {
                Some(message) => bulk_update_reject_next(
                    updates[i as int].0,
                    ErrorView::InvalidUpdate(message),
                    log.skip(1),
                ),
                None => bulk_update_check_next(nodes, updates, i + 1, log.skip(1)),
            },
            _ => StepView::Mismatch,
        }
    }
}

/// The words of an error become part of the message of the failed operation.
pub open spec fn bulk_update_reject_next(
    id: Seq<char>,
    error: ErrorView,
    log: Seq<ReplyView>,
) -> StepView {
    if log.len() == 0 {
        StepView::Ask(RequestView::Describe { error })
    } else {
        match log[0] {
            ReplyView::Text { text } => bulk_failure(
                "Failed schema validation for node "@,
                id,
                text,
            ),
            _ => StepView::Mismatch,
        }
    }
}

pub open spec fn bulk_update_store_next(
    updates: Seq<(Seq<char>, NodeUpdateView)>,
    log: Seq<ReplyView>,
) -> StepView {
    if log.len() == 0 {
        StepView::Ask(RequestView::StoreBulkUpdate { updates })
    } else {
        match log[0] {
            ReplyView::Failed { message } => StepView::Fail(
                ErrorView::BulkOperationFailed(
                    "Failed to execute bulk update transaction: "@ + message,
                ),
            ),
            ReplyView::Done => StepView::Finish(OutcomeView::Nothing),
            _ => StepView::Mismatch,
        }
    }
}

/// The removal of several nodes, all of them or none.
pub open spec fn bulk_delete_next(ids: Seq<Seq<char>>, log: Seq<ReplyView>) -> StepView {
    if ids.len() == 0 {
        StepView::Finish(OutcomeView::Nothing)
    } else if log.len() == 0 {
        StepView::Ask(RequestView::StoreBulkDelete { ids })
    } else {
        match log[0] {
            ReplyView::FailedAt { id, message } => bulk_failure(
                "Failed to delete node "@,
                id,
                message,
            ),
            ReplyView::Done => StepView::Finish(OutcomeView::Nothing),
            _ => StepView::Mismatch,
        }
    }
}

impl NodeService {
    /// Updates several nodes in one transaction. The properties of an update replace those of its
    /// node.
    pub fn bulk_update(&self, updates: &Vec<(String, NodeUpdate)>, log: &Vec<Reply>) -> (r: Step)
        ensures
            r@ == bulk_update_next(update_views(updates@), replies(log@)),
    {
        if updates.len() == 0 {
            return Step::Finish(Outcome::Nothing);
        }
        let ghost all = update_views(updates@);
        if log.len() == 0 {
            return Step::Ask(Request::LoadNodes { ids: updated_ids(updates) });
        }
        let nodes = match &log[0] {
            Reply::Failed { message } => {
                let mut text = "Failed to batch fetch nodes for validation: ".to_string();
                text.append(message.as_str());
                return Step::Fail(NodeServiceError::BulkOperationFailed(text));
            },
            Reply::Nodes { nodes } => nodes,
            _ => {
                return Step::Mismatch;
            },
        };
        let ghost found = node_views(nodes@);
        let ids = collect_ids(nodes);
        let ghost want = bulk_update_next(all, replies(log@));
        let mut at: usize = 1;
        let mut i: usize = 0;
        while i < updates.len()
            invariant
                i <= updates@.len() == all.len(),
                at <= log@.len(),
                want == bulk_update_check_next(found, all, i as nat, replies_from(log@, at as int)),
            decreases updates@.len() - i,
        {
            match self.check_update(nodes, &ids, updates, i, log, at) {
                Err(step) => {
                    return step;
                },
                Ok(next) => {
                    at = next;
                },
            }
            i += 1;
        }
        if at >= log.len() {
            return Step::Ask(Request::StoreBulkUpdate { updates: clone_updates(updates) });
        }
        match &log[at] {
            Reply::Failed { message } => {
                let mut text = "Failed to execute bulk update transaction: ".to_string();
                text.append(message.as_str());
                Step::Fail(NodeServiceError::BulkOperationFailed(text))
            },
            Reply::Done => Step::Finish(Outcome::Nothing),
            _ => Step::Mismatch,
        }
    }

    fn check_update(
        &self,
        nodes: &Vec<Node>,
        ids: &Vec<String>,
        updates: &Vec<(String, NodeUpdate)>,
        i: usize,
        log: &Vec<Reply>,
        from: usize,
    ) -> (r: Result<usize, Step>)
        requires
            texts(ids@) == ids_of(node_views(nodes@)),
            i < updates@.len(),
            from <= log@.len(),
        ensures
            ({
                let now = bulk_update_check_next(
                    node_views(nodes@),
                    update_views(updates@),
                    i as nat,
                    replies_from(log@, from as int),
                );
                match r {
                    Ok(next) => next <= log@.len() && now == bulk_update_check_next(
                        node_views(nodes@),
                        update_views(updates@),
                        (i + 1) as nat,
                        replies_from(log@, next as int),
                    ),
                    Err(step) => step@ == now,
                }
            }),
    {
        let id = updates[i].0.as_str();
        let ghost all = update_views(updates@);
        proof {
            assert(all[i as int] == (updates@[i as int].0@, updates@[i as int].1@));
        }
        let place = find_index(ids, id);
        if place >= nodes.len() {
            return Err(Step::Fail(NodeServiceError::NodeNotFound { id: id.to_string() }));
        }
        let node = replace_in_node(&nodes[place], &updates[i].1);
        if from >= log.len() {
            return Err(Step::Ask(Request::CheckBehavior { node }));
        }
        match &log[from] {
            Reply::Failed { message } => Err(
                bulk_failed("Failed to validate node ", id, message.as_str()),
            ),
            Reply::Done => self.check_update_schema(&node, nodes, updates, i, log, from + 1),
            _ => Err(Step::Mismatch),
        }
    }

    fn check_update_schema(
        &self,
        node: &Node,
        nodes: &Vec<Node>,
        updates: &Vec<(String, NodeUpdate)>,
        i: usize,
        log: &Vec<Reply>,
        from: usize,
    ) -> (r: Result<usize, Step>)
        requires
            i < updates@.len(),
            from <= log@.len(),
        ensures
            ({
                let now = bulk_update_schema_next(
                    node@,
                    node_views(nodes@),
                    update_views(updates@),
                    i as nat,
                    replies_from(log@, from as int),
                );
                match r {
                    Ok(next) => next <= log@.len() && now == bulk_update_check_next(
                        node_views(nodes@),
                        update_views(updates@),
                        (i + 1) as nat,
                        replies_from(log@, next as int),
                    ),
                    Err(step) => step@ == now,
                }
            }),
    {
        let id = updates[i].0.as_str();
        if same_text(node.node_type.as_str(), "schema") {
            return Ok(from);
        }
        if from >= log.len() {
            return Err(Step::Ask(Request::LoadSchema { node_type: node.node_type.clone() }));
        }
        match &log[from] {
            Reply::Failed { message } => Err(
                reject_update(
                    id,
                    NodeServiceError::QueryFailed(message.clone()),
                    log,
                    from + 1,
                ),
            ),
            Reply::Schema { schema: Some(_), fields: Some(fields) } => {
                match self.validate_node_with_fields(node, fields) {
                    Err(e) => Err(reject_update(id, e, log, from + 1)),
                    Ok(()) => Ok(from + 1),
                }
            },
            Reply::Schema { schema: _, fields: _ } => Ok(from + 1),
            _ => Err(Step::Mismatch),
        }
    }

    /// Removes several nodes in one transaction.
    pub fn bulk_delete(&self, ids: &Vec<String>, log: &Vec<Reply>) -> (r: Step)
        ensures
            r@ == bulk_delete_next(texts(ids@), replies(log@)),
    {
        if ids.len() == 0 {
            return Step::Finish(Outcome::Nothing);
        }
        if log.len() == 0 {
            return Step::Ask(Request::StoreBulkDelete { ids: clone_texts(ids) });
        }
        match &log[0] {
            Reply::FailedAt { id, message } => bulk_failed(
                "Failed to delete node ",
                id.as_str(),
                message.as_str(),
            ),
            Reply::Done => Step::Finish(Outcome::Nothing),
            _ => Step::Mismatch,
        }
    }
}

fn updated_ids(updates: &Vec<(String, NodeUpdate)>) -> (r: Vec<String>)
    ensures
        texts(r@) == update_views(updates@).map_values(|u: (Seq<char>, NodeUpdateView)| u.0),
{
    let mut out: Vec<String> = Vec::new();
    let mut i: usize = 0;
    while i < updates.len()
        invariant
            i <= updates@.len(),
            out@.len() == i,
            forall|j: int| 0 <= j < i ==> (#[trigger] out@[j])@ == updates@[j].0@,
        decreases updates@.len() - i,
    {
        out.push(updates[i].0.clone());
        i += 1;
    }
    proof {
        assert(texts(out@) =~= update_views(updates@).map_values(
            |u: (Seq<char>, NodeUpdateView)| u.0,
        ));
    }
    out
}

fn reject_update(id: &str, error: NodeServiceError, log: &Vec<Reply>, from: usize) -> (r: Step)
    requires
        from <= log@.len(),
    ensures
        r@ == bulk_update_reject_next(id@, error@, replies_from(log@, from as int)),
{
    if from >= log.len() {
        return Step::Ask(Request::Describe { error });
    }
    match &log[from] {
        Reply::Text { text } => bulk_failed(
            "Failed schema validation for node ",
            id,
            text.as_str(),
        ),
        _ => Step::Mismatch,
    }
}

/// The request was made in the course of an operation, and `Done` was the reply.
pub open spec fn passed(
    next: spec_fn(Seq<ReplyView>) -> StepView,
    log: Seq<ReplyView>,
    request: RequestView,
) -> bool {
    exists|k: int| #[trigger] passed_at(next, log, request, k)
}

pub open spec fn passed_at(
    next: spec_fn(Seq<ReplyView>) -> StepView,
    log: Seq<ReplyView>,
    request: RequestView,
    k: int,
) -> bool {
    0 <= k < log.len() && log[k] == ReplyView::Done && next(log.take(k)) == StepView::Ask(request)
}

/// A batch is stored only after the behaviors of all its nodes accepted them.
pub proof fn law_batches_are_checked_before_they_are_stored(
    nodes: Seq<NodeView>,
    log: Seq<ReplyView>,
    i: int,
)
    requires
        bulk_create_next(nodes, log) matches StepView::Ask(RequestView::StoreBatch { nodes: _ }),
        0 <= i < nodes.len(),
    ensures
        bulk_create_next(nodes, log) == StepView::Ask(RequestView::StoreBatch { nodes }),
        passed(
            |l: Seq<ReplyView>| bulk_create_next(nodes, l),
            log,
            RequestView::ValidateBehavior { node: nodes[i] },
        ),
{
    lemma_batch_checked(nodes, nodes, log, i);
    let step = |l: Seq<ReplyView>| bulk_behavior_next(nodes, nodes, l);
    let request = RequestView::ValidateBehavior { node: nodes[i] };
    let k = choose|k: int| passed_at(step, log, request, k);
    assert(passed_at(|l: Seq<ReplyView>| bulk_create_next(nodes, l), log, request, k));
}

proof fn lemma_batch_checked(
    left: Seq<NodeView>,
    all: Seq<NodeView>,
    log: Seq<ReplyView>,
    i: int,
)
    requires
        bulk_behavior_next(left, all, log) matches StepView::Ask(
            RequestView::StoreBatch { nodes: _ },
        ),
    ensures
        bulk_behavior_next(left, all, log) == StepView::Ask(RequestView::StoreBatch { nodes: all }),
        0 <= i < left.len() ==> passed(
            |l: Seq<ReplyView>| bulk_behavior_next(left, all, l),
            log,
            RequestView::ValidateBehavior { node: left[i] },
        ),
    decreases left.len(),
{
    if left.len() > 0 {
        let step = |l: Seq<ReplyView>| bulk_behavior_next(left, all, l);
        let request = RequestView::ValidateBehavior { node: left[i] };
        let used: int = if left[0].node_type == "schema"@ {
            1
        } else {
            2
        };
        assert(bulk_behavior_next(left, all, log) == bulk_schema_next(left, all, log.skip(1)));
        if used == 2 {
            assert(log.skip(1).skip(1) =~= log.skip(2));
        }
        assert(bulk_schema_next(left, all, log.skip(1)) == bulk_behavior_next(
            left.skip(1),
            all,
            log.skip(used),
        ));
        lemma_batch_checked(left.skip(1), all, log.skip(used), i - 1);
        if i == 0 {
            assert(passed_at(step, log, request, 0));
        } else if 0 < i < left.len() {
            let rest = |l: Seq<ReplyView>| bulk_behavior_next(left.skip(1), all, l);
            let k = choose|k: int| passed_at(rest, log.skip(used), request, k);
            let part = log.take(k + used);
            assert(part.skip(used) =~= log.skip(used).take(k));
            if used == 2 {
                assert(part.skip(1).skip(1) =~= part.skip(2));
            }
            assert(bulk_behavior_next(left, all, part) == bulk_schema_next(left, all, part.skip(1)));
            assert(bulk_schema_next(left, all, part.skip(1)) == bulk_behavior_next(
                left.skip(1),
                all,
                part.skip(used),
            ));
            assert(passed_at(step, log, request, k + used));
        }
    }
}

/// A batch that was created is answered with the identifiers of its nodes, in their order.
pub proof fn law_batch_identifiers_keep_their_order(nodes: Seq<NodeView>, log: Seq<ReplyView>)
    requires
        bulk_create_next(nodes, log) is Finish,
    ensures
        bulk_create_next(nodes, log) == finished_ids(ids_of(nodes)),
{
    if nodes.len() == 0 {
        assert(ids_of(nodes) =~= Seq::empty());
    } else {
        lemma_batch_identifiers(nodes, nodes, log);
    }
}

proof fn lemma_batch_identifiers(left: Seq<NodeView>, all: Seq<NodeView>, log: Seq<ReplyView>)
    requires
        bulk_behavior_next(left, all, log) is Finish,
    ensures
        bulk_behavior_next(left, all, log) == finished_ids(ids_of(all)),
    decreases left.len(),
{
    if left.len() > 0 {
        assert(bulk_behavior_next(left, all, log) == bulk_schema_next(left, all, log.skip(1)));
        if left[0].node_type == "schema"@ {
            lemma_batch_identifiers(left.skip(1), all, log.skip(1));
        } else {
            lemma_batch_identifiers(left.skip(1), all, log.skip(1).skip(1));
        }
    }
}

/// What an import stores, once the schemas are known.
pub open spec fn import_nodes(
    nodes: Seq<BulkNodeView>,
    kind: ImportKind,
    log: Seq<ReplyView>,
) -> Seq<BulkNodeView> {
    let types = import_types(nodes, kind);
    let schemas = log.take(types.len() as int);
    nodes.map_values(|n: BulkNodeView| normalized(types, schemas, n))
}

/// An import stores its nodes, in the form that their schemas give them, only after the behaviors
/// of all of them accepted them and, unless the source is trusted, no known schema objects.
pub proof fn law_imports_are_checked_before_they_are_stored(
    nodes: Seq<BulkNodeView>,
    kind: ImportKind,
    now: i64,
    log: Seq<ReplyView>,
    i: int,
)
    requires
        import_next(nodes, kind, now, log) matches StepView::Ask(
            RequestView::StoreHierarchy { nodes: _, root_only: _ },
        ),
        0 <= i < nodes.len(),
    ensures
        import_next(nodes, kind, now, log) == StepView::Ask(
            RequestView::StoreHierarchy {
                nodes: import_nodes(nodes, kind, log),
                root_only: kind != ImportKind::Announced,
            },
        ),
        passed(
            |l: Seq<ReplyView>| import_next(nodes, kind, now, l),
            log,
            RequestView::ValidateBehavior {
                node: candidate(import_nodes(nodes, kind, log)[i], now),
            },
        ),
        ({
            let node = import_nodes(nodes, kind, log)[i];
            let types = import_types(nodes, kind);
            node.node_type != "schema"@ ==> match fields_for(
                types,
                log.take(types.len() as int),
                node.node_type,
            ) {
                Some(fields) => first_error(candidate(node, now), fields) is None,
                None => true,
            }
        }),
{
    let types = import_types(nodes, kind);
    let n = types.len();
    let schemas = log.take(n as int);
    let job = ImportView { nodes: import_nodes(nodes, kind, log), types, schemas, kind, now };
    lemma_import_schemas(nodes, types, kind, now, 0, log);
    let rest = log.skip(n as int);
    lemma_import_checked(job, 0, rest, i);
    let step = |l: Seq<ReplyView>| import_next(nodes, kind, now, l);
    let request = RequestView::ValidateBehavior { node: candidate(job.nodes[i], now) };
    let part = log.take(n + i);
    lemma_import_schemas_prefix(nodes, types, kind, now, 0, log, part);
    assert(part.take(n as int) =~= schemas);
    assert(part.skip(n as int) =~= rest.take(i));
    assert(passed_at(step, log, request, n + i));
}

proof fn lemma_import_schemas(
    nodes: Seq<BulkNodeView>,
    types: Seq<Seq<char>>,
    kind: ImportKind,
    now: i64,
    k: nat,
    log: Seq<ReplyView>,
)
    requires
        k <= types.len(),
        k <= log.len(),
        import_schemas_next(nodes, types, kind, now, k, log) matches StepView::Ask(
            RequestView::StoreHierarchy { nodes: _, root_only: _ },
        ),
    ensures
        log.len() >= types.len(),
        forall|j: int| k <= j < types.len() ==> #[trigger] log[j] is Schema,
        import_schemas_next(nodes, types, kind, now, k, log) == import_schemas_next(
            nodes,
            types,
            kind,
            now,
            types.len(),
            log,
        ),
    decreases types.len() - k,
{
    if k < types.len() {
        lemma_import_schemas(nodes, types, kind, now, k + 1, log);
    }
}

proof fn lemma_import_schemas_prefix(
    nodes: Seq<BulkNodeView>,
    types: Seq<Seq<char>>,
    kind: ImportKind,
    now: i64,
    k: nat,
    log: Seq<ReplyView>,
    part: Seq<ReplyView>,
)
    requires
        k <= types.len() <= part.len() <= log.len(),
        part == log.take(part.len() as int),
        forall|j: int| k <= j < types.len() ==> #[trigger] log[j] is Schema,
    ensures
        import_schemas_next(nodes, types, kind, now, k, part) == import_schemas_next(
            nodes,
            types,
            kind,
            now,
            types.len(),
            part,
        ),
    decreases types.len() - k,
{
    if k < types.len() {
        assert(part[k as int] == log[k as int]);
        lemma_import_schemas_prefix(nodes, types, kind, now, k + 1, log, part);
    }
}

proof fn lemma_import_checked(job: ImportView, i: nat, log: Seq<ReplyView>, j: int)
    requires
        job.nodes.len() > 0,
        i <= job.nodes.len(),
        import_check_next(job, i, log) matches StepView::Ask(
            RequestView::StoreHierarchy { nodes: _, root_only: _ },
        ),
    ensures
        import_check_next(job, i, log) == StepView::Ask(
            RequestView::StoreHierarchy {
                nodes: job.nodes,
                root_only: job.kind != ImportKind::Announced,
            },
        ),
        i <= j < job.nodes.len() ==> {
            &&& j - i < log.len()
            &&& log[j - i] == ReplyView::Done
            &&& import_error(job, job.nodes[j]) is None
            &&& import_check_next(job, i, log.take(j - i)) == StepView::Ask(
                RequestView::ValidateBehavior { node: candidate(job.nodes[j], job.now) },
            )
        },
    decreases job.nodes.len() - i,
{
    if i < job.nodes.len() {
        lemma_import_checked(job, i + 1, log.skip(1), j);
        if i < j < job.nodes.len() {
            assert(log.take(j - i).skip(1) =~= log.skip(1).take(j - i - 1));
        }
    } else {
        if job.kind == ImportKind::Trusted {
            lemma_import_roots(job, 0, Seq::empty(), log);
        }
    }
}

proof fn lemma_import_roots(
    job: ImportView,
    i: nat,
    roots: Seq<Seq<char>>,
    log: Seq<ReplyView>,
)
    requires
        import_roots_next(job, i, roots, log) matches StepView::Ask(
            RequestView::StoreHierarchy { nodes: _, root_only: _ },
        ),
    ensures
        import_roots_next(job, i, roots, log) == StepView::Ask(
            RequestView::StoreHierarchy { nodes: job.nodes, root_only: true },
        ),
    decreases job.nodes.len() - i,
{
    if i < job.nodes.len() {
        if job.nodes[i as int].parent_id is Some {
            lemma_import_roots(job, i + 1, roots, log);
        } else if log.len() > 0 {
            match log[0] {
                ReplyView::Flag { value } => {
                    let more = if value {
                        roots.push(job.nodes[i as int].id)
                    } else {
                        roots
                    };
                    lemma_import_roots(job, i + 1, more, log.skip(1));
                },
                _ => {},
            }
        }
    }
}

/// Updates are stored only after the behaviors of all the changed nodes accepted them. Each node
/// is among those that were found.
pub proof fn law_bulk_updates_are_checked_before_they_are_stored(
    updates: Seq<(Seq<char>, NodeUpdateView)>,
    nodes: Seq<NodeView>,
    log: Seq<ReplyView>,
    i: int,
)
    requires
        log.len() > 0,
        log[0] == (ReplyView::Nodes { nodes }),
        bulk_update_next(updates, log) matches StepView::Ask(
            RequestView::StoreBulkUpdate { updates: _ },
        ),
        0 <= i < updates.len(),
    ensures
        bulk_update_next(updates, log) == StepView::Ask(RequestView::StoreBulkUpdate { updates }),
        index_in(ids_of(nodes), updates[i].0) < nodes.len(),
        passed(
            |l: Seq<ReplyView>| bulk_update_next(updates, l),
            log,
            RequestView::CheckBehavior {
                node: replaced_node(nodes[index_in(ids_of(nodes), updates[i].0)], updates[i].1),
            },
        ),
{
    lemma_update_checked(nodes, updates, 0, log.skip(1), i);
    let request = RequestView::CheckBehavior {
        node: replaced_node(nodes[index_in(ids_of(nodes), updates[i].0)], updates[i].1),
    };
    let inner = |l: Seq<ReplyView>| bulk_update_check_next(nodes, updates, 0, l);
    let k = choose|k: int| passed_at(inner, log.skip(1), request, k);
    assert(log.take(k + 1).skip(1) =~= log.skip(1).take(k));
    assert(passed_at(|l: Seq<ReplyView>| bulk_update_next(updates, l), log, request, k + 1));
}

proof fn lemma_update_checked(
    nodes: Seq<NodeView>,
    updates: Seq<(Seq<char>, NodeUpdateView)>,
    from: nat,
    log: Seq<ReplyView>,
    i: int,
)
    requires
        from <= updates.len(),
        bulk_update_check_next(nodes, updates, from, log) matches StepView::Ask(
            RequestView::StoreBulkUpdate { updates: _ },
        ),
    ensures
        bulk_update_check_next(nodes, updates, from, log) == StepView::Ask(
            RequestView::StoreBulkUpdate { updates },
        ),
        from <= i < updates.len() ==> index_in(ids_of(nodes), updates[i].0) < nodes.len() && passed(
            |l: Seq<ReplyView>| bulk_update_check_next(nodes, updates, from, l),
            log,
            RequestView::CheckBehavior {
                node: replaced_node(nodes[index_in(ids_of(nodes), updates[i].0)], updates[i].1),
            },
        ),
    decreases updates.len() - from,
{
    if from < updates.len() {
        let step = |l: Seq<ReplyView>| bulk_update_check_next(nodes, updates, from, l);
        let own = replaced_node(
            nodes[index_in(ids_of(nodes), updates[from as int].0)],
            updates[from as int].1,
        );
        let request = RequestView::CheckBehavior {
            node: replaced_node(nodes[index_in(ids_of(nodes), updates[i].0)], updates[i].1),
        };
        let used: int = if own.node_type == "schema"@ {
            1
        } else {
            2
        };
        assert(bulk_update_check_next(nodes, updates, from, log) == bulk_update_schema_next(
            own,
            nodes,
            updates,
            from,
            log.skip(1),
        ));
        if used == 2 {
            assert(log.skip(1).skip(1) =~= log.skip(2));
        }
        assert(bulk_update_schema_next(own, nodes, updates, from, log.skip(1))
            == bulk_update_check_next(nodes, updates, from + 1, log.skip(used)));
        lemma_update_checked(nodes, updates, from + 1, log.skip(used), i);
        if i == from {
            assert(passed_at(step, log, request, 0));
        } else if from < i < updates.len() {
            let rest = |l: Seq<ReplyView>| bulk_update_check_next(nodes, updates, from + 1, l);
            let k = choose|k: int| passed_at(rest, log.skip(used), request, k);
            let part = log.take(k + used);
            assert(part.skip(used) =~= log.skip(used).take(k));
            if used == 2 {
                assert(part.skip(1).skip(1) =~= part.skip(2));
            }
            assert(bulk_update_check_next(nodes, updates, from, part) == bulk_update_schema_next(
                own,
                nodes,
                updates,
                from,
                part.skip(1),
            ));
            assert(bulk_update_schema_next(own, nodes, updates, from, part.skip(1))
                == bulk_update_check_next(nodes, updates, from + 1, part.skip(used)));
            assert(passed_at(step, log, request, k + used));
        }
    }
}

} // verus!
