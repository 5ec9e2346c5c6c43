//! The nodes that a new store starts with.

use crate::bulk::{find_index, index_in};
use crate::create::{CreateNodeParams, CreateNodeParamsView};
use crate::error::{ErrorView, NodeServiceError};
use crate::mentions::push_new;
use crate::node::{bulk_views, node_views, texts, BulkNode, BulkNodeView, Node, NodeView};
use crate::protocol::{
    group_replies, replies, replies_from, Outcome, OutcomeView, Reply, ReplyView, Request,
    RequestView, Step, StepView,
};
use crate::service::NodeService;
use vstd::prelude::*;
use vstd::string::*;

verus! {

broadcast use group_replies;

/// The core schemas are stored unless the schema of tasks is there.
pub open spec fn seed_schemas_next(schemas: Seq<NodeView>, log: Seq<ReplyView>) -> StepView {
    if log.len() == 0 {
        StepView::Ask(RequestView::LoadNode { id: "task"@ })
    } else {
        match log[0] {
            ReplyView::Failed { message } => StepView::Fail(
                ErrorView::QueryFailed("Failed to check for schemas: "@ + message),
            ),
            ReplyView::Node { node: Some(_) } => StepView::Finish(OutcomeView::Nothing),
            ReplyView::Node { node: None } => seed_schema_next(schemas, 0, log.skip(1)),
            _ => StepView::Mismatch,
        }
    }
}

/// The schemas from position `i` on are stored, each in one transaction with its tables.
pub open spec fn seed_schema_next(schemas: Seq<NodeView>, i: nat, log: Seq<ReplyView>) -> StepView
    decreases schemas.len() - i,
{
    if i >= schemas.len() {
        seed_cache_next(schemas, log)
    } else if log.len() == 0 {
        StepView::Ask(RequestView::InsertSchemaNode { node: schemas[i as int] })
    } else {
        match log[0] {
            ReplyView::Refused { error } => seed_reject_next(
                schemas[i as int].id,
                error,
                log.skip(1),
            ),
            ReplyView::Failed { message } => StepView::Fail(
                ErrorView::SerializationError(
                    "Failed to create schema node '"@ + schemas[i as int].id + "': "@ + message,
                ),
            ),
            ReplyView::Done => seed_schema_next(schemas, i + 1, log.skip(1)),
            _ => StepView::Mismatch,
        }
    }
}

/// The failure to define the tables of a schema is told with the words of its error.
pub open spec fn seed_reject_next(
    id: Seq<char>,
    error: ErrorView,
    log: Seq<ReplyView>,
) -> StepView {
    if log.len() == 0 {
        StepView::Ask(RequestView::Describe { error })
    } else {
        match log[0] {
            ReplyView::Text { text } => StepView::Fail(
                ErrorView::SerializationError(
                    "Failed to generate relationship DDL for '"@ + id + "': "@ + text,
                ),
            ),
            _ => StepView::Mismatch,
        }
    }
}

pub open spec fn seed_cache_next(schemas: Seq<NodeView>, log: Seq<ReplyView>) -> StepView {
    if log.len() == 0 {
        StepView::Ask(
            RequestView::CacheSchemas { ids: schemas.map_values(|s: NodeView| s.id) },
        )
    } else {
        match log[0] {
            ReplyView::Refused { error } => StepView::Fail(error),
            ReplyView::Done => StepView::Finish(OutcomeView::Nothing),
            _ => StepView::Mismatch,
        }
    }
}

/// The values of groups of nodes.
pub open spec fn group_views(groups: Seq<Vec<BulkNode>>) -> Seq<Seq<BulkNodeView>> {
    groups.map_values(|g: Vec<BulkNode>| bulk_views(g@))
}

/// The types of the roots of some groups, each once.
pub open spec fn root_types(groups: Seq<Seq<BulkNodeView>>) -> Seq<Seq<char>>
    decreases groups.len(),
{
    if groups.len() == 0 {
        Seq::empty()
    } else {
        let before = root_types(groups.drop_last());
        let group = groups.last();
        if group.len() == 0 || before.contains(group[0].node_type) {
            before
        } else {
            before.push(group[0].node_type)
        }
    }
}

/// The seeding of groups of nodes. The first node of a group is its root.
pub open spec fn seed_nodes_next(groups: Seq<Seq<BulkNodeView>>, log: Seq<ReplyView>) -> StepView {
    if groups.len() == 0 {
        StepView::Finish(OutcomeView::Nothing)
    } else {
        seed_types_next(groups, 0, log)
    }
}

/// The nodes that exist are asked for, type by type from position `k` on.
pub open spec fn seed_types_next(
    groups: Seq<Seq<BulkNodeView>>,
    k: nat,
    log: Seq<ReplyView>,
) -> StepView
    decreases root_types(groups).len() - k,
{
    let types = root_types(groups);
    if k >= types.len() {
        seed_groups_next(groups, types, log.take(k as int), 0, log.skip(k as int))
    } else if log.len() <= k {
        StepView::Ask(RequestView::QueryByType { node_type: types[k as int] })
    } else {
        match log[k as int] {
            ReplyView::Refused { error } => StepView::Fail(error),
            ReplyView::Nodes { nodes: _ } => seed_types_next(groups, k + 1, log),
            _ => StepView::Mismatch,
        }
    }
}

/// Nodes of the type existed before the seeding.
pub open spec fn type_present(
    types: Seq<Seq<char>>,
    present: Seq<ReplyView>,
    node_type: Seq<char>,
) -> bool {
    let at = index_in(types, node_type);
    at < types.len() && at < present.len() && (match present[at] {
        ReplyView::Nodes { nodes } => nodes.len() > 0,
        _ => false,
    })
}

pub open spec fn root_params(root: BulkNodeView) -> CreateNodeParamsView {
    CreateNodeParamsView {
        id: Some(root.id),
        node_type: root.node_type,
        content: root.content,
        parent_id: None,
        insert_after_node_id: None,
        properties: root.properties,
    }
}

/// The groups from position `i` on are created, except those whose type was present.
pub open spec fn seed_groups_next(
    groups: Seq<Seq<BulkNodeView>>,
    types: Seq<Seq<char>>,
    present: Seq<ReplyView>,
    i: nat,
    log: Seq<ReplyView>,
) -> StepView
    decreases groups.len() - i, 1nat,
{
    if i >= groups.len() {
        StepView::Finish(OutcomeView::Nothing)
    } else {
        let group = groups[i as int];
        if group.len() == 0 || type_present(types, present, group[0].node_type) {
            seed_groups_next(groups, types, present, i + 1, log)
        } else if log.len() == 0 {
            StepView::Ask(RequestView::CreateNodeWithParent { params: root_params(group[0]) })
        } else {
            match log[0] {
                ReplyView::Refused { error } => StepView::Fail(error),
                ReplyView::Text { text: _ } => seed_children_next(
                    groups,
                    types,
                    present,
                    i,
                    log.skip(1),
                ),
                _ => StepView::Mismatch,
            }
        }
    }
}

pub open spec fn seed_children_next(
    groups: Seq<Seq<BulkNodeView>>,
    types: Seq<Seq<char>>,
    present: Seq<ReplyView>,
    i: nat,
    log: Seq<ReplyView>,
) -> StepView
    decreases groups.len() - i, 0nat,
{
    if i >= groups.len() {
        StepView::Mismatch
    } else if groups[i as int].len() <= 1 {
        seed_groups_next(groups, types, present, i + 1, log)
    } else if log.len() == 0 {
        StepView::Ask(RequestView::BulkCreateHierarchy { nodes: groups[i as int].skip(1) })
    } else {
        match log[0] {
            ReplyView::Refused { error } => StepView::Fail(error),
            ReplyView::Texts { items: _ } => seed_groups_next(
                groups,
                types,
                present,
                i + 1,
                log.skip(1),
            ),
            _ => StepView::Mismatch,
        }
    }
}

fn schema_ids(schemas: &Vec<Node>) -> (r: Vec<String>)
    ensures
        texts(r@) == node_views(schemas@).map_values(|s: NodeView| s.id),
{
    let mut out: Vec<String> = Vec::new();
    let mut i: usize = 0;
    while i < schemas.len()
        invariant
            i <= schemas@.len(),
            out@.len() == i,
            forall|j: int| 0 <= j < i ==> (#[trigger] out@[j])@ == schemas@[j].id@,
        decreases schemas@.len() - i,
    {
        out.push(schemas[i].id.clone());
        i += 1;
    }
    proof {
        assert(texts(out@) =~= node_views(schemas@).map_values(|s: NodeView| s.id));
    }
    out
}

fn collect_root_types(groups: &Vec<Vec<BulkNode>>) -> (r: Vec<String>)
    ensures
        texts(r@) == root_types(group_views(groups@)),
{
    let ghost all = group_views(groups@);
    let mut out: Vec<String> = Vec::new();
    let mut i: usize = 0;
    proof {
        assert(texts(out@) =~= Seq::empty());
        assert(all.take(0) =~= Seq::empty());
    }
    while i < groups.len()
        invariant
            i <= groups@.len() == all.len(),
            texts(out@).no_duplicates(),
            texts(out@) == root_types(all.take(i as int)),
        decreases groups@.len() - i,
    {
        proof {
            assert(all.take(i + 1).drop_last() =~= all.take(i as int));
            assert(all.take(i + 1).last() == bulk_views(groups@[i as int]@));
        }
        let group = &groups[i];
        if group.len() > 0 {
            push_new(&mut out, group[0].node_type.as_str());
        }
        i += 1;
    }
    proof {
        assert(all.take(all.len() as int) =~= all);
    }
    out
}

fn is_present(types: &Vec<String>, log: &Vec<Reply>, node_type: &str) -> (r: bool)
    requires
        types@.len() <= log@.len(),
    ensures
        r == type_present(texts(types@), replies(log@).take(types@.len() as int), node_type@),
{
    let at = find_index(types, node_type);
    if at < types.len() {
        match &log[at] {
            Reply::Nodes { nodes } => nodes.len() > 0,
            _ => false,
        }
    } else {
        false
    }
}

fn children_of(group: &Vec<BulkNode>) -> (r: Vec<BulkNode>)
    requires
        group@.len() > 0,
    ensures
        bulk_views(r@) == bulk_views(group@).skip(1),
{
    let mut out: Vec<BulkNode> = Vec::new();
    let mut i: usize = 1;
    while i < group.len()
        invariant
            1 <= i <= group@.len(),
            out@.len() == i - 1,
            forall|j: int| 0 <= j < i - 1 ==> (#[trigger] out@[j])@ == group@[j + 1]@,
        decreases group@.len() - i,
    {
        out.push((&group[i]).clone());
        i += 1;
    }
    proof {
        assert(bulk_views(out@) =~= bulk_views(group@).skip(1));
    }
    out
}

fn reject_schema(id: &str, error: &NodeServiceError, log: &Vec<Reply>, from: usize) -> (r: Step)
    requires
        from <= log@.len(),
    ensures
        r@ == seed_reject_next(id@, error@, replies_from(log@, from as int)),
{
    if from >= log.len() {
        return Step::Ask(Request::Describe { error: error.clone() });
    }
    match &log[from] {
        Reply::Text { text } => {
            let mut message = "Failed to generate relationship DDL for '".to_string();
            message.append(id);
            message.append("': ");
            message.append(text.as_str());
            Step::Fail(NodeServiceError::SerializationError(message))
        },
        _ => Step::Mismatch,
    }
}

impl NodeService {
    /// Stores the core schemas in a store that has none.
    pub fn seed_core_schemas_if_needed(schemas: &Vec<Node>, log: &Vec<Reply>) -> (r: Step)
        ensures
            r@ == seed_schemas_next(node_views(schemas@), replies(log@)),
    {
        if log.len() == 0 {
            return Step::Ask(Request::LoadNode { id: "task".to_string() });
        }
        match &log[0] {
            Reply::Failed { message } => {
                let mut text = "Failed to check for schemas: ".to_string();
                text.append(message.as_str());
                return Step::Fail(NodeServiceError::QueryFailed(text));
            },
            Reply::Node { node: Some(_) } => {
                return Step::Finish(Outcome::Nothing);
            },
            Reply::Node { node: None } => {},
            _ => {
                return Step::Mismatch;
            },
        }
        let ghost all = node_views(schemas@);
        let ghost want = seed_schemas_next(all, replies(log@));
        let mut at: usize = 1;
        let mut i: usize = 0;
        proof {
            assert(want == seed_schema_next(all, 0, replies_from(log@, 1)));
        }
        while i < schemas.len()
            invariant
                i <= schemas@.len() == all.len(),
                at <= log@.len(),
                want == seed_schema_next(all, i as nat, replies_from(log@, at as int)),
            decreases schemas@.len() - i,
        {
            let schema = &schemas[i];
            if at >= log.len() {
                return Step::Ask(Request::InsertSchemaNode { node: schema.clone() });
            }
            match &log[at] {
                Reply::Refused { error } => {
                    return reject_schema(schema.id.as_str(), error, log, at + 1);
                },
                Reply::Failed { message } => {
                    let mut text = "Failed to create schema node '".to_string();
                    text.append(schema.id.as_str());
                    text.append("': ");
                    text.append(message.as_str());
                    return Step::Fail(NodeServiceError::SerializationError(text));
                },
                Reply::Done => {},
                _ => {
                    return Step::Mismatch;
                },
            }
            at += 1;
            i += 1;
        }
        if at >= log.len() {
            return Step::Ask(Request::CacheSchemas { ids: schema_ids(schemas) });
        }
        match &log[at] {
            Reply::Refused { error } => Step::Fail(error.clone()),
            Reply::Done => Step::Finish(Outcome::Nothing),
            _ => Step::Mismatch,
        }
    }

    /// Creates groups of nodes, each a root and what lies below it. A type of which a node exists
    /// is skipped.
    pub fn seed_nodes_from_templates(
        &self,
        template_groups: &Vec<Vec<BulkNode>>,
        log: &Vec<Reply>,
    ) -> (r: Step)
        ensures
            r@ == seed_nodes_next(group_views(template_groups@), replies(log@)),
    {
        if template_groups.len() == 0 {
            return Step::Finish(Outcome::Nothing);
        }
        let ghost all = group_views(template_groups@);
        let ghost answers = replies(log@);
        let types = collect_root_types(template_groups);
        let mut k: usize = 0;
        while k < types.len()
            invariant
                k <= types@.len() == root_types(all).len(),
                k <= log@.len(),
                seed_nodes_next(all, answers) == seed_types_next(all, k as nat, answers),
            decreases types@.len() - k,
        {
            if k >= log.len() {
                return Step::Ask(Request::QueryByType { node_type: types[k].clone() });
            }
            match &log[k] {
                Reply::Refused { error } => {
                    return Step::Fail(error.clone());
                },
                Reply::Nodes { nodes: _ } => {},
                _ => {
                    return Step::Mismatch;
                },
            }
            k += 1;
        }
        proof {
            assert(replies_from(log@, k as int) =~= answers.skip(k as int));
        }
        NodeService::seed_groups(template_groups, &types, log)
    }

    fn seed_groups(groups: &Vec<Vec<BulkNode>>, types: &Vec<String>, log: &Vec<Reply>) -> (r: Step)
        requires
            types@.len() <= log@.len(),
        ensures
            r@ == seed_groups_next(
                group_views(groups@),
                texts(types@),
                replies(log@).take(types@.len() as int),
                0,
                replies_from(log@, types@.len() as int),
            ),
    {
        let ghost all = group_views(groups@);
        let ghost names = texts(types@);
        let ghost present = replies(log@).take(types@.len() as int);
        let ghost want = seed_groups_next(
            all,
            names,
            present,
            0,
            replies_from(log@, types@.len() as int),
        );
        let mut at: usize = types.len();
        let mut i: usize = 0;
        while i < groups.len()
            invariant
                i <= groups@.len() == all.len(),
                at <= log@.len(),
                want == seed_groups_next(
                    all,
                    names,
                    present,
                    i as nat,
                    replies_from(log@, at as int),
                ),
            decreases groups@.len() - i,
        {
            let group = &groups[i];
            proof {
                assert(all[i as int] == bulk_views(group@));
            }
            if group.len() > 0 && !is_present(types, log, group[0].node_type.as_str()) {
                if at >= log.len() {
                    return Step::Ask(
                        Request::CreateNodeWithParent {
                            params: CreateNodeParams {
                                id: Some(group[0].id.clone()),
                                node_type: group[0].node_type.clone(),
                                content: group[0].content.clone(),
                                parent_id: None,
                                insert_after_node_id: None,
                                properties: group[0].properties.clone(),
                            },
                        },
                    );
                }
                match &log[at] {
                    Reply::Refused { error } => {
                        return Step::Fail(error.clone());
                    },
                    Reply::Text { text: _ } => {},
                    _ => {
                        return Step::Mismatch;
                    },
                }
                at += 1;
                proof {
                    assert(want == seed_children_next(
                        all,
                        names,
                        present,
                        i as nat,
                        replies_from(log@, at as int),
                    ));
                }
                if group.len() > 1 {
                    if at >= log.len() {
                        return Step::Ask(
                            Request::BulkCreateHierarchy { nodes: children_of(group) },
                        );
                    }
                    match &log[at] {
                        Reply::Refused { error } => {
                            return Step::Fail(error.clone());
                        },
                        Reply::Texts { items: _ } => {},
                        _ => {
                            return Step::Mismatch;
                        },
                    }
                    at += 1;
                }
            }
            i += 1;
        }
        Step::Finish(Outcome::Nothing)
    }
}

/// A store that holds the schema of tasks is left as it is.
pub proof fn law_schemas_are_seeded_once(
    schemas: Seq<NodeView>,
    task: NodeView,
    log: Seq<ReplyView>,
)
    requires
        log.len() > 0,
        log[0] == (ReplyView::Node { node: Some(task) }),
    ensures
        seed_schemas_next(schemas, log) == StepView::Finish(OutcomeView::Nothing),
{
}

/// No root is created whose type was present, and every root has one of the types that were asked
/// for.
pub proof fn law_present_types_are_skipped(
    groups: Seq<Seq<BulkNodeView>>,
    params: CreateNodeParamsView,
    log: Seq<ReplyView>,
)
    requires
        seed_nodes_next(groups, log) == StepView::Ask(RequestView::CreateNodeWithParent { params }),
    ensures
        ({
            let types = root_types(groups);
            let at = index_in(types, params.node_type);
            &&& 0 <= at < types.len() <= log.len()
            &&& types[at] == params.node_type
            &&& log[at] == (ReplyView::Nodes { nodes: Seq::empty() })
        }),
{
    let types = root_types(groups);
    lemma_types_asked(groups, 0, log);
    lemma_groups_skip(groups, types, log.take(types.len() as int), 0, log.skip(types.len() as int), params);
    lemma_root_type_found(groups, params.node_type);
    let at = index_in(types, params.node_type);
    match log[at] {
        ReplyView::Nodes { nodes } => {
            assert(nodes.len() == 0);
            assert(nodes =~= Seq::empty());
        },
        _ => {},
    }
}

proof fn lemma_types_asked(groups: Seq<Seq<BulkNodeView>>, k: nat, log: Seq<ReplyView>)
    requires
        k <= root_types(groups).len(),
        k <= log.len(),
        seed_types_next(groups, k, log) matches StepView::Ask(
            RequestView::CreateNodeWithParent { params: _ },
        ),
    ensures
        root_types(groups).len() <= log.len(),
        forall|j: int| k <= j < root_types(groups).len() ==> #[trigger] log[j] is Nodes,
        seed_types_next(groups, k, log) == seed_groups_next(
            groups,
            root_types(groups),
            log.take(root_types(groups).len() as int),
            0,
            log.skip(root_types(groups).len() as int),
        ),
    decreases root_types(groups).len() - k,
{
    if k < root_types(groups).len() {
        lemma_types_asked(groups, k + 1, log);
    }
}

proof fn lemma_groups_skip(
    groups: Seq<Seq<BulkNodeView>>,
    types: Seq<Seq<char>>,
    present: Seq<ReplyView>,
    i: nat,
    log: Seq<ReplyView>,
    params: CreateNodeParamsView,
)
    requires
        seed_groups_next(groups, types, present, i, log) == StepView::Ask(
            RequestView::CreateNodeWithParent { params },
        ),
    ensures
        !type_present(types, present, params.node_type),
        exists|g: int|
            0 <= g < groups.len() && (#[trigger] groups[g]).len() > 0 && groups[g][0].node_type
                == params.node_type,
    decreases groups.len() - i,
{
    if i < groups.len() {
        let group = groups[i as int];
        if group.len() == 0 || type_present(types, present, group[0].node_type) {
            lemma_groups_skip(groups, types, present, i + 1, log, params);
        } else if log.len() > 0 {
            assert(log[0] is Text);
            let rest = log.skip(1);
            assert(seed_groups_next(groups, types, present, i, log) == seed_children_next(
                groups,
                types,
                present,
                i,
                rest,
            ));
            if group.len() <= 1 {
                lemma_groups_skip(groups, types, present, i + 1, rest, params);
            } else {
                lemma_groups_skip(groups, types, present, i + 1, rest.skip(1), params);
            }
        } else {
            assert(groups[i as int][0].node_type == params.node_type);
        }
    }
}

proof fn lemma_root_type_found(groups: Seq<Seq<BulkNodeView>>, node_type: Seq<char>)
    requires
        exists|g: int|
            0 <= g < groups.len() && (#[trigger] groups[g]).len() > 0 && groups[g][0].node_type
                == node_type,
    ensures
        ({
            let types = root_types(groups);
            let at = index_in(types, node_type);
            0 <= at < types.len() && types[at] == node_type
        }),
{
    lemma_root_types_contain(groups, node_type);
    lemma_index_found(root_types(groups), node_type);
}

proof fn lemma_root_types_contain(groups: Seq<Seq<BulkNodeView>>, node_type: Seq<char>)
    requires
        exists|g: int|
            0 <= g < groups.len() && (#[trigger] groups[g]).len() > 0 && groups[g][0].node_type
                == node_type,
    ensures
        root_types(groups).contains(node_type),
    decreases groups.len(),
{
    let g = choose|g: int|
        0 <= g < groups.len() && (#[trigger] groups[g]).len() > 0 && groups[g][0].node_type
            == node_type;
    let before = groups.drop_last();
    let list = root_types(groups);
    if g < groups.len() - 1 {
        assert(before[g] == groups[g]);
        lemma_root_types_contain(before, node_type);
        let at = choose|at: int| 0 <= at < root_types(before).len() && root_types(before)[at] == node_type;
        assert(list[at] == node_type);
    } else if !root_types(before).contains(node_type) {
        assert(list[list.len() - 1] == node_type);
    }
}

proof fn lemma_index_found(list: Seq<Seq<char>>, text: Seq<char>)
    requires
        list.contains(text),
    ensures
        0 <= index_in(list, text) < list.len(),
        list[index_in(list, text)] == text,
    decreases list.len(),
{
    lemma_index_bounds(list.drop_last(), text);
    if list.last() != text {
        let at = choose|at: int| 0 <= at < list.len() && list[at] == text;
        assert(list.drop_last()[at] == text);
        lemma_index_found(list.drop_last(), text);
    }
}

proof fn lemma_index_bounds(list: Seq<Seq<char>>, text: Seq<char>)
    ensures
        0 <= index_in(list, text) <= list.len(),
        index_in(list, text) < list.len() ==> list[index_in(list, text)] == text,
    decreases list.len(),
{
    if list.len() > 0 {
        lemma_index_bounds(list.drop_last(), text);
    }
}

/// Once nodes of every type are there, seeding does nothing.
pub proof fn law_nodes_are_seeded_once(groups: Seq<Seq<BulkNodeView>>, log: Seq<ReplyView>)
    requires
        log.len() == root_types(groups).len(),
        forall|j: int|
            0 <= j < log.len() ==> (#[trigger] log[j] matches ReplyView::Nodes { nodes }
                && nodes.len() > 0),
    ensures
        seed_nodes_next(groups, log) == StepView::Finish(OutcomeView::Nothing),
{
    if groups.len() > 0 {
        let types = root_types(groups);
        lemma_types_present(groups, 0, log);
        assert(log.take(types.len() as int) =~= log);
        lemma_all_skipped(groups, 0, log, log.skip(types.len() as int));
    }
}

proof fn lemma_types_present(groups: Seq<Seq<BulkNodeView>>, k: nat, log: Seq<ReplyView>)
    requires
        k <= root_types(groups).len() == log.len(),
        forall|j: int| 0 <= j < log.len() ==> #[trigger] log[j] is Nodes,
    ensures
        seed_types_next(groups, k, log) == seed_groups_next(
            groups,
            root_types(groups),
            log.take(log.len() as int),
            0,
            log.skip(log.len() as int),
        ),
    decreases log.len() - k,
{
    if k < log.len() {
        lemma_types_present(groups, k + 1, log);
    }
}

proof fn lemma_all_skipped(
    groups: Seq<Seq<BulkNodeView>>,
    i: nat,
    present: Seq<ReplyView>,
    log: Seq<ReplyView>,
)
    requires
        present.len() == root_types(groups).len(),
        forall|j: int|
            0 <= j < present.len() ==> (#[trigger] present[j] matches ReplyView::Nodes { nodes }
                && nodes.len() > 0),
    ensures
        seed_groups_next(groups, root_types(groups), present, i, log) == StepView::Finish(
            OutcomeView::Nothing,
        ),
    decreases groups.len() - i,
{
    if i < groups.len() {
        let group = groups[i as int];
        if group.len() > 0 {
            lemma_root_type_found(groups, group[0].node_type);
        }
        lemma_all_skipped(groups, i + 1, present, log);
    }
}

} // verus!
