//! What reading promises.

use crate::bulk::{ids_of, index_in};
use crate::bulk_laws::law_texts_are_found;
use crate::error::ErrorView;
use crate::json::Json;
use crate::lookups::{
    get_all_schemas_next, get_children_next, get_descendants_next, get_mentioned_by_next,
    get_mentioning_containers_next, get_mentions_next, get_nodes_by_root_id_next, get_nodes_next,
    get_parent_next, get_roots_next, get_schema_for_type_next, get_schema_node_next,
    get_schema_with_relationships_next, get_task_node_next, is_root_next, mention_autocomplete_next,
    populate_mentions_next, validate_next,
};
use crate::mentions::lemma_distinct;
use crate::node::{NodeReferenceView, NodeView, SchemaFieldView};
use crate::protocol::{OutcomeView, ReplyView, RequestView, StepView};
use crate::reading::get_next;
use crate::schema::first_error;
use crate::schema_list::{law_records_are_in_order, record_id};
use crate::sequences::lemma_sorted_by;
use crate::subtree::{children_tree_next, law_tree_value, subtree_next, tree_value};
use crate::text::text_le;
use crate::tree::{
    child_order, edges_from, fits, is_tree, law_children_are_in_order, nested, nested_list,
    node_map, present_children, subtree, value_map, ChildEdgeView, SubtreeDataView,
};
use vstd::prelude::*;

verus! {

/// The operation makes this one request, and this reply leads to this outcome.
pub open spec fn answers_with(
    next: spec_fn(Seq<ReplyView>) -> StepView,
    request: RequestView,
    reply: ReplyView,
    outcome: OutcomeView,
) -> bool {
    next(Seq::empty()) == StepView::Ask(request) && next(seq![reply]) == StepView::Finish(outcome)
}

/// A node is read from the store under its identifier, with its mentions and after its schema. Nothing
/// but its properties differs from what was stored, and if it was migrated, the store has it in the new
/// form too.
pub proof fn law_nodes_are_read_as_stored(
    id: Seq<char>,
    now: i64,
    log: Seq<ReplyView>,
    stored: NodeView,
    filled: NodeView,
    read: Option<NodeView>,
)
    requires
        log.len() >= 2,
        log[0] == (ReplyView::Node { node: Some(stored) }),
        log[1] == (ReplyView::Node { node: Some(filled) }),
        get_next(id, now, log) == StepView::Finish(OutcomeView::MaybeNode { node: read }),
    ensures
        get_next(id, now, log.take(0)) == StepView::Ask(RequestView::LoadNode { id }),
        get_next(id, now, log.take(1)) == StepView::Ask(
            RequestView::PopulateMentions { node: stored },
        ),
        get_next(id, now, log.take(2)) == StepView::Ask(
            RequestView::LoadSchema { node_type: filled.node_type },
        ),
        read is Some,
        (NodeView { properties: filled.properties, ..read->0 }) == filled || {
            &&& log.len() >= 5
            &&& log[3] == (ReplyView::Node { node: read })
            &&& log[4] == ReplyView::Done
            &&& (get_next(id, now, log.take(4)) matches StepView::Ask(
                RequestView::StoreUpdate { id: under, update },
            ) && under == filled.id && update.properties == Some((read->0).properties)
                && update.content is None && update.node_type is None && update.title is None
                && update.lifecycle_status is None)
        },
{
    assert(log.skip(1)[0] == log[1]);
    assert(log.skip(1).skip(1)[0] == log[2]);
    assert(log.take(1)[0] == log[0]);
    assert(log.take(2)[0] == log[0]);
    assert(log.take(2).skip(1)[0] == log[1]);
    assert(log.take(2).skip(1).skip(1).len() == 0);
    if log.len() >= 5 {
        assert(log.skip(1).skip(1).skip(1)[0] == log[3]);
        assert(log.skip(1).skip(1).skip(1).skip(1)[0] == log[4]);
        let four = log.take(4);
        assert(four[0] == log[0]);
        assert(four.skip(1)[0] == log[1]);
        assert(four.skip(1).skip(1)[0] == log[2]);
        assert(four.skip(1).skip(1).skip(1)[0] == log[3]);
        assert(four.skip(1).skip(1).skip(1).skip(1).len() == 0);
    } else if log.len() >= 4 {
        assert(log.skip(1).skip(1).skip(1)[0] == log[3]);
    }
}

/// The children, the descendants, the roots, the parent and the nodes with some identifiers are those
/// that the store names, in its order.
pub proof fn law_nodes_are_looked_up(
    id: Seq<char>,
    ids: Seq<Seq<char>>,
    limit: Option<usize>,
    offset: Option<usize>,
    nodes: Seq<NodeView>,
    parent: Option<NodeView>,
)
    ensures
        ({
            let reply = ReplyView::Nodes { nodes };
            let outcome = OutcomeView::Nodes { nodes };
            &&& answers_with(
                |l: Seq<ReplyView>| get_children_next(id, l),
                RequestView::LoadChildren { id },
                reply,
                outcome,
            )
            &&& answers_with(
                |l: Seq<ReplyView>| get_descendants_next(id, l),
                RequestView::LoadDescendants { id },
                reply,
                outcome,
            )
            &&& answers_with(
                |l: Seq<ReplyView>| get_nodes_by_root_id_next(id, l),
                RequestView::LoadDescendants { id },
                reply,
                outcome,
            )
            &&& answers_with(
                |l: Seq<ReplyView>| get_roots_next(limit, offset, l),
                RequestView::LoadRoots { limit, offset },
                reply,
                outcome,
            )
            &&& answers_with(
                |l: Seq<ReplyView>| get_nodes_next(ids, l),
                RequestView::LoadNodes { ids },
                reply,
                outcome,
            )
            &&& answers_with(
                |l: Seq<ReplyView>| get_parent_next(id, l),
                RequestView::LoadParent { id },
                ReplyView::Node { node: parent },
                OutcomeView::MaybeNode { node: parent },
            )
        }),
{
}

/// A node is a root exactly if it has no parent.
pub proof fn law_roots_have_no_parent(id: Seq<char>, parent: Option<NodeView>, value: bool)
    requires
        is_root_next(id, seq![ReplyView::Node { node: parent }]) == StepView::Finish(
            OutcomeView::Flag { value },
        ),
    ensures
        value <==> parent is None,
        is_root_next(id, Seq::empty()) == StepView::Ask(RequestView::GetParent { id }),
{
}

/// The suggestions for a mention are what the store finds for the text, and no more of them are asked
/// for than the caller wants.
pub proof fn law_suggestions(query: Seq<char>, limit: Option<usize>, nodes: Seq<NodeView>)
    ensures
        mention_autocomplete_next(query, limit, Seq::empty()) matches StepView::Ask(
            RequestView::SearchMentionable { query: text, limit: most },
        ) && text == query && (most is None <==> limit is None) && (limit is Some && limit->0
            <= i64::MAX ==> most->0 == limit->0),
        mention_autocomplete_next(query, limit, seq![ReplyView::Nodes { nodes }])
            == StepView::Finish(OutcomeView::Nodes { nodes }),
{
}

/// Mentions are told in both directions, and a node that is read carries those that go out from it.
pub proof fn law_mentions_are_looked_up(
    id: Seq<char>,
    node: NodeView,
    items: Seq<Seq<char>>,
    containers: Seq<NodeReferenceView>,
)
    ensures
        answers_with(
            |l: Seq<ReplyView>| get_mentions_next(id, l),
            RequestView::LoadMentions { id },
            ReplyView::Texts { items },
            OutcomeView::Ids { ids: items },
        ),
        answers_with(
            |l: Seq<ReplyView>| get_mentioned_by_next(id, l),
            RequestView::LoadMentionedBy { id },
            ReplyView::Texts { items },
            OutcomeView::Ids { ids: items },
        ),
        answers_with(
            |l: Seq<ReplyView>| get_mentioning_containers_next(id, l),
            RequestView::LoadMentionContainers { id },
            ReplyView::References { items: containers },
            OutcomeView::References { items: containers },
        ),
        populate_mentions_next(node, Seq::empty()) == StepView::Ask(
            RequestView::LoadMentions { id: node.id },
        ),
        populate_mentions_next(node, seq![ReplyView::Texts { items }]) matches StepView::Finish(
            OutcomeView::Node { node: filled },
        ) && filled.mentions == items && filled.id == node.id && filled.node_type == node.node_type
            && filled.content == node.content && filled.properties == node.properties
            && filled.version == node.version && filled.created_at == node.created_at
            && filled.modified_at == node.modified_at && filled.title == node.title
            && filled.lifecycle_status == node.lifecycle_status && filled.mentioned_in
            == node.mentioned_in,
{
}

/// Tasks and schemas are what the store has under the identifier.
pub proof fn law_records_are_looked_up(
    id: Seq<char>,
    value: Option<Json>,
    fields: Option<Seq<SchemaFieldView>>,
)
    ensures
        answers_with(
            |l: Seq<ReplyView>| get_task_node_next(id, l),
            RequestView::LoadTask { id },
            ReplyView::MaybeValue { value },
            OutcomeView::MaybeJson { value },
        ),
        answers_with(
            |l: Seq<ReplyView>| get_schema_node_next(id, l),
            RequestView::LoadSchemaNode { id },
            ReplyView::MaybeValue { value },
            OutcomeView::MaybeJson { value },
        ),
        answers_with(
            |l: Seq<ReplyView>| get_schema_with_relationships_next(id, l),
            RequestView::LoadSchemaNode { id },
            ReplyView::MaybeValue { value },
            OutcomeView::MaybeJson { value },
        ),
        answers_with(
            |l: Seq<ReplyView>| get_schema_for_type_next(id, l),
            RequestView::LoadSchema { node_type: id },
            ReplyView::Schema { schema: value, fields },
            OutcomeView::MaybeJson { value },
        ),
{
}

/// A node passes the check against its schema exactly if there is none, its fields cannot be read, or
/// none of them has anything against it.
pub proof fn law_nodes_are_checked_by_their_schema(
    node: NodeView,
    schema: Option<Json>,
    fields: Option<Seq<SchemaFieldView>>,
)
    ensures
        validate_next(node, Seq::empty()) == StepView::Ask(
            RequestView::LoadSchema { node_type: node.node_type },
        ),
        validate_next(node, seq![ReplyView::Schema { schema, fields }]) == StepView::Finish(
            OutcomeView::Nothing,
        ) <==> schema is None || fields is None || first_error(node, fields->0) is None,
        !(schema is None || fields is None || first_error(node, fields->0) is None) ==> (
        validate_next(node, seq![ReplyView::Schema { schema, fields }]) matches StepView::Fail(
            ErrorView::InvalidUpdate(_),
        )),
{
}

proof fn lemma_node_map(nodes: Seq<NodeView>, id: Seq<char>)
    ensures
        node_map(nodes).contains_key(id) <==> exists|i: int|
            0 <= i < nodes.len() && (#[trigger] nodes[i]).id == id,
        node_map(nodes).contains_key(id) ==> node_map(nodes)[id].id == id && nodes.contains(
            node_map(nodes)[id],
        ),
    decreases nodes.len(),
{
    if nodes.len() > 0 {
        let front = nodes.drop_last();
        lemma_node_map(front, id);
        crate::sequences::lemma_push_contains(front, nodes.last());
        assert(front.push(nodes.last()) =~= nodes);
        if exists|i: int| 0 <= i < front.len() && (#[trigger] front[i]).id == id {
            let i = choose|i: int| 0 <= i < front.len() && (#[trigger] front[i]).id == id;
            assert(nodes[i].id == id);
        }
        if exists|i: int| 0 <= i < nodes.len() && (#[trigger] nodes[i]).id == id {
            let i = choose|i: int| 0 <= i < nodes.len() && (#[trigger] nodes[i]).id == id;
            if i < front.len() {
                assert(front[i].id == id);
            }
        }
        if nodes.last().id == id {
            assert(nodes[nodes.len() - 1].id == id);
        }
    }
}

/// A subtree has the nodes and the edges that were loaded: its root is the node with the identifier, if
/// it is among them, each node stands under its identifier, and the children of a node are the ends of
/// the edges that start at it, lower orders first.
pub proof fn law_subtrees_have_what_was_loaded(
    root_id: Seq<char>,
    nodes: Seq<NodeView>,
    edges: Seq<ChildEdgeView>,
    id: Seq<char>,
    child: Seq<char>,
    i: int,
    j: int,
)
    ensures
        ({
            let data = subtree(root_id, nodes, edges);
            &&& data.root is Some ==> (data.root->0).id == root_id && nodes.contains(data.root->0)
            &&& data.root is Some <==> exists|k: int|
                0 <= k < nodes.len() && (#[trigger] nodes[k]).id == root_id
            &&& data.nodes.contains_key(id) <==> exists|k: int|
                0 <= k < nodes.len() && (#[trigger] nodes[k]).id == id
            &&& data.nodes.contains_key(id) ==> data.nodes[id].id == id && nodes.contains(
                data.nodes[id],
            )
            &&& data.children.contains_key(id) <==> exists|k: int|
                0 <= k < edges.len() && (#[trigger] edges[k]).parent == id
            &&& data.children.contains_key(id) ==> (data.children[id].contains(child)
                <==> exists|k: int|
                0 <= k < edges.len() && (#[trigger] edges[k]).parent == id && edges[k].child == child)
            &&& data.children.contains_key(id) && 0 <= i <= j < data.children[id].len() ==> exists|
                a: int,
                b: int,
            |
                0 <= a < edges.len() && 0 <= b < edges.len() && (#[trigger] edges[a]).child
                    == data.children[id][i] && (#[trigger] edges[b]).child == data.children[id][j]
                    && edges[a].parent == id && edges[b].parent == id && edges[a].order
                    <= edges[b].order
        }),
{
    let data = subtree(root_id, nodes, edges);
    law_texts_are_found(ids_of(nodes), root_id, 0);
    let at = index_in(ids_of(nodes), root_id);
    if at < nodes.len() {
        assert(ids_of(nodes)[at] == nodes[at].id);
        assert(nodes[at].id == root_id);
    }
    if exists|k: int| 0 <= k < nodes.len() && (#[trigger] nodes[k]).id == root_id {
        let k = choose|k: int| 0 <= k < nodes.len() && (#[trigger] nodes[k]).id == root_id;
        assert(ids_of(nodes)[k] == root_id);
        law_texts_are_found(ids_of(nodes), root_id, k);
    }
    lemma_node_map(nodes, id);
    let starts = edges.map_values(|e: ChildEdgeView| e.parent);
    lemma_distinct(starts);
    if starts.contains(id) {
        let k = choose|k: int| 0 <= k < starts.len() && starts[k] == id;
        assert(edges[k].parent == id);
    }
    if exists|k: int| 0 <= k < edges.len() && (#[trigger] edges[k]).parent == id {
        let k = choose|k: int| 0 <= k < edges.len() && (#[trigger] edges[k]).parent == id;
        assert(starts[k] == id);
    }
    if data.children.contains_key(id) {
        let from = edges_from(edges, id);
        let list = data.children[id];
        assert(list =~= from.map_values(|e: ChildEdgeView| e.child));
        if list.contains(child) {
            let k = choose|k: int| 0 <= k < list.len() && list[k] == child;
            lemma_edge_from(edges, id, k);
        }
        if exists|k: int|
            0 <= k < edges.len() && (#[trigger] edges[k]).parent == id && edges[k].child == child {
            let k = choose|k: int|
                0 <= k < edges.len() && (#[trigger] edges[k]).parent == id && edges[k].child == child;
            lemma_edge_to(edges, id, k);
            let m = choose|m: int| 0 <= m < from.len() && from[m] == edges[k];
            assert(list[m] == child);
        }
        if 0 <= i <= j < list.len() {
            let a = lemma_edge_from(edges, id, i);
            let b = lemma_edge_from(edges, id, j);
            law_children_are_in_order(edges.filter(|e: ChildEdgeView| e.parent == id), 0);
            assert(edges[a].order <= edges[b].order);
        }
    }
}

proof fn lemma_edge_from(edges: Seq<ChildEdgeView>, id: Seq<char>, k: int) -> (at: int)
    requires
        0 <= k < edges_from(edges, id).len(),
    ensures
        0 <= at < edges.len(),
        edges[at] == edges_from(edges, id)[k],
        edges[at].parent == id,
{
    broadcast use vstd::seq_lib::group_to_multiset_ensures;

    let here = |e: ChildEdgeView| e.parent == id;
    let kept = edges.filter(here);
    let from = edges_from(edges, id);
    let e = from[k];
    lemma_sorted_by(kept, child_order());
    assert(from.contains(e));
    assert(from.to_multiset().count(e) > 0);
    assert(kept.contains(e));
    let m = choose|m: int| 0 <= m < kept.len() && kept[m] == e;
    edges.lemma_filter_contains_rev(here, e);
    edges.lemma_filter_pred(here, m);
    choose|at: int| 0 <= at < edges.len() && edges[at] == e
}

proof fn lemma_edge_to(edges: Seq<ChildEdgeView>, id: Seq<char>, k: int)
    requires
        0 <= k < edges.len(),
        edges[k].parent == id,
    ensures
        edges_from(edges, id).contains(edges[k]),
{
    broadcast use vstd::seq_lib::group_to_multiset_ensures;

    let here = |e: ChildEdgeView| e.parent == id;
    let kept = edges.filter(here);
    lemma_sorted_by(kept, child_order());
    edges.lemma_filter_contains(here, k);
    assert(kept.to_multiset().count(edges[k]) > 0);
}

/// The subtree of a node is loaded from the store under its identifier.
pub proof fn law_subtrees_are_loaded(
    id: Seq<char>,
    nodes: Seq<NodeView>,
    edges: Seq<ChildEdgeView>,
)
    ensures
        subtree_next(id, Seq::empty()) == StepView::Ask(RequestView::LoadSubtree { root_id: id }),
        subtree_next(id, seq![ReplyView::Subtree { nodes, edges }]) == StepView::Finish(
            OutcomeView::Subtree { data: subtree(id, nodes, edges) },
        ),
{
}

proof fn lemma_list_values(
    data: SubtreeDataView,
    values: Map<Seq<char>, Json>,
    kids: Seq<Seq<char>>,
    depth: nat,
    i: int,
)
    requires
        depth > 0,
    ensures
        nested_list(data, values, kids, depth).len() == kids.len(),
        0 <= i < kids.len() ==> nested_list(data, values, kids, depth)[i] == nested(
            data,
            values,
            kids[i],
            values[kids[i]],
            (depth - 1) as nat,
        ),
    decreases kids.len(),
{
    if kids.len() > 0 {
        lemma_list_values(data, values, kids.drop_last(), depth, i);
    }
}

/// The value of a tree keeps what the value of its root says and lists the values of the trees below
/// it under `children`, one for each child that is there, in order.
pub proof fn law_trees_nest(
    data: SubtreeDataView,
    values: Map<Seq<char>, Json>,
    id: Seq<char>,
    own: Json,
    key: Seq<char>,
    i: int,
)
    requires
        is_tree(data, id),
        own is Object,
    ensures
        key != "children"@ ==> tree_value(data, values, id, own).member(key) == own.member(key),
        tree_value(data, values, id, own).member("children"@) matches Some(Json::Array(items))
            && items.len() == present_children(data, id).len() && (0 <= i < items.len() ==> is_tree(
            data,
            present_children(data, id)[i],
        ) && items[i] == tree_value(
            data,
            values,
            present_children(data, id)[i],
            values[present_children(data, id)[i]],
        )),
{
    let depth = choose|depth: nat| fits(data, id, depth);
    let kids = present_children(data, id);
    if kids.len() > 0 {
        lemma_list_values(data, values, kids, depth, i);
        if 0 <= i < kids.len() {
            assert(fits(data, kids[i], (depth - 1) as nat));
            law_tree_value(data, values, kids[i], values[kids[i]]);
        }
    }
}

/// The children of a node that are part of a subtree are those that are among its nodes.
pub proof fn law_present_children(data: SubtreeDataView, id: Seq<char>, child: Seq<char>)
    ensures
        present_children(data, id).contains(child) <==> data.children.contains_key(id)
            && data.children[id].contains(child) && data.nodes.contains_key(child),
{
    let there = |c: Seq<char>| data.nodes.contains_key(c);
    if data.children.contains_key(id) {
        let list = data.children[id];
        if list.filter(there).contains(child) {
            let k = choose|k: int| 0 <= k < list.filter(there).len() && list.filter(there)[k] == child;
            list.lemma_filter_contains_rev(there, child);
            list.lemma_filter_pred(there, k);
        }
        if list.contains(child) && there(child) {
            let k = choose|k: int| 0 <= k < list.len() && list[k] == child;
            list.lemma_filter_contains(there, k);
        }
    }
}

/// Each node of a subtree stands for the value that was made for it.
pub proof fn law_values_belong_to_nodes(nodes: Seq<NodeView>, values: Seq<Json>, i: int)
    requires
        nodes.len() == values.len(),
        0 <= i < nodes.len(),
        forall|a: int, b: int|
            0 <= a < b < nodes.len() ==> (#[trigger] nodes[a]).id != (#[trigger] nodes[b]).id,
    ensures
        value_map(nodes, values).contains_key(nodes[i].id),
        value_map(nodes, values)[nodes[i].id] == values[i],
    decreases nodes.len(),
{
    let front = nodes.drop_last();
    let fewer = values.take(nodes.len() - 1);
    if i < front.len() {
        assert forall|a: int, b: int| 0 <= a < b < front.len() implies (#[trigger] front[a]).id != (
        #[trigger] front[b]).id by {
            assert(nodes[a].id != nodes[b].id);
        }
        law_values_belong_to_nodes(front, fewer, i);
        assert(front[i] == nodes[i]);
        assert(nodes[i].id != nodes[nodes.len() - 1].id);
    }
}

/// The tree of a node asks for the subtree, for where the root is mentioned, and for the values of the
/// root, which says where it is mentioned, and of all nodes; without the node it is empty.
pub proof fn law_trees_are_put_together(
    id: Seq<char>,
    nodes: Seq<NodeView>,
    edges: Seq<ChildEdgeView>,
    items: Seq<NodeReferenceView>,
    k: int,
)
    ensures
        ({
            let one = seq![ReplyView::Subtree { nodes, edges }];
            let two = one.push(ReplyView::References { items });
            &&& children_tree_next(id, Seq::empty()) == StepView::Ask(
                RequestView::LoadSubtree { root_id: id },
            )
            &&& (exists|i: int| 0 <= i < nodes.len() && (#[trigger] nodes[i]).id == id)
                ==> children_tree_next(id, one) == StepView::Ask(
                RequestView::LoadMentionContainers { id },
            )
            &&& !(exists|i: int| 0 <= i < nodes.len() && (#[trigger] nodes[i]).id == id)
                ==> children_tree_next(id, one) == StepView::Finish(
                OutcomeView::Json { value: Json::Object(Map::empty()) },
            )
            &&& (exists|i: int| 0 <= i < nodes.len() && (#[trigger] nodes[i]).id == id) ==> (
            children_tree_next(id, two) matches StepView::Ask(RequestView::Render { nodes: shown })
                && shown.len() == nodes.len() + 1 && shown[0].id == id && shown[0].mentioned_in
                == items && (0 <= k < nodes.len() ==> shown[k + 1] == nodes[k]))
        }),
{
    law_subtrees_have_what_was_loaded(id, nodes, edges, id, id, 0, 0);
}

/// All schemas are those that the store has, each once, in the order of their identifiers.
pub proof fn law_schemas_are_listed(values: Seq<Json>, listed: Seq<Json>, i: int, j: int)
    requires
        get_all_schemas_next(seq![ReplyView::Values { values }]) == StepView::Finish(
            OutcomeView::Values { values: listed },
        ),
    ensures
        get_all_schemas_next(Seq::empty()) == StepView::Ask(RequestView::LoadAllSchemas),
        listed.to_multiset() == values.to_multiset(),
        listed.len() == values.len(),
        0 <= i <= j < listed.len() ==> text_le(record_id(listed[i]), record_id(listed[j])),
{
    law_records_are_in_order(values);
}

} // verus!
