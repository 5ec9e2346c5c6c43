//! The loading of a node with everything below it.

use crate::error::{ErrorView, NodeServiceError};
use crate::json::{list_view, lemma_list_view, Json, Object, Value};
use crate::node::{clone_references, node_views, Node, NodeView};
use crate::protocol::{
    group_replies, replies, replies_from, Outcome, OutcomeView, Reply, ReplyView, Request,
    RequestView, Step, StepView,
};
use crate::service::NodeService;
use crate::tree::{
    build_node_tree_recursive, fits, is_tree, law_nesting_is_complete, make_subtree, nested,
    subtree, value_map, SubtreeData, SubtreeDataView,
};
use vstd::prelude::*;
use vstd::string::*;

verus! {

broadcast use group_replies;

/// The loading of a subtree.
pub open spec fn subtree_next(root_id: Seq<char>, log: Seq<ReplyView>) -> StepView {
    if log.len() == 0 {
        StepView::Ask(RequestView::LoadSubtree { root_id })
    } else {
        match log[0] {
            ReplyView::Failed { message } => StepView::Fail(
                ErrorView::QueryFailed("Failed to fetch subtree: "@ + message),
            ),
            ReplyView::Subtree { nodes, edges } => StepView::Finish(
                OutcomeView::Subtree { data: subtree(root_id, nodes, edges) },
            ),
            _ => StepView::Mismatch,
        }
    }
}

/// A value nests the values of everything below the root of a subtree.
pub open spec fn is_nested_value(
    data: SubtreeDataView,
    values: Map<Seq<char>, Json>,
    id: Seq<char>,
    own: Json,
    value: Json,
) -> bool {
    forall|depth: nat| #[trigger]
        fits(data, id, depth) ==> value == nested(data, values, id, own, depth)
}

/// The nested value of a tree.
pub open spec fn tree_value(
    data: SubtreeDataView,
    values: Map<Seq<char>, Json>,
    id: Seq<char>,
    own: Json,
) -> Json {
    nested(data, values, id, own, choose|depth: nat| fits(data, id, depth))
}

/// The loading of a node with everything below it as one value. Without the node the value is an
/// empty object.
pub open spec fn children_tree_next(parent_id: Seq<char>, log: Seq<ReplyView>) -> StepView {
    if log.len() == 0 {
        StepView::Ask(RequestView::LoadSubtree { root_id: parent_id })
    } else {
        match log[0] {
            ReplyView::Failed { message } => StepView::Fail(
                ErrorView::QueryFailed("Failed to fetch subtree: "@ + message),
            ),
            ReplyView::Subtree { nodes, edges } => {
                let data = subtree(parent_id, nodes, edges);
                match data.root {
                    None => StepView::Finish(
                        OutcomeView::Json { value: Json::Object(Map::empty()) },
                    ),
                    Some(root) => tree_mentions_next(data, root, nodes, log.skip(1)),
                }
            },
            _ => StepView::Mismatch,
        }
    }
}

/// The root tells from where it is mentioned.
pub open spec fn tree_mentions_next(
    data: SubtreeDataView,
    root: NodeView,
    nodes: Seq<NodeView>,
    log: Seq<ReplyView>,
) -> StepView {
    if log.len() == 0 {
        StepView::Ask(RequestView::LoadMentionContainers { id: root.id })
    } else {
        match log[0] {
            ReplyView::Failed { message } => StepView::Fail(
                ErrorView::QueryFailed("Failed to fetch incoming mention containers: "@ + message),
            ),
            ReplyView::References { items } => tree_render_next(
                data,
                NodeView { mentioned_in: items, ..root },
                nodes,
                log.skip(1),
            ),
            _ => StepView::Mismatch,
        }
    }
}

/// The values of the root and of the nodes are put together. Edges that lead in a circle make no
/// tree.
pub open spec fn tree_render_next(
    data: SubtreeDataView,
    root: NodeView,
    nodes: Seq<NodeView>,
    log: Seq<ReplyView>,
) -> StepView {
    if log.len() == 0 {
        StepView::Ask(RequestView::Render { nodes: seq![root] + nodes })
    } else {
        match log[0] {
            ReplyView::Values { values } => if values.len() == nodes.len() + 1 && is_tree(
                data,
                root.id,
            ) {
                StepView::Finish(
                    OutcomeView::Json {
                        value: tree_value(
                            data,
                            value_map(nodes, values.skip(1)),
                            root.id,
                            values[0],
                        ),
                    },
                )
            } else {
                StepView::Mismatch
            },
            _ => StepView::Mismatch,
        }
    }
}

/// However deep one looks, the nested value of a tree is the same.
pub proof fn law_tree_value(
    data: SubtreeDataView,
    values: Map<Seq<char>, Json>,
    id: Seq<char>,
    own: Json,
)
    requires
        is_tree(data, id),
    ensures
        is_nested_value(data, values, id, own, tree_value(data, values, id, own)),
{
    let chosen = choose|depth: nat| fits(data, id, depth);
    assert forall|depth: nat| #[trigger] fits(data, id, depth) implies tree_value(
        data,
        values,
        id,
        own,
    ) == nested(data, values, id, own, depth) by {
        if depth <= chosen {
            law_nesting_is_complete(data, values, id, own, depth, chosen);
        } else {
            law_nesting_is_complete(data, values, id, own, chosen, depth);
        }
    }
}

impl NodeService {
    /// A node with everything below it.
    pub fn get_subtree_data(&self, root_id: &str, log: &Vec<Reply>) -> (r: Step)
        ensures
            r@ == subtree_next(root_id@, replies(log@)),
    {
        if log.len() == 0 {
            return Step::Ask(Request::LoadSubtree { root_id: root_id.to_string() });
        }
        match &log[0] {
            Reply::Failed { message } => Step::Fail(fetch_failed(message.as_str())),
            Reply::Subtree { nodes, edges } => Step::Finish(
                Outcome::Subtree { data: make_subtree(root_id, nodes, edges) },
            ),
            _ => Step::Mismatch,
        }
    }

    /// A node with everything below it, as one value.
    pub fn get_children_tree(&self, parent_id: &str, log: &Vec<Reply>) -> (r: Step)
        ensures
            r@ == children_tree_next(parent_id@, replies(log@)),
    {
        if log.len() == 0 {
            return Step::Ask(Request::LoadSubtree { root_id: parent_id.to_string() });
        }
        let data = match &log[0] {
            Reply::Failed { message } => {
                return Step::Fail(fetch_failed(message.as_str()));
            },
            Reply::Subtree { nodes, edges } => make_subtree(parent_id, nodes, edges),
            _ => {
                return Step::Mismatch;
            },
        };
        match &data.root {
            None => Step::Finish(Outcome::Json { value: Value::Object(Object::new()) }),
            Some(root) => tree_mentions(&data, root, log),
        }
    }
}

fn fetch_failed(message: &str) -> (r: NodeServiceError)
    ensures
        r@ == ErrorView::QueryFailed("Failed to fetch subtree: "@ + message@),
{
    let mut text = "Failed to fetch subtree: ".to_string();
    text.append(message);
    NodeServiceError::QueryFailed(text)
}

fn tree_mentions(data: &SubtreeData, root: &Node, log: &Vec<Reply>) -> (r: Step)
    requires
        log@.len() > 0,
    ensures
        r@ == tree_mentions_next(data@, root@, node_views(data.nodes@), replies_from(log@, 1)),
{
    if log.len() == 1 {
        return Step::Ask(Request::LoadMentionContainers { id: root.id.clone() });
    }
    match &log[1] {
        Reply::Failed { message } => {
            let mut text = "Failed to fetch incoming mention containers: ".to_string();
            text.append(message.as_str());
            Step::Fail(NodeServiceError::QueryFailed(text))
        },
        Reply::References { items } => {
            let mut filled = root.clone();
            filled.mentioned_in = clone_references(items);
            tree_render(data, filled, log)
        },
        _ => Step::Mismatch,
    }
}

fn tree_render(data: &SubtreeData, root: Node, log: &Vec<Reply>) -> (r: Step)
    requires
        log@.len() > 1,
    ensures
        r@ == tree_render_next(data@, root@, node_views(data.nodes@), replies_from(log@, 2)),
{
    let ghost nodes = node_views(data.nodes@);
    if log.len() == 2 {
        return Step::Ask(Request::Render { nodes: with_first(root, &data.nodes) });
    }
    match &log[2] {
        Reply::Values { values } => {
            proof {
                lemma_list_view(values@);
            }
            if values.len() == 0 || values.len() - 1 != data.nodes.len() || !data.is_tree_below(
                root.id.as_str(),
            ) {
                return Step::Mismatch;
            }
            let rest = without_first(values);
            let depth = data.children.len();
            let ghost known = value_map(nodes, list_view(values@).skip(1));
            proof {
                data.lemma_depth(root@.id);
                law_tree_value(data@, known, root@.id, values@[0]@);
            }
            let value = build_node_tree_recursive(data, &rest, root.id.as_str(), &values[0], depth);
            Step::Finish(Outcome::Json { value })
        },
        _ => Step::Mismatch,
    }
}

fn with_first(first: Node, nodes: &Vec<Node>) -> (r: Vec<Node>)
    ensures
        node_views(r@) == seq![first@] + node_views(nodes@),
{
    let mut out: Vec<Node> = Vec::new();
    let ghost all = seq![first@] + node_views(nodes@);
    out.push(first);
    let mut i: usize = 0;
    while i < nodes.len()
        invariant
            i <= nodes@.len(),
            out@.len() == i + 1,
            forall|j: int| 0 <= j <= i ==> (#[trigger] out@[j])@ == all[j],
            all == seq![first@] + node_views(nodes@),
        decreases nodes@.len() - i,
    {
        out.push((&nodes[i]).clone());
        i += 1;
    }
    proof {
        assert(node_views(out@) =~= all);
    }
    out
}

fn without_first(values: &Vec<Value>) -> (r: Vec<Value>)
    requires
        values@.len() > 0,
    ensures
        r@.len() == values@.len() - 1,
        list_view(r@) == list_view(values@).skip(1),
{
    let mut out: Vec<Value> = Vec::new();
    let mut i: usize = 1;
    while i < values.len()
        invariant
            1 <= i <= values@.len(),
            out@.len() == i - 1,
            forall|j: int| 0 <= j < i - 1 ==> (#[trigger] out@[j])@ == values@[j + 1]@,
        decreases values@.len() - i,
    {
        out.push((&values[i]).clone());
        i += 1;
    }
    proof {
        lemma_list_view(out@);
        lemma_list_view(values@);
        assert forall|j: int| 0 <= j < out@.len() implies list_view(out@)[j] == #[trigger] list_view(
            values@,
        ).skip(1)[j] by {
            assert(out@[j]@ == values@[j + 1]@);
        }
        assert(list_view(out@) =~= list_view(values@).skip(1));
    }
    out
}

} // verus!
