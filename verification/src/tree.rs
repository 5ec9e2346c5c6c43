//! A node with everything below it.

use crate::bulk::{collect_ids, find_index, ids_of, index_in};
use crate::json::{lemma_list_view, list_view, Json, Value};
use crate::mentions::{distinct, push_new};
use crate::node::{clone_nodes, node_views, texts, Node, NodeView};
use crate::sequences::{lemma_placed_at, lemma_sorted_by, lemma_sorted_stable, placed, sorted_by};
use crate::text::same_text;
use vstd::prelude::*;
use vstd::string::*;

verus! {

/// That a node is the child of another. The order is the rank of the child among its siblings.
#[derive(Debug)]
pub struct ChildEdge {
    pub parent: String,
    pub child: String,
    pub order: i64,
}

#[verifier::ext_equal]
pub struct ChildEdgeView {
    pub parent: Seq<char>,
    pub child: Seq<char>,
    pub order: i64,
}

impl View for ChildEdge {
    type V = ChildEdgeView;

    open spec fn view(&self) -> ChildEdgeView {
        ChildEdgeView { parent: self.parent@, child: self.child@, order: self.order }
    }
}

impl Clone for ChildEdge {
    fn clone(&self) -> (r: ChildEdge)
        ensures
            r@ == self@,
    {
        ChildEdge { parent: self.parent.clone(), child: self.child.clone(), order: self.order }
    }
}

pub open spec fn edge_views(edges: Seq<ChildEdge>) -> Seq<ChildEdgeView> {
    edges.map_values(|e: ChildEdge| e@)
}

/// The order of edges: lower ranks stand first.
pub open spec fn child_order() -> spec_fn(ChildEdgeView, ChildEdgeView) -> bool {
    |a: ChildEdgeView, b: ChildEdgeView| a.order <= b.order
}

/// Edges in their order. Edges of the same order stay as they came.
pub open spec fn in_order(list: Seq<ChildEdgeView>) -> Seq<ChildEdgeView> {
    sorted_by(list, child_order())
}

pub open spec fn is_ordered(list: Seq<ChildEdgeView>) -> bool {
    forall|i: int, j: int| 0 <= i <= j < list.len() ==> list[i].order <= list[j].order
}

/// The edges from a node to its children, in the order of the children.
pub open spec fn edges_from(edges: Seq<ChildEdgeView>, parent: Seq<char>) -> Seq<ChildEdgeView> {
    in_order(edges.filter(|e: ChildEdgeView| e.parent == parent))
}

/// Ordering keeps every edge as often as it occurs, puts lower orders first, and leaves the edges of
/// one order in the sequence in which they came.
pub proof fn law_children_are_in_order(list: Seq<ChildEdgeView>, order: i64)
    ensures
        is_ordered(in_order(list)),
        in_order(list).to_multiset() == list.to_multiset(),
        in_order(list).filter(|e: ChildEdgeView| e.order == order) == list.filter(
            |e: ChildEdgeView| e.order == order,
        ),
{
    lemma_sorted_by(list, child_order());
    lemma_sorted_stable(list, child_order(), |e: ChildEdgeView| e.order == order);
}

fn place(list: &mut Vec<ChildEdge>, edge: ChildEdge)
    ensures
        edge_views(final(list)@) == placed(edge_views(old(list)@), edge@, child_order()),
{
    let ghost all = edge_views(list@);
    let ghost value = edge@;
    let mut at: usize = list.len();
    while at > 0 && list[at - 1].order > edge.order
        invariant
            at <= list@.len(),
            edge_views(list@) == all,
            forall|j: int| at <= j < list@.len() ==> (#[trigger] all[j]).order > edge.order,
        decreases at,
    {
        at -= 1;
        proof {
            assert(all[at as int] == list@[at as int]@);
        }
    }
    proof {
        if at > 0 {
            assert(all[at - 1] == list@[at - 1]@);
        }
        lemma_placed_at(all, value, child_order(), at as int);
    }
    list.insert(at, edge);
    proof {
        assert(edge_views(list@) =~= all.insert(at as int, value));
    }
}

fn sorted_children(edges: &Vec<ChildEdge>, parent: &str) -> (r: Vec<String>)
    ensures
        texts(r@) == edges_from(edge_views(edges@), parent@).map_values(|e: ChildEdgeView| e.child),
{
    let ghost all = edge_views(edges@);
    let ghost keep = |e: ChildEdgeView| e.parent == parent@;
    let mut list: Vec<ChildEdge> = Vec::new();
    let mut i: usize = 0;
    proof {
        reveal(Seq::filter);
        assert(all.take(0).filter(keep) =~= Seq::empty());
        assert(edge_views(list@) =~= Seq::empty());
    }
    while i < edges.len()
        invariant
            i <= edges@.len() == all.len(),
            edge_views(list@) == in_order(all.take(i as int).filter(keep)),
        decreases edges@.len() - i,
    {
        proof {
            reveal(Seq::filter);
            assert(all.take(i + 1).drop_last() =~= all.take(i as int));
            assert(all.take(i + 1).last() == edges@[i as int]@);
        }
        if same_text(edges[i].parent.as_str(), parent) {
            let ghost kept = all.take(i as int).filter(keep);
            proof {
                assert(kept.push(edges@[i as int]@).drop_last() =~= kept);
            }
            place(&mut list, edges[i].clone());
        }
        i += 1;
    }
    proof {
        assert(all.take(all.len() as int) =~= all);
    }
    let mut out: Vec<String> = Vec::new();
    let mut k: usize = 0;
    while k < list.len()
        invariant
            k <= list@.len(),
            out@.len() == k,
            forall|j: int| 0 <= j < k ==> (#[trigger] out@[j])@ == list@[j].child@,
        decreases list@.len() - k,
    {
        out.push(list[k].child.clone());
        k += 1;
    }
    proof {
        assert(texts(out@) =~= edge_views(list@).map_values(|e: ChildEdgeView| e.child));
    }
    out
}

/// A node, the nodes below it, and the children of each in order.
#[derive(Debug)]
pub struct SubtreeData {
    pub root: Option<Node>,
    pub nodes: Vec<Node>,
    pub children: Vec<(String, Vec<String>)>,
}

/// The mathematical value of [`SubtreeData`].
#[verifier::ext_equal]
pub struct SubtreeDataView {
    pub root: Option<NodeView>,
    pub nodes: Map<Seq<char>, NodeView>,
    pub children: Map<Seq<char>, Seq<Seq<char>>>,
}

/// Nodes by identifier. Of two with one identifier the later counts.
pub open spec fn node_map(nodes: Seq<NodeView>) -> Map<Seq<char>, NodeView>
    decreases nodes.len(),
{
    if nodes.len() == 0 {
        Map::empty()
    } else {
        node_map(nodes.drop_last()).insert(nodes.last().id, nodes.last())
    }
}

pub open spec fn child_map(entries: Seq<(String, Vec<String>)>) -> Map<Seq<char>, Seq<Seq<char>>>
    decreases entries.len(),
{
    if entries.len() == 0 {
        Map::empty()
    } else {
        child_map(entries.drop_last()).insert(entries.last().0@, texts(entries.last().1@))
    }
}

impl View for SubtreeData {
    type V = SubtreeDataView;

    open spec fn view(&self) -> SubtreeDataView {
        SubtreeDataView {
            root: match self.root {
                Some(n) => Some(n@),
                None => None,
            },
            nodes: node_map(node_views(self.nodes@)),
            children: child_map(self.children@),
        }
    }
}

/// The parents of some edges, each once.
pub open spec fn parents(edges: Seq<ChildEdgeView>) -> Seq<Seq<char>> {
    distinct(edges.map_values(|e: ChildEdgeView| e.parent))
}

/// What nodes and edges say of a subtree.
pub open spec fn subtree(
    root_id: Seq<char>,
    nodes: Seq<NodeView>,
    edges: Seq<ChildEdgeView>,
) -> SubtreeDataView {
    let at = index_in(ids_of(nodes), root_id);
    SubtreeDataView {
        root: if at < nodes.len() {
            Some(nodes[at])
        } else {
            None
        },
        nodes: node_map(nodes),
        children: Map::new(
            |p: Seq<char>| parents(edges).contains(p),
            |p: Seq<char>| edges_from(edges, p).map_values(|e: ChildEdgeView| e.child),
        ),
    }
}

fn collect_parents(edges: &Vec<ChildEdge>) -> (r: Vec<String>)
    ensures
        texts(r@) == parents(edge_views(edges@)),
        texts(r@).no_duplicates(),
{
    let ghost all = edge_views(edges@).map_values(|e: ChildEdgeView| e.parent);
    let mut out: Vec<String> = Vec::new();
    let mut i: usize = 0;
    proof {
        assert(texts(out@) =~= Seq::empty());
        assert(all.take(0) =~= Seq::empty());
    }
    while i < edges.len()
        invariant
            i <= edges@.len() == all.len(),
            texts(out@).no_duplicates(),
            texts(out@) == distinct(all.take(i as int)),
        decreases edges@.len() - i,
    {
        proof {
            assert(all.take(i + 1).drop_last() =~= all.take(i as int));
            assert(all.take(i + 1).last() == edges@[i as int].parent@);
        }
        push_new(&mut out, edges[i].parent.as_str());
        i += 1;
    }
    proof {
        assert(all.take(all.len() as int) =~= all);
    }
    out
}

pub fn make_subtree(root_id: &str, nodes: &Vec<Node>, edges: &Vec<ChildEdge>) -> (r: SubtreeData)
    ensures
        r@ == subtree(root_id@, node_views(nodes@), edge_views(edges@)),
        r.nodes@.len() == nodes@.len(),
        node_views(r.nodes@) == node_views(nodes@),
{
    let ghost links = edge_views(edges@);
    let ids = collect_ids(nodes);
    let at = find_index(&ids, root_id);
    let root = if at < nodes.len() {
        Some((&nodes[at]).clone())
    } else {
        None
    };
    let names = collect_parents(edges);
    let ghost all = texts(names@);
    let mut children: Vec<(String, Vec<String>)> = Vec::new();
    let mut i: usize = 0;
    while i < names.len()
        invariant
            i <= names@.len() == all.len(),
            children@.len() == i,
            forall|p: Seq<char>| #[trigger]
                child_map(children@).contains_key(p) <==> all.take(i as int).contains(p),
            forall|p: Seq<char>| #[trigger]
                child_map(children@).contains_key(p) ==> child_map(children@)[p] == edges_from(
                    links,
                    p,
                ).map_values(|e: ChildEdgeView| e.child),
        decreases names@.len() - i,
    {
        let list = sorted_children(edges, names[i].as_str());
        let ghost before = children@;
        let ghost kids = texts(list@);
        children.push((names[i].clone(), list));
        proof {
            assert(children@.drop_last() =~= before);
            assert(child_map(children@) == child_map(before).insert(all[i as int], kids));
            let short = all.take(i as int);
            let long = all.take(i + 1);
            assert(long =~= short.push(all[i as int]));
            assert forall|p: Seq<char>| #[trigger] child_map(children@).contains_key(p)
                <==> long.contains(p) by {
                if short.contains(p) {
                    let k = choose|k: int| 0 <= k < short.len() && short[k] == p;
                    assert(long[k] == p);
                }
                if long.contains(p) && !short.contains(p) {
                    let k = choose|k: int| 0 <= k < long.len() && long[k] == p;
                    if k < short.len() {
                        assert(short[k] == p);
                    }
                }
                assert(long[i as int] == all[i as int]);
            }
        }
        i += 1;
    }
    let data = SubtreeData { root, nodes: clone_nodes(nodes), children };
    proof {
        assert(all.take(all.len() as int) =~= all);
        assert(data@.children =~= subtree(root_id@, node_views(nodes@), links).children);
    }
    data
}

/// The children of a node that are part of the subtree.
pub open spec fn present_children(data: SubtreeDataView, id: Seq<char>) -> Seq<Seq<char>> {
    if data.children.contains_key(id) {
        data.children[id].filter(|c: Seq<char>| data.nodes.contains_key(c))
    } else {
        Seq::empty()
    }
}

/// No way down from a node is longer than `depth`.
pub open spec fn fits(data: SubtreeDataView, id: Seq<char>, depth: nat) -> bool
    decreases depth,
{
    let kids = present_children(data, id);
    kids.len() == 0 || (depth > 0 && forall|i: int|
        0 <= i < kids.len() ==> fits(data, #[trigger] kids[i], (depth - 1) as nat))
}

/// Below a node there is a tree: no way down leads in a circle.
pub open spec fn is_tree(data: SubtreeDataView, id: Seq<char>) -> bool {
    exists|depth: nat| fits(data, id, depth)
}

/// The value of a node with the values of its children under the key `children`, as deep as
/// `depth` goes. A value that is no object stays as it is.
pub open spec fn nested(
    data: SubtreeDataView,
    values: Map<Seq<char>, Json>,
    id: Seq<char>,
    own: Json,
    depth: nat,
) -> Json
    decreases depth, 1nat, 0nat,
{
    match own {
        Json::Object(members) => Json::Object(
            members.insert(
                "children"@,
                Json::Array(nested_list(data, values, present_children(data, id), depth)),
            ),
        ),
        _ => own,
    }
}

pub open spec fn nested_list(
    data: SubtreeDataView,
    values: Map<Seq<char>, Json>,
    kids: Seq<Seq<char>>,
    depth: nat,
) -> Seq<Json>
    decreases depth, 0nat, kids.len(),
{
    if kids.len() == 0 || depth == 0 {
        Seq::empty()
    } else {
        nested_list(data, values, kids.drop_last(), depth).push(
            nested(data, values, kids.last(), values[kids.last()], (depth - 1) as nat),
        )
    }
}

/// The values of nodes by identifier. Of two with one identifier the later counts.
pub open spec fn value_map(nodes: Seq<NodeView>, values: Seq<Json>) -> Map<Seq<char>, Json>
    decreases nodes.len(),
{
    if nodes.len() == 0 || values.len() < nodes.len() {
        Map::empty()
    } else {
        value_map(nodes.drop_last(), values.take(nodes.len() - 1)).insert(
            nodes.last().id,
            values[nodes.len() - 1],
        )
    }
}

proof fn lemma_fits_deeper(data: SubtreeDataView, id: Seq<char>, depth: nat, deeper: nat)
    requires
        fits(data, id, depth),
        depth <= deeper,
    ensures
        fits(data, id, deeper),
    decreases depth,
{
    let kids = present_children(data, id);
    if kids.len() > 0 {
        assert forall|i: int| 0 <= i < kids.len() implies fits(
            data,
            #[trigger] kids[i],
            (deeper - 1) as nat,
        ) by {
            lemma_fits_deeper(data, kids[i], (depth - 1) as nat, (deeper - 1) as nat);
        }
    }
}

/// Where the longest way down from a node has `depth` steps, as many nodes with children lie on it.
proof fn lemma_parents_on_the_way(data: SubtreeDataView, id: Seq<char>, depth: nat) -> (on_the_way:
    Set<Seq<char>>)
    requires
        fits(data, id, depth),
        depth > 0 ==> !fits(data, id, (depth - 1) as nat),
    ensures
        on_the_way.finite(),
        on_the_way.len() == depth,
        on_the_way.subset_of(data.children.dom()),
        forall|p: Seq<char>| #[trigger] on_the_way.contains(p) ==> fits(data, p, depth),
    decreases depth,
{
    if depth == 0 {
        Set::empty()
    } else {
        let kids = present_children(data, id);
        let less = (depth - 1) as nat;
        assert(kids.len() > 0);
        let kid = if less == 0 {
            kids[0]
        } else {
            let i = choose|i: int|
                0 <= i < kids.len() && !fits(data, #[trigger] kids[i], (less - 1) as nat);
            kids[i]
        };
        assert(fits(data, kid, less)) by {
            let i = choose|i: int| 0 <= i < kids.len() && #[trigger] kids[i] == kid;
            assert(fits(data, kids[i], less));
        }
        let below = lemma_parents_on_the_way(data, kid, less);
        assert(!below.contains(id));
        assert(data.children.contains_key(id));
        let all = below.insert(id);
        assert forall|p: Seq<char>| #[trigger] all.contains(p) implies fits(data, p, depth) by {
            if p != id {
                assert(below.contains(p));
                lemma_fits_deeper(data, p, less, depth);
            }
        }
        all
    }
}

/// A way down a tree has no more steps than there are nodes with children.
pub proof fn law_depth_is_bounded(data: SubtreeDataView, id: Seq<char>)
    requires
        is_tree(data, id),
        data.children.dom().finite(),
    ensures
        fits(data, id, data.children.dom().len()),
{
    let depth = choose|depth: nat| fits(data, id, depth);
    lemma_depth_is_bounded(data, id, depth);
}

proof fn lemma_depth_is_bounded(data: SubtreeDataView, id: Seq<char>, depth: nat)
    requires
        fits(data, id, depth),
        data.children.dom().finite(),
    ensures
        fits(data, id, data.children.dom().len()),
    decreases depth,
{
    if depth > 0 && fits(data, id, (depth - 1) as nat) {
        lemma_depth_is_bounded(data, id, (depth - 1) as nat);
    } else {
        let on_the_way = lemma_parents_on_the_way(data, id, depth);
        vstd::set_lib::lemma_len_subset(on_the_way, data.children.dom());
        lemma_fits_deeper(data, id, depth, data.children.dom().len());
    }
}

/// The nested value of a tree does not depend on the depth, once it is deep enough.
pub proof fn law_nesting_is_complete(
    data: SubtreeDataView,
    values: Map<Seq<char>, Json>,
    id: Seq<char>,
    own: Json,
    depth: nat,
    deeper: nat,
)
    requires
        fits(data, id, depth),
        depth <= deeper,
    ensures
        nested(data, values, id, own, depth) == nested(data, values, id, own, deeper),
    decreases depth, 1nat, 0nat,
{
    lemma_nested_lists(data, values, present_children(data, id), depth, deeper);
}

proof fn lemma_nested_lists(
    data: SubtreeDataView,
    values: Map<Seq<char>, Json>,
    kids: Seq<Seq<char>>,
    depth: nat,
    deeper: nat,
)
    requires
        kids.len() == 0 || depth > 0,
        forall|i: int|
            0 <= i < kids.len() ==> fits(data, #[trigger] kids[i], (depth - 1) as nat),
        depth <= deeper,
    ensures
        nested_list(data, values, kids, depth) == nested_list(data, values, kids, deeper),
    decreases depth, 0nat, kids.len(),
{
    if kids.len() > 0 {
        assert forall|i: int| 0 <= i < kids.drop_last().len() implies fits(
            data,
            #[trigger] kids.drop_last()[i],
            (depth - 1) as nat,
        ) by {
            assert(kids.drop_last()[i] == kids[i]);
        }
        lemma_nested_lists(data, values, kids.drop_last(), depth, deeper);
        assert(kids.last() == kids[kids.len() - 1]);
        law_nesting_is_complete(
            data,
            values,
            kids.last(),
            values[kids.last()],
            (depth - 1) as nat,
            (deeper - 1) as nat,
        );
    }
}

proof fn lemma_child_map(entries: Seq<(String, Vec<String>)>)
    ensures
        child_map(entries).dom().finite(),
        child_map(entries).dom().len() <= entries.len(),
    decreases entries.len(),
{
    if entries.len() > 0 {
        lemma_child_map(entries.drop_last());
    }
}

impl SubtreeData {
    /// The children of a node.
    pub fn children_of(&self, id: &str) -> (r: Option<&Vec<String>>)
        ensures
            match r {
                Some(list) => self@.children.contains_key(id@) && self@.children[id@] == texts(
                    list@,
                ),
                None => !self@.children.contains_key(id@),
            },
    {
        let ghost all = self.children@;
        let mut i: usize = self.children.len();
        proof {
            assert(all.take(all.len() as int) =~= all);
        }
        while i > 0
            invariant
                i <= all.len() == self.children@.len(),
                child_map(all.take(i as int)).contains_key(id@) == child_map(all).contains_key(id@),
                child_map(all).contains_key(id@) ==> child_map(all.take(i as int))[id@]
                    == child_map(all)[id@],
            decreases i,
        {
            proof {
                assert(all.take(i as int).drop_last() =~= all.take(i - 1));
                assert(all.take(i as int).last() == all[i - 1]);
            }
            if same_text(self.children[i - 1].0.as_str(), id) {
                return Some(&self.children[i - 1].1);
            }
            i -= 1;
        }
        proof {
            assert(all.take(0) =~= Seq::empty());
        }
        None
    }

    /// The position of the last node with an identifier.
    fn position(&self, id: &str) -> (r: Option<usize>)
        ensures
            match r {
                Some(at) => at < self.nodes@.len() && self.nodes@[at as int].id@ == id@ && (forall|
                    j: int,
                | at < j < self.nodes@.len() ==> (#[trigger] self.nodes@[j]).id@ != id@),
                None => forall|j: int|
                    0 <= j < self.nodes@.len() ==> (#[trigger] self.nodes@[j]).id@ != id@,
            },
    {
        let mut i: usize = self.nodes.len();
        while i > 0
            invariant
                i <= self.nodes@.len(),
                forall|j: int| i <= j < self.nodes@.len() ==> (#[trigger] self.nodes@[j]).id@ != id@,
            decreases i,
        {
            if same_text(self.nodes[i - 1].id.as_str(), id) {
                return Some(i - 1);
            }
            i -= 1;
        }
        None
    }

    /// The node with an identifier.
    pub fn node(&self, id: &str) -> (r: Option<&Node>)
        ensures
            match r {
                Some(node) => self@.nodes.contains_key(id@) && self@.nodes[id@] == node@,
                None => !self@.nodes.contains_key(id@),
            },
    {
        match self.position(id) {
            Some(at) => {
                proof {
                    lemma_node_map_last(node_views(self.nodes@), id@, at as int);
                }
                Some(&self.nodes[at])
            },
            None => {
                proof {
                    lemma_node_map_none(node_views(self.nodes@), id@);
                }
                None
            },
        }
    }

    fn kids(&self, id: &str) -> (r: Vec<String>)
        ensures
            texts(r@) == present_children(self@, id@),
    {
        let ghost data = self@;
        let mut out: Vec<String> = Vec::new();
        match self.children_of(id) {
            None => {},
            Some(list) => {
                let ghost all = texts(list@);
                let ghost keep = |c: Seq<char>| data.nodes.contains_key(c);
                let mut i: usize = 0;
                proof {
                    reveal(Seq::filter);
                    assert(texts(out@) =~= all.take(0).filter(keep));
                }
                while i < list.len()
                    invariant
                        i <= list@.len() == all.len(),
                        texts(out@) == all.take(i as int).filter(keep),
                    decreases list@.len() - i,
                {
                    proof {
                        reveal(Seq::filter);
                        assert(all.take(i + 1).drop_last() =~= all.take(i as int));
                        assert(all.take(i + 1).last() == list@[i as int]@);
                    }
                    if self.node(list[i].as_str()).is_some() {
                        let ghost before = texts(out@);
                        out.push(list[i].clone());
                        proof {
                            assert(texts(out@) =~= before.push(list@[i as int]@));
                        }
                    }
                    i += 1;
                }
                proof {
                    assert(all.take(all.len() as int) =~= all);
                }
            },
        }
        proof {
            if !data.children.contains_key(id@) {
                assert(texts(out@) =~= Seq::empty());
            }
        }
        out
    }

    fn fits_in(&self, id: &str, depth: usize) -> (r: bool)
        ensures
            r == fits(self@, id@, depth as nat),
        decreases depth,
    {
        let kids = self.kids(id);
        let ghost all = present_children(self@, id@);
        if kids.len() == 0 {
            return true;
        }
        if depth == 0 {
            return false;
        }
        let mut i: usize = 0;
        while i < kids.len()
            invariant
                i <= kids@.len() == all.len(),
                depth > 0,
                texts(kids@) == all,
                forall|j: int| 0 <= j < i ==> fits(self@, #[trigger] all[j], (depth - 1) as nat),
            decreases kids@.len() - i,
        {
            proof {
                assert(all[i as int] == kids@[i as int]@);
            }
            if !self.fits_in(kids[i].as_str(), depth - 1) {
                return false;
            }
            i += 1;
        }
        true
    }

    /// The number of entries for children is deep enough for every tree.
    pub proof fn lemma_depth(&self, id: Seq<char>)
        requires
            is_tree(self@, id),
        ensures
            fits(self@, id, self.children@.len()),
    {
        lemma_child_map(self.children@);
        law_depth_is_bounded(self@, id);
        lemma_fits_deeper(self@, id, self@.children.dom().len(), self.children@.len());
    }

    /// Whether there is a tree below a node.
    pub fn is_tree_below(&self, id: &str) -> (r: bool)
        ensures
            r == is_tree(self@, id@),
    {
        let deep = self.children.len();
        let r = self.fits_in(id, deep);
        proof {
            if is_tree(self@, id@) {
                self.lemma_depth(id@);
            }
        }
        r
    }
}

proof fn lemma_node_map_last(nodes: Seq<NodeView>, id: Seq<char>, at: int)
    requires
        0 <= at < nodes.len(),
        nodes[at].id == id,
        forall|j: int| at < j < nodes.len() ==> (#[trigger] nodes[j]).id != id,
    ensures
        node_map(nodes).contains_key(id),
        node_map(nodes)[id] == nodes[at],
    decreases nodes.len(),
{
    if at < nodes.len() - 1 {
        assert(nodes.last() == nodes[nodes.len() - 1]);
        lemma_node_map_last(nodes.drop_last(), id, at);
    }
}

proof fn lemma_node_map_none(nodes: Seq<NodeView>, id: Seq<char>)
    requires
        forall|j: int| 0 <= j < nodes.len() ==> (#[trigger] nodes[j]).id != id,
    ensures
        !node_map(nodes).contains_key(id),
    decreases nodes.len(),
{
    if nodes.len() > 0 {
        assert(nodes.last() == nodes[nodes.len() - 1]);
        lemma_node_map_none(nodes.drop_last(), id);
    }
}

proof fn lemma_value_map_last(nodes: Seq<NodeView>, values: Seq<Json>, id: Seq<char>, at: int)
    requires
        0 <= at < nodes.len() <= values.len(),
        nodes[at].id == id,
        forall|j: int| at < j < nodes.len() ==> (#[trigger] nodes[j]).id != id,
    ensures
        value_map(nodes, values)[id] == values[at],
    decreases nodes.len(),
{
    if at < nodes.len() - 1 {
        assert(nodes.last() == nodes[nodes.len() - 1]);
        lemma_value_map_last(nodes.drop_last(), values.take(nodes.len() - 1), id, at);
    }
}

/// The value of a node with the values of everything below it. `values` holds the values of the
/// nodes of `data`, in their order.
pub fn build_node_tree_recursive(
    data: &SubtreeData,
    values: &Vec<Value>,
    id: &str,
    own: &Value,
    depth: usize,
) -> (r: Value)
    requires
        values@.len() == data.nodes@.len(),
        fits(data@, id@, depth as nat),
    ensures
        r@ == nested(
            data@,
            value_map(node_views(data.nodes@), list_view(values@)),
            id@,
            own@,
            depth as nat,
        ),
    decreases depth,
{
    let ghost known = value_map(node_views(data.nodes@), list_view(values@));
    let kids = data.kids(id);
    let ghost all = present_children(data@, id@);
    let mut below: Vec<Value> = Vec::new();
    let mut i: usize = 0;
    proof {
        lemma_list_view(values@);
        assert(all.take(0) =~= Seq::empty());
    }
    while i < kids.len()
        invariant
            i <= kids@.len() == all.len(),
            texts(kids@) == all,
            list_view(below@) == nested_list(data@, known, all.take(i as int), depth as nat),
        decreases kids@.len() - i,
    {
        proof {
            assert(all[i as int] == kids@[i as int]@);
            assert(all.take(i + 1).drop_last() =~= all.take(i as int));
            lemma_kid_is_known(data@, id@, i as int);
        }
        match data.position(kids[i].as_str()) {
            Some(at) => {
                proof {
                    lemma_value_map_last(
                        node_views(data.nodes@),
                        list_view(values@),
                        kids@[i as int]@,
                        at as int,
                    );
                }
                let part = build_node_tree_recursive(
                    data,
                    values,
                    kids[i].as_str(),
                    &values[at],
                    depth - 1,
                );
                let ghost before = below@;
                below.push(part);
                proof {
                    assert(below@.drop_last() =~= before);
                }
            },
            None => {
                proof {
                    lemma_node_map_none(node_views(data.nodes@), kids@[i as int]@);
                }
            },
        }
        i += 1;
    }
    match own {
        Value::Object(members) => {
            let mut out = members.clone();
            proof {
                assert(all.take(all.len() as int) =~= all);
            }
            out.insert("children".to_string(), Value::Array(below));
            Value::Object(out)
        },
        _ => own.clone(),
    }
}

proof fn lemma_kid_is_known(data: SubtreeDataView, id: Seq<char>, i: int)
    requires
        0 <= i < present_children(data, id).len(),
    ensures
        data.nodes.contains_key(present_children(data, id)[i]),
{
    data.children[id].lemma_filter_pred(|c: Seq<char>| data.nodes.contains_key(c), i);
}

} // verus!
