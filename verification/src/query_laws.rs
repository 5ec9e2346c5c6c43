//! What queries promise.

use crate::json::{Json, Number};
use crate::node::NodeView;
use crate::protocol::{OutcomeView, ReplyView, RequestView, StepView};
use crate::query::{
    matches_all, matches_filter, node_types, property_at, query_next, query_refresh_next,
    query_schemas_next, reached, refreshed, satisfies, schema_for, segments, selected,
    simple_query_next, simple_refresh_next, typed_query_next, FilterOperator, NodeFilterView,
    NodeQueryView, PropertyFilterView, Refreshed,
};
use crate::ranking::law_rank_separates_small_integers;
use crate::text::{contains_part, lemma_text_le_total, lowercase, occurs_at, text_le};
use vstd::prelude::*;

verus! {

/// The conditions of a filter reach the store, each as it was given: type, content and title. Where the
/// store can do all of it, the page does too; otherwise the page is cut out later, and the store is
/// asked for nodes from the first on.
pub proof fn law_conditions_reach_the_store(filter: NodeFilterView)
    ensures
        query_next(filter, Seq::empty()) matches StepView::Ask(RequestView::QueryStore { query })
            && query.node_type == filter.node_type && query.content_contains
            == filter.content_contains && query.title_contains == filter.title_contains && query.id
            is None && query.mentioned_by is None && (filter.property_filters is None && filter.ids
            is None ==> query.limit == filter.limit && query.offset == filter.offset) && (
        filter.property_filters is Some ==> query.limit == Some(10_000usize) && query.offset is None)
            && (filter.property_filters is None && filter.ids is Some ==> query.limit is None
            && query.offset is None),
{
}

/// The node has one of the identifiers and the type that are looked for, where identifiers are, and
/// passes each condition on its properties.
pub open spec fn is_looked_for(filter: NodeFilterView, node: NodeView) -> bool {
    &&& filter.ids matches Some(ids) ==> ids.contains(node.id)
    &&& filter.ids is Some && filter.node_type is Some ==> node.node_type == filter.node_type->0
    &&& filter.property_filters matches Some(conditions) ==> forall|i: int|
        0 <= i < conditions.len() ==> (property_at(node, (#[trigger] conditions[i]).path) matches Some(
            actual,
        ) && satisfies(actual, conditions[i].operator, conditions[i].value))
}

/// `part` is what of `whole` lies from the offset on, up to the limit.
pub open spec fn is_page(
    whole: Seq<NodeView>,
    part: Seq<NodeView>,
    offset: Option<usize>,
    limit: Option<usize>,
) -> bool {
    let start: int = match offset {
        Some(n) => n as int,
        None => 0,
    };
    let rest: int = if start < whole.len() {
        whole.len() - start
    } else {
        0
    };
    &&& part.len() == (match limit {
        Some(n) => if n < rest {
            n as int
        } else {
            rest
        },
        None => rest,
    })
    &&& forall|i: int| 0 <= i < part.len() ==> #[trigger] part[i] == whole[start + i]
}

proof fn lemma_selected(filter: NodeFilterView, ready: Seq<NodeView>)
    ensures
        filter.property_filters is None && filter.ids is None ==> selected(filter, ready) == ready,
        filter.property_filters is Some || filter.ids is Some ==> is_page(
            ready.filter(|n: NodeView| is_looked_for(filter, n)),
            selected(filter, ready),
            filter.offset,
            filter.limit,
        ),
{
    let a = |n: NodeView| crate::query::is_wanted(filter, n);
    let b = |n: NodeView| is_looked_for(filter, n);
    assert forall|n: NodeView| #[trigger] a(n) == #[trigger] b(n) by {
        if let Some(conditions) = filter.property_filters {
            if is_looked_for(filter, n) {
                assert forall|i: int| 0 <= i < conditions.len() implies matches_filter(
                    n,
                    #[trigger] conditions[i],
                ) by {}
            }
            if matches_all(n, conditions) {
                assert forall|i: int| 0 <= i < conditions.len() implies (property_at(
                    n,
                    (#[trigger] conditions[i]).path,
                ) matches Some(actual) && satisfies(
                    actual,
                    conditions[i].operator,
                    conditions[i].value,
                )) by {
                    assert(matches_filter(n, conditions[i]));
                }
            }
        }
    }
    lemma_same_choice(ready, a, b);
}

proof fn lemma_same_choice(
    list: Seq<NodeView>,
    p: spec_fn(NodeView) -> bool,
    q: spec_fn(NodeView) -> bool,
)
    requires
        forall|n: NodeView| #[trigger] p(n) == #[trigger] q(n),
    ensures
        list.filter(p) == list.filter(q),
    decreases list.len(),
{
    reveal(Seq::filter);
    if list.len() > 0 {
        lemma_same_choice(list.drop_last(), p, q);
    }
}

/// The nodes brought up to date: as many as the store gave, and where nothing was migrated, the same
/// ones but for what was noted in their properties.
pub open spec fn are_ready(nodes: Seq<NodeView>, ready: Seq<NodeView>, migrated: bool) -> bool {
    &&& ready.len() == nodes.len()
    &&& !migrated ==> forall|i: int|
        0 <= i < nodes.len() ==> #[trigger] ready[i] == (NodeView {
            properties: ready[i].properties,
            ..nodes[i]
        })
}

proof fn lemma_refreshing(
    filter: NodeFilterView,
    nodes: Seq<NodeView>,
    schemas: Seq<ReplyView>,
    i: nat,
    before: Seq<NodeView>,
    log: Seq<ReplyView>,
    found: Seq<NodeView>,
) -> (ready: Seq<NodeView>)
    requires
        query_refresh_next(filter, nodes, schemas, i, before, log) == StepView::Finish(
            OutcomeView::Nodes { nodes: found },
        ),
        before.len() == i <= nodes.len(),
        log.len() == 0 ==> are_ready(nodes.take(i as int), before, false),
    ensures
        are_ready(nodes, ready, log.len() > 0),
        found == selected(filter, ready),
    decreases nodes.len() - i,
{
    if i >= nodes.len() {
        assert(nodes.take(i as int) =~= nodes);
        before
    } else {
        let schema = schema_for(node_types(nodes), schemas, nodes[i as int].node_type);
        match refreshed(nodes[i as int], schema, log) {
            Refreshed::Ready { node, used } => {
                if log.len() == 0 {
                    let more = before.push(node);
                    let upto = nodes.take(i as int + 1);
                    assert forall|j: int| 0 <= j < upto.len() implies #[trigger] more[j] == (
                    NodeView { properties: more[j].properties, ..upto[j] }) by {
                        if j < i {
                            assert(before[j] == (NodeView {
                                properties: before[j].properties,
                                ..nodes.take(i as int)[j]
                            }));
                        }
                    }
                }
                if log.len() > 0 && used == log.len() {
                    assert(log.skip(used as int).len() == 0);
                }
                if log.skip(used as int).len() == 0 && log.len() > 0 {
                    lemma_refreshing_more(
                        filter,
                        nodes,
                        schemas,
                        i + 1,
                        before.push(node),
                        log.skip(used as int),
                        found,
                    )
                } else {
                    lemma_refreshing(
                        filter,
                        nodes,
                        schemas,
                        i + 1,
                        before.push(node),
                        log.skip(used as int),
                        found,
                    )
                }
            },
            Refreshed::Wait { step } => before,
        }
    }
}

proof fn lemma_refreshing_more(
    filter: NodeFilterView,
    nodes: Seq<NodeView>,
    schemas: Seq<ReplyView>,
    i: nat,
    before: Seq<NodeView>,
    log: Seq<ReplyView>,
    found: Seq<NodeView>,
) -> (ready: Seq<NodeView>)
    requires
        query_refresh_next(filter, nodes, schemas, i, before, log) == StepView::Finish(
            OutcomeView::Nodes { nodes: found },
        ),
        before.len() == i <= nodes.len(),
    ensures
        are_ready(nodes, ready, true),
        found == selected(filter, ready),
    decreases nodes.len() - i,
{
    if i >= nodes.len() {
        before
    } else {
        let schema = schema_for(node_types(nodes), schemas, nodes[i as int].node_type);
        match refreshed(nodes[i as int], schema, log) {
            Refreshed::Ready { node, used } => lemma_refreshing_more(
                filter,
                nodes,
                schemas,
                i + 1,
                before.push(node),
                log.skip(used as int),
                found,
            ),
            Refreshed::Wait { step } => before,
        }
    }
}

proof fn lemma_loading(
    filter: NodeFilterView,
    nodes: Seq<NodeView>,
    k: nat,
    log: Seq<ReplyView>,
    found: Seq<NodeView>,
) -> (ready: Seq<NodeView>)
    requires
        query_schemas_next(filter, nodes, k, log) == StepView::Finish(
            OutcomeView::Nodes { nodes: found },
        ),
        k <= node_types(nodes).len(),
        k <= log.len(),
    ensures
        are_ready(nodes, ready, log.len() > node_types(nodes).len()),
        found == selected(filter, ready),
    decreases node_types(nodes).len() - k,
{
    if k >= node_types(nodes).len() {
        assert(nodes.take(0) =~= Seq::empty());
        lemma_refreshing(
            filter,
            nodes,
            log.take(k as int),
            0,
            Seq::empty(),
            log.skip(k as int),
            found,
        )
    } else {
        lemma_loading(filter, nodes, k + 1, log, found)
    }
}

/// What a query finds is what the store gave, brought up to date. Where identifiers or properties are
/// looked for, it is of those exactly the ones that are looked for, in their order, from the offset on
/// and up to the limit.
pub proof fn law_queries_find_what_is_looked_for(
    filter: NodeFilterView,
    log: Seq<ReplyView>,
    nodes: Seq<NodeView>,
    found: Seq<NodeView>,
    migrated: bool,
)
    requires
        migrated == (log.len() > 1 + node_types(nodes).len()),
        query_next(filter, log) == StepView::Finish(OutcomeView::Nodes { nodes: found }),
        log[0] == (ReplyView::Nodes { nodes }),
    ensures
        exists|ready: Seq<NodeView>|
            {
                &&& #[trigger] are_ready(nodes, ready, migrated)
                &&& filter.property_filters is None && filter.ids is None ==> found == ready
                &&& filter.property_filters is Some || filter.ids is Some ==> is_page(
                    ready.filter(|n: NodeView| is_looked_for(filter, n)),
                    found,
                    filter.offset,
                    filter.limit,
                )
            },
{
    let ready = lemma_loading(filter, nodes, 0, log.skip(1), found);
    lemma_selected(filter, ready);
    assert(are_ready(nodes, ready, migrated));
}

/// Every node that a query finds passes every condition of the filter on its properties.
pub proof fn law_found_nodes_pass_every_condition(
    filter: NodeFilterView,
    log: Seq<ReplyView>,
    found: Seq<NodeView>,
    conditions: Seq<PropertyFilterView>,
    i: int,
    k: int,
)
    requires
        query_next(filter, log) == StepView::Finish(OutcomeView::Nodes { nodes: found }),
        filter.property_filters == Some(conditions),
        0 <= i < found.len(),
        0 <= k < conditions.len(),
    ensures
        property_at(found[i], conditions[k].path) matches Some(actual) && satisfies(
            actual,
            conditions[k].operator,
            conditions[k].value,
        ),
        filter.limit matches Some(limit) ==> found.len() <= limit,
{
    let nodes = log[0]->Nodes_nodes;
    let ready = lemma_loading(filter, nodes, 0, log.skip(1), found);
    crate::query::law_selected_nodes_match(filter, ready, i);
    assert(matches_filter(found[i], conditions[k]));
}

/// The schema of each type that the store gave is loaded, and a query fails if one cannot be.
pub proof fn law_schemas_are_loaded(
    filter: NodeFilterView,
    nodes: Seq<NodeView>,
    message: Seq<char>,
)
    requires
        nodes.len() > 0,
    ensures
        query_next(filter, seq![ReplyView::Nodes { nodes }]) matches StepView::Ask(
            RequestView::LoadSchema { node_type },
        ) && node_type == nodes[0].node_type,
        query_next(filter, seq![ReplyView::Failed { message }]) is Fail,
{
    lemma_first_type(nodes);
}

proof fn lemma_first_type(nodes: Seq<NodeView>)
    requires
        nodes.len() > 0,
    ensures
        node_types(nodes).len() > 0,
        node_types(nodes)[0] == nodes[0].node_type,
    decreases nodes.len(),
{
    let types = nodes.map_values(|n: NodeView| n.node_type);
    let front = nodes.drop_last();
    assert(types.drop_last() =~= front.map_values(|n: NodeView| n.node_type));
    if front.len() > 0 {
        lemma_first_type(front);
    } else {
        reveal_with_fuel(crate::mentions::distinct, 2);
        assert(types.drop_last().len() == 0);
        assert(!crate::mentions::distinct(types.drop_last()).contains(types.last()));
    }
}

/// A property is found under its name in the namespace of the type of the node; a path leads on from
/// there, name by name.
pub proof fn law_paths_lead_to_properties(
    node: NodeView,
    path: Seq<char>,
    name: Seq<char>,
    ns: Json,
)
    requires
        node.properties.member(node.node_type) == Some(ns),
        !name.contains('.'),
    ensures
        property_at(node, "$."@ + name) == ns.member(name),
        property_at(node, "$."@ + path + "."@ + name) == (match property_at(node, "$."@ + path) {
            Some(value) => value.member(name),
            None => None,
        }),
        (path.len() < 2 || path[0] != '$' || path[1] != '.') ==> property_at(node, path) is None,
{
    reveal_strlit("$.");
    reveal_strlit(".");
    let dot = "."@;
    assert("$."@.is_prefix_of("$."@ + name)) by {
        assert(("$."@ + name).subrange(0, 2) =~= "$."@);
    }
    assert(("$."@ + name).skip(2) =~= name);
    assert("$."@.is_prefix_of("$."@ + path)) by {
        assert(("$."@ + path).subrange(0, 2) =~= "$."@);
    }
    assert(("$."@ + path).skip(2) =~= path);
    let long = "$."@ + path + dot + name;
    assert("$."@.is_prefix_of(long)) by {
        assert(long.subrange(0, 2) =~= "$."@);
    }
    assert(long.skip(2) =~= path + dot + name);
    lemma_segments(Seq::empty(), name, false);
    assert(Seq::<char>::empty() + name =~= name);
    lemma_segments(path, name, true);
    assert(path + seq!['.'] + name =~= path + dot + name);
    let start = Some(ns);
    let one = segments(name);
    assert(one =~= seq![name]);
    reveal_with_fuel(reached, 2);
    assert(one.drop_last() =~= Seq::empty());
    let many = segments(path + dot + name);
    assert(many.drop_last() =~= segments(path));
    assert(many.last() == name);
    if "$."@.is_prefix_of(path) {
        assert(path.subrange(0, 2)[0] == path[0]);
        assert(path.subrange(0, 2)[1] == path[1]);
    }
}

proof fn lemma_segments(path: Seq<char>, name: Seq<char>, dotted: bool)
    requires
        !name.contains('.'),
        !dotted ==> path.len() == 0,
    ensures
        dotted ==> segments(path + seq!['.'] + name) == segments(path).push(name),
        !dotted ==> segments(path + name) == seq![name],
    decreases name.len(),
{
    let head = if dotted {
        path + seq!['.']
    } else {
        path
    };
    let whole = head + name;
    if name.len() == 0 {
        assert(whole =~= head);
        assert(name =~= Seq::empty());
        if dotted {
            assert(whole.drop_last() =~= path);
            assert(segments(path).push(Seq::empty()) =~= segments(path).push(name));
        } else {
            assert(segments(whole) =~= seq![name]);
        }
    } else {
        let shorter = name.drop_last();
        assert(!shorter.contains('.')) by {
            if shorter.contains('.') {
                let i = choose|i: int| 0 <= i < shorter.len() && shorter[i] == '.';
                assert(name[i] == '.');
            }
        }
        lemma_segments(path, shorter, dotted);
        assert(whole.drop_last() =~= head + shorter);
        assert(whole.last() == name.last());
        assert(name.last() != '.') by {
            assert(name[name.len() - 1] == name.last());
        }
        assert(shorter.push(name.last()) =~= name);
        if dotted {
            assert(segments(path).push(shorter).drop_last() =~= segments(path));
        } else {
            assert(seq![shorter].drop_last().push(name) =~= seq![name]);
        }
    }
}

/// The tests of the operators on equal values, and how they relate: each order is the other way round
/// the opposite one, and the weak orders are the strong ones or equality.
pub proof fn law_operators_relate(a: Json, b: Json)
    ensures
        satisfies(a, FilterOperator::Equals, b) <==> a == b,
        satisfies(a, FilterOperator::NotEquals, b) <==> a != b,
        satisfies(a, FilterOperator::LessThan, b) <==> satisfies(b, FilterOperator::GreaterThan, a),
        satisfies(a, FilterOperator::LessThanOrEqual, b) <==> satisfies(
            b,
            FilterOperator::GreaterThanOrEqual,
            a,
        ),
        satisfies(a, FilterOperator::LessThan, b) ==> satisfies(a, FilterOperator::LessThanOrEqual, b)
            && !satisfies(a, FilterOperator::GreaterThanOrEqual, b),
        satisfies(a, FilterOperator::GreaterThan, b) ==> satisfies(
            a,
            FilterOperator::GreaterThanOrEqual,
            b,
        ) && !satisfies(a, FilterOperator::LessThanOrEqual, b),
        satisfies(a, FilterOperator::LessThanOrEqual, b) && satisfies(
            a,
            FilterOperator::GreaterThanOrEqual,
            b,
        ) ==> !satisfies(a, FilterOperator::LessThan, b) && !satisfies(
            a,
            FilterOperator::GreaterThan,
            b,
        ),
        a is Text && b is Text || a is Bool && b is Bool ==> satisfies(
            a,
            FilterOperator::LessThanOrEqual,
            b,
        ) || satisfies(a, FilterOperator::GreaterThan, b),
        a is Null || a is Array || a is Object ==> !satisfies(a, FilterOperator::LessThanOrEqual, b)
            && !satisfies(a, FilterOperator::GreaterThanOrEqual, b),
        !(a is Text) || !(b is Text) ==> !satisfies(a, FilterOperator::Contains, b) && !satisfies(
            a,
            FilterOperator::StartsWith,
            b,
        ) && !satisfies(a, FilterOperator::EndsWith, b),
{
    crate::query::law_comparison_is_antisymmetric(a, b);
}

/// Integers of the size that numbers hold exactly, texts and truth values compare as they should.
pub proof fn law_orders_are_right(x: u64, y: u64, s: Seq<char>, t: Seq<char>, p: bool, q: bool)
    requires
        x <= 0x20_0000_0000_0000,
        y <= 0x20_0000_0000_0000,
    ensures
        satisfies(
            Json::Number(Number::PosInt(x)),
            FilterOperator::LessThan,
            Json::Number(Number::PosInt(y)),
        ) <==> x < y,
        satisfies(
            Json::Number(Number::PosInt(x)),
            FilterOperator::LessThanOrEqual,
            Json::Number(Number::PosInt(y)),
        ) <==> x <= y,
        satisfies(
            Json::Number(Number::PosInt(x)),
            FilterOperator::GreaterThan,
            Json::Number(Number::PosInt(y)),
        ) <==> x > y,
        satisfies(Json::Text(s), FilterOperator::LessThanOrEqual, Json::Text(t)) <==> text_le(s, t),
        satisfies(Json::Text(s), FilterOperator::LessThan, Json::Text(t)) <==> text_le(s, t) && s != t,
        satisfies(Json::Bool(p), FilterOperator::LessThan, Json::Bool(q)) <==> !p && q,
{
    if x < y {
        law_rank_separates_small_integers(x as nat, y as nat);
    } else if y < x {
        law_rank_separates_small_integers(y as nat, x as nat);
    }
    lemma_text_le_total(s, t);
    lemma_text_le_total(s, s);
}

/// Texts are tested for their parts in lower case: what begins or ends with a text contains it, and
/// every text begins with, ends with and contains itself.
pub proof fn law_parts_of_texts(a: Seq<char>, b: Seq<char>)
    ensures
        satisfies(Json::Text(a), FilterOperator::Contains, Json::Text(b)) <==> contains_part(
            lowercase(a),
            lowercase(b),
        ),
        satisfies(Json::Text(a), FilterOperator::StartsWith, Json::Text(b)) <==> occurs_at(
            lowercase(a),
            lowercase(b),
            0,
        ),
        satisfies(Json::Text(a), FilterOperator::EndsWith, Json::Text(b)) <==> occurs_at(
            lowercase(a),
            lowercase(b),
            lowercase(a).len() - lowercase(b).len(),
        ),
{
    let x = lowercase(a);
    let y = lowercase(b);
    if y.len() <= x.len() {
        if occurs_at(x, y, 0) {
            assert(x.subrange(0, y.len() as int) =~= y);
        }
        if y.is_prefix_of(x) {
            assert forall|i: int| 0 <= i < y.len() implies #[trigger] x[0 + i] == y[i] by {
                assert(x.subrange(0, y.len() as int)[i] == x[i]);
            }
        }
        let from = x.len() - y.len();
        if occurs_at(x, y, from) {
            assert(x.subrange(from, x.len() as int) =~= y);
        }
        if y.is_suffix_of(x) {
            assert forall|i: int| 0 <= i < y.len() implies #[trigger] x[from + i] == y[i] by {
                assert(x.subrange(from, x.len() as int)[i] == x[from + i]);
            }
        }
    }
}

/// A simple query by identifier gives that node alone, whatever else it names. One that names nothing
/// finds nothing. Any other asks the store for just what it names, within the default limit if it
/// names none.
pub proof fn law_simple_queries(query: NodeQueryView, node: NodeView)
    ensures
        query.id matches Some(id) ==> simple_query_next(query, Seq::empty()) == StepView::Ask(
            RequestView::GetNode { id },
        ),
        query.id is Some ==> simple_query_next(query, seq![ReplyView::Node { node: Some(node) }])
            == StepView::Finish(OutcomeView::Nodes { nodes: seq![node] }) && simple_query_next(
            query,
            seq![ReplyView::Node { node: None }],
        ) == StepView::Finish(OutcomeView::Nodes { nodes: Seq::empty() }),
        query.id is None && query.mentioned_by is None && query.content_contains is None
            && query.title_contains is None && query.node_type is None ==> simple_query_next(
            query,
            Seq::empty(),
        ) == StepView::Finish(OutcomeView::Nodes { nodes: Seq::empty() }),
        query.id is None && (query.mentioned_by is Some || query.content_contains is Some
            || query.title_contains is Some || query.node_type is Some) ==> (simple_query_next(
            query,
            Seq::empty(),
        ) matches StepView::Ask(RequestView::QueryStore { query: asked }) && asked.id is None
            && asked.mentioned_by == query.mentioned_by && asked.content_contains
            == query.content_contains && asked.title_contains == query.title_contains
            && asked.node_type == query.node_type && asked.offset == query.offset && asked.limit
            == Some(
            match query.limit {
                Some(n) => n,
                None => 100usize,
            },
        )),
{
}

proof fn lemma_simple_refreshing(
    nodes: Seq<NodeView>,
    i: nat,
    before: Seq<NodeView>,
    log: Seq<ReplyView>,
    found: Seq<NodeView>,
)
    requires
        simple_refresh_next(nodes, i, before, log) == StepView::Finish(
            OutcomeView::Nodes { nodes: found },
        ),
        before.len() == i <= nodes.len(),
    ensures
        found.len() == nodes.len(),
        log.len() >= nodes.len() - i,
        log.len() == nodes.len() - i ==> forall|j: int|
            i <= j < nodes.len() ==> #[trigger] found[j] == (NodeView {
                properties: found[j].properties,
                ..nodes[j]
            }),
        forall|j: int| 0 <= j < i ==> #[trigger] found[j] == before[j],
    decreases nodes.len() - i,
{
    if i < nodes.len() {
        let schema = log[0]->Schema_schema;
        match refreshed(nodes[i as int], schema, log.skip(1)) {
            Refreshed::Ready { node, used } => {
                let more = before.push(node);
                lemma_simple_refreshing(nodes, i + 1, more, log.skip(1 + used as int), found);
                assert(found[i as int] == more[i as int]);
                assert forall|j: int| 0 <= j < i implies #[trigger] found[j] == before[j] by {
                    assert(found[j] == more[j]);
                }
            },
            Refreshed::Wait { step } => {},
        }
    }
}

/// A simple query gives as many nodes as the store gave, and where nothing was migrated the same ones
/// in their order, but for what was noted in their properties.
pub proof fn law_simple_queries_give_what_the_store_gave(
    query: NodeQueryView,
    log: Seq<ReplyView>,
    nodes: Seq<NodeView>,
    found: Seq<NodeView>,
)
    requires
        query.id is None,
        log.len() > 0,
        log[0] == (ReplyView::Nodes { nodes }),
        query.mentioned_by is Some || query.content_contains is Some || query.title_contains is Some
            || query.node_type is Some,
        simple_query_next(query, log) == StepView::Finish(OutcomeView::Nodes { nodes: found }),
    ensures
        are_ready(nodes, found, log.len() > 1 + nodes.len()),
{
    lemma_simple_refreshing(nodes, 0, Seq::empty(), log.skip(1), found);
}

/// A query by type asks for that type alone and gives exactly the nodes that have the status, in their
/// order, or all if none is named.
pub proof fn law_queries_by_type(
    node_type: Seq<char>,
    status: Seq<char>,
    nodes: Seq<NodeView>,
    node: NodeView,
)
    ensures
        typed_query_next(node_type, Some(status), Seq::empty()) == typed_query_next(
            node_type,
            None,
            Seq::empty(),
        ),
        typed_query_next(node_type, None, Seq::empty()) matches StepView::Ask(
            RequestView::QueryStore { query },
        ) && query.node_type == Some(node_type) && query.id is None && query.content_contains is None
            && query.title_contains is None && query.mentioned_by is None && query.limit is None
            && query.offset is None,
        typed_query_next(node_type, None, seq![ReplyView::Nodes { nodes }]) == StepView::Finish(
            OutcomeView::Nodes { nodes },
        ),
        typed_query_next(node_type, Some(status), seq![ReplyView::Nodes { nodes }]) matches StepView::Finish(
            OutcomeView::Nodes { nodes: found },
        ) && (found.contains(node) <==> nodes.contains(node) && node.lifecycle_status == status)
            && found.len() <= nodes.len(),
{
    let has = |n: NodeView| n.lifecycle_status == status;
    nodes.lemma_filter_len(has);
    let found = nodes.filter(has);
    if found.contains(node) {
        let i = choose|i: int| 0 <= i < found.len() && found[i] == node;
        nodes.lemma_filter_pred(has, i);
        nodes.lemma_filter_contains_rev(has, node);
    }
    if nodes.contains(node) && node.lifecycle_status == status {
        let i = choose|i: int| 0 <= i < nodes.len() && nodes[i] == node;
        nodes.lemma_filter_contains(has, i);
    }
}

/// A node that a query had to migrate is stored in the new form before the query goes on: the store is
/// asked to keep its properties, and that it cannot fails the query.
pub proof fn law_migrated_nodes_are_stored(
    node: NodeView,
    schema: Option<Json>,
    migrated: NodeView,
    message: Seq<char>,
)
    requires
        refreshed(node, schema, Seq::empty()) is Wait,
    ensures
        refreshed(node, schema, Seq::empty())->step matches StepView::Ask(
            RequestView::Migrate { node: old, target: _ },
        ) && old.id == node.id && old.content == node.content && old.node_type == node.node_type,
        refreshed(node, schema, seq![ReplyView::Node { node: Some(migrated) }]) matches Refreshed::Wait {
            step: StepView::Ask(RequestView::StoreUpdate { id, update }),
        } && id == node.id && update.properties == Some(migrated.properties) && update.content is None
            && update.node_type is None && update.title is None && update.lifecycle_status is None,
        refreshed(
            node,
            schema,
            seq![ReplyView::Node { node: Some(migrated) }, ReplyView::Done],
        ) == (Refreshed::Ready { node: migrated, used: 2 }),
        refreshed(
            node,
            schema,
            seq![ReplyView::Node { node: Some(migrated) }, ReplyView::Failed { message }],
        ) matches Refreshed::Wait { step: StepView::Fail(_) },
{
}

} // verus!
