//! Queries for nodes.

use crate::bulk::{find_index, index_in};
use crate::error::{ErrorView, NodeServiceError};
use crate::hierarchy::optional_str;
use crate::hits::lists;
use crate::json::{Json, Value};
use crate::mentions::{distinct, push_new};
use crate::node::{
    clone_nodes, clone_optional, node_views, optional_text, texts, Node, NodeUpdate, NodeUpdateView,
    NodeView,
};
use crate::protocol::{
    group_replies, replies, replies_from, Outcome, OutcomeView, Reply, ReplyView, Request,
    RequestView, Step, StepView,
};
use crate::ranking::rank_of;
use crate::schema::{backfilled, migration_target_of};
use crate::service::NodeService;
use crate::text::{
    chars_of, contains_part, lemma_text_le_total, lowercase, same_text, text_at_most, text_contains,
    text_ends_with, text_le, text_of, text_starts_with, to_lowercase,
};
use vstd::prelude::*;
use vstd::string::*;

verus! {

broadcast use group_replies;

/// The number of nodes that a simple query gives at most when it names no limit.
pub const DEFAULT_QUERY_LIMIT: usize = 100;

/// The number of nodes that are loaded at most to be filtered by their properties.
pub const PROPERTY_FILTER_FETCH_CAP: usize = 10_000;

/// How a property is held against the value of a filter.
#[derive(Clone, Copy, Debug, PartialEq, Eq, Structural)]
pub enum FilterOperator {
    Equals,
    NotEquals,
    Contains,
    StartsWith,
    EndsWith,
    GreaterThan,
    GreaterThanOrEqual,
    LessThan,
    LessThanOrEqual,
}

/// A condition on a property. The path begins with `$.`; dots part the names of nested fields.
#[derive(Debug)]
pub struct PropertyFilter {
    pub path: String,
    pub operator: FilterOperator,
    pub value: Value,
}

#[verifier::ext_equal]
pub struct PropertyFilterView {
    pub path: Seq<char>,
    pub operator: FilterOperator,
    pub value: Json,
}

impl View for PropertyFilter {
    type V = PropertyFilterView;

    open spec fn view(&self) -> PropertyFilterView {
        PropertyFilterView { path: self.path@, operator: self.operator, value: self.value@ }
    }
}

pub open spec fn filter_views(filters: Seq<PropertyFilter>) -> Seq<PropertyFilterView> {
    filters.map_values(|f: PropertyFilter| f@)
}

/// What a caller looks for.
#[derive(Debug)]
pub struct NodeFilter {
    /// The identifiers of the nodes that are looked for; without a list any.
    pub ids: Option<Vec<String>>,
    pub node_type: Option<String>,
    pub content_contains: Option<String>,
    pub title_contains: Option<String>,
    pub property_filters: Option<Vec<PropertyFilter>>,
    pub limit: Option<usize>,
    pub offset: Option<usize>,
}

#[verifier::ext_equal]
pub struct NodeFilterView {
    pub ids: Option<Seq<Seq<char>>>,
    pub node_type: Option<Seq<char>>,
    pub content_contains: Option<Seq<char>>,
    pub title_contains: Option<Seq<char>>,
    pub property_filters: Option<Seq<PropertyFilterView>>,
    pub limit: Option<usize>,
    pub offset: Option<usize>,
}

impl View for NodeFilter {
    type V = NodeFilterView;

    open spec fn view(&self) -> NodeFilterView {
        NodeFilterView {
            ids: match self.ids {
                Some(ids) => Some(texts(ids@)),
                None => None,
            },
            node_type: optional_text(self.node_type),
            content_contains: optional_text(self.content_contains),
            title_contains: optional_text(self.title_contains),
            property_filters: match self.property_filters {
                Some(filters) => Some(filter_views(filters@)),
                None => None,
            },
            limit: self.limit,
            offset: self.offset,
        }
    }
}

/// What the store is asked for.
#[derive(Debug)]
pub struct NodeQuery {
    pub id: Option<String>,
    pub node_type: Option<String>,
    pub content_contains: Option<String>,
    pub title_contains: Option<String>,
    pub mentioned_by: Option<String>,
    pub limit: Option<usize>,
    pub offset: Option<usize>,
}

#[verifier::ext_equal]
pub struct NodeQueryView {
    pub id: Option<Seq<char>>,
    pub node_type: Option<Seq<char>>,
    pub content_contains: Option<Seq<char>>,
    pub title_contains: Option<Seq<char>>,
    pub mentioned_by: Option<Seq<char>>,
    pub limit: Option<usize>,
    pub offset: Option<usize>,
}

impl View for NodeQuery {
    type V = NodeQueryView;

    open spec fn view(&self) -> NodeQueryView {
        NodeQueryView {
            id: optional_text(self.id),
            node_type: optional_text(self.node_type),
            content_contains: optional_text(self.content_contains),
            title_contains: optional_text(self.title_contains),
            mentioned_by: optional_text(self.mentioned_by),
            limit: self.limit,
            offset: self.offset,
        }
    }
}

impl NodeQuery {
    fn with_limit_of(&self, limit: Option<usize>) -> (r: NodeQuery)
        ensures
            r@ == (NodeQueryView { limit, ..self@ }),
    {
        NodeQuery {
            id: clone_optional(&self.id),
            node_type: clone_optional(&self.node_type),
            content_contains: clone_optional(&self.content_contains),
            title_contains: clone_optional(&self.title_contains),
            mentioned_by: clone_optional(&self.mentioned_by),
            limit,
            offset: self.offset,
        }
    }
}

/// How two values that can be compared relate.
#[derive(Clone, Copy, Debug, PartialEq, Eq, Structural)]
pub enum Comparison {
    Less,
    Equal,
    Greater,
}

pub open spec fn compared_ints(a: int, b: int) -> Comparison {
    if a < b {
        Comparison::Less
    } else if a == b {
        Comparison::Equal
    } else {
        Comparison::Greater
    }
}

/// Numbers are compared by value, texts by their characters, and false comes before true. Values of
/// different kinds and values of other kinds are not comparable.
pub open spec fn compared(a: Json, b: Json) -> Option<Comparison> {
    match (a, b) {
        (Json::Number(x), Json::Number(y)) => match (rank_of(x), rank_of(y)) {
            (Some(i), Some(j)) => Some(compared_ints(i, j)),
            _ => None,
        },
        (Json::Text(x), Json::Text(y)) => if x == y {
            Some(Comparison::Equal)
        } else if text_le(x, y) {
            Some(Comparison::Less)
        } else {
            Some(Comparison::Greater)
        },
        (Json::Bool(x), Json::Bool(y)) => if x == y {
            Some(Comparison::Equal)
        } else if y {
            Some(Comparison::Less)
        } else {
            Some(Comparison::Greater)
        },
        _ => None,
    }
}

/// The parts of a path between its dots.
pub open spec fn segments(path: Seq<char>) -> Seq<Seq<char>>
    decreases path.len(),
{
    if path.len() == 0 {
        seq![Seq::empty()]
    } else {
        let before = segments(path.drop_last());
        if path.last() == '.' {
            before.push(Seq::empty())
        } else {
            before.drop_last().push(before.last().push(path.last()))
        }
    }
}

/// The value that a list of names leads to.
pub open spec fn reached(start: Option<Json>, names: Seq<Seq<char>>) -> Option<Json>
    decreases names.len(),
{
    if names.len() == 0 {
        start
    } else {
        match reached(start, names.drop_last()) {
            Some(value) => value.member(names.last()),
            None => None,
        }
    }
}

/// The property that a path names. Paths begin in the namespace of the type of the node.
pub open spec fn property_at(node: NodeView, path: Seq<char>) -> Option<Json> {
    if "$."@.is_prefix_of(path) {
        reached(node.properties.member(node.node_type), segments(path.skip(2)))
    } else {
        None
    }
}

/// A value passes the test of an operator. Texts are tested without regard to case.
pub open spec fn satisfies(actual: Json, operator: FilterOperator, expected: Json) -> bool {
    match operator {
        FilterOperator::Equals => actual == expected,
        FilterOperator::NotEquals => actual != expected,
        FilterOperator::Contains => match (actual.text(), expected.text()) {
            (Some(a), Some(e)) => contains_part(lowercase(a), lowercase(e)),
            _ => false,
        },
        FilterOperator::StartsWith => match (actual.text(), expected.text()) {
            (Some(a), Some(e)) => lowercase(e).is_prefix_of(lowercase(a)),
            _ => false,
        },
        FilterOperator::EndsWith => match (actual.text(), expected.text()) {
            (Some(a), Some(e)) => lowercase(e).is_suffix_of(lowercase(a)),
            _ => false,
        },
        FilterOperator::GreaterThan => compared(actual, expected) == Some(Comparison::Greater),
        FilterOperator::GreaterThanOrEqual => compared(actual, expected) == Some(
            Comparison::Greater,
        ) || compared(actual, expected) == Some(Comparison::Equal),
        FilterOperator::LessThan => compared(actual, expected) == Some(Comparison::Less),
        FilterOperator::LessThanOrEqual => compared(actual, expected) == Some(Comparison::Less)
            || compared(actual, expected) == Some(Comparison::Equal),
    }
}

/// A node matches a filter if it has the property and the property passes the test.
pub open spec fn matches_filter(node: NodeView, filter: PropertyFilterView) -> bool {
    match property_at(node, filter.path) {
        Some(actual) => satisfies(actual, filter.operator, filter.value),
        None => false,
    }
}

pub open spec fn matches_all(node: NodeView, filters: Seq<PropertyFilterView>) -> bool {
    forall|i: int| 0 <= i < filters.len() ==> matches_filter(node, #[trigger] filters[i])
}

fn split_path(path: &str) -> (r: Vec<String>)
    ensures
        texts(r@) == segments(path@),
{
    let chars = chars_of(path);
    let mut out: Vec<String> = Vec::new();
    let mut current: Vec<char> = Vec::new();
    let mut i: usize = 0;
    proof {
        assert(chars@.take(0) =~= Seq::empty());
        assert(texts(out@).push(current@) =~= seq![Seq::empty()]);
    }
    while i < chars.len()
        invariant
            i <= chars@.len(),
            texts(out@).push(current@) == segments(chars@.take(i as int)),
        decreases chars@.len() - i,
    {
        let ghost before = texts(out@).push(current@);
        proof {
            assert(chars@.take(i + 1).drop_last() =~= chars@.take(i as int));
            assert(before.drop_last() =~= texts(out@));
            assert(before.last() == current@);
        }
        if chars[i] == '.' {
            let part = text_of(&current);
            out.push(part);
            current = Vec::new();
            proof {
                assert(texts(out@) =~= before);
                assert(texts(out@).push(current@) =~= before.push(Seq::empty()));
            }
        } else {
            current.push(chars[i]);
        }
        i += 1;
    }
    let ghost kept = texts(out@);
    let part = text_of(&current);
    out.push(part);
    proof {
        assert(texts(out@) =~= kept.push(current@));
        assert(chars@.take(chars@.len() as int) =~= chars@);
    }
    out
}

fn after_prefix(path: &str) -> (r: String)
    requires
        "$."@.is_prefix_of(path@),
    ensures
        r@ == path@.skip(2),
{
    proof {
        reveal_strlit("$.");
    }
    let chars = chars_of(path);
    let mut rest: Vec<char> = Vec::new();
    let mut i: usize = 2;
    while i < chars.len()
        invariant
            2 <= i <= chars@.len(),
            rest@ == chars@.subrange(2, i as int),
        decreases chars@.len() - i,
    {
        rest.push(chars[i]);
        i += 1;
    }
    text_of(&rest)
}

impl NodeService {
    /// Compares two property values.
    pub fn compare_property_values(a: &Value, b: &Value) -> (r: Option<Comparison>)
        ensures
            r == compared(a@, b@),
    {
        match (a, b) {
            (Value::Number(x), Value::Number(y)) => {
                match (x.rank(), y.rank()) {
                    (Some(i), Some(j)) => Some(
                        if i < j {
                            Comparison::Less
                        } else if i == j {
                            Comparison::Equal
                        } else {
                            Comparison::Greater
                        },
                    ),
                    _ => None,
                }
            },
            (Value::Text(x), Value::Text(y)) => {
                if same_text(x.as_str(), y.as_str()) {
                    Some(Comparison::Equal)
                } else if text_at_most(x.as_str(), y.as_str()) {
                    Some(Comparison::Less)
                } else {
                    Some(Comparison::Greater)
                }
            },
            (Value::Bool(x), Value::Bool(y)) => {
                if *x == *y {
                    Some(Comparison::Equal)
                } else if *y {
                    Some(Comparison::Less)
                } else {
                    Some(Comparison::Greater)
                }
            },
            _ => None,
        }
    }

    /// Whether a node matches a filter.
    pub fn node_matches_property_filter(node: &Node, filter: &PropertyFilter) -> (r: bool)
        ensures
            r == matches_filter(node@, filter@),
    {
        if !text_starts_with(filter.path.as_str(), "$.") {
            return false;
        }
        let path = after_prefix(filter.path.as_str());
        let names = split_path(path.as_str());
        let ghost all = texts(names@);
        let start = node.properties.get(node.node_type.as_str());
        let ghost first = node@.properties.member(node@.node_type);
        let mut current: Option<&Value> = start;
        let mut i: usize = 0;
        proof {
            assert(all.take(0) =~= Seq::empty());
        }
        while i < names.len()
            invariant
                i <= names@.len() == all.len(),
                (match current {
                    Some(v) => Some(v@),
                    None => None,
                }) == reached(first, all.take(i as int)),
            decreases names@.len() - i,
        {
            proof {
                assert(all.take(i + 1).drop_last() =~= all.take(i as int));
                assert(all.take(i + 1).last() == names@[i as int]@);
            }
            current = match current {
                Some(value) => value.get(names[i].as_str()),
                None => None,
            };
            i += 1;
        }
        proof {
            assert(all.take(all.len() as int) =~= all);
        }
        match current {
            Some(actual) => NodeService::passes(actual, filter),
            None => false,
        }
    }

    fn passes(actual: &Value, filter: &PropertyFilter) -> (r: bool)
        ensures
            r == satisfies(actual@, filter.operator, filter.value@),
    {
        match filter.operator {
            FilterOperator::Equals => *actual == filter.value,
            FilterOperator::NotEquals => !(*actual == filter.value),
            FilterOperator::Contains => match (actual.as_str(), filter.value.as_str()) {
                (Some(a), Some(e)) => text_contains(
                    to_lowercase(a).as_str(),
                    to_lowercase(e).as_str(),
                ),
                _ => false,
            },
            FilterOperator::StartsWith => match (actual.as_str(), filter.value.as_str()) {
                (Some(a), Some(e)) => text_starts_with(
                    to_lowercase(a).as_str(),
                    to_lowercase(e).as_str(),
                ),
                _ => false,
            },
            FilterOperator::EndsWith => match (actual.as_str(), filter.value.as_str()) {
                (Some(a), Some(e)) => text_ends_with(
                    to_lowercase(a).as_str(),
                    to_lowercase(e).as_str(),
                ),
                _ => false,
            },
            FilterOperator::GreaterThan => match NodeService::compare_property_values(
                actual,
                &filter.value,
            ) {
                Some(Comparison::Greater) => true,
                _ => false,
            },
            FilterOperator::GreaterThanOrEqual => match NodeService::compare_property_values(
                actual,
                &filter.value,
            ) {
                Some(Comparison::Greater) => true,
                Some(Comparison::Equal) => true,
                _ => false,
            },
            FilterOperator::LessThan => match NodeService::compare_property_values(
                actual,
                &filter.value,
            ) {
                Some(Comparison::Less) => true,
                _ => false,
            },
            FilterOperator::LessThanOrEqual => match NodeService::compare_property_values(
                actual,
                &filter.value,
            ) {
                Some(Comparison::Less) => true,
                Some(Comparison::Equal) => true,
                _ => false,
            },
        }
    }

    fn passes_all(node: &Node, filters: &Vec<PropertyFilter>) -> (r: bool)
        ensures
            r == matches_all(node@, filter_views(filters@)),
    {
        let ghost all = filter_views(filters@);
        let mut i: usize = 0;
        while i < filters.len()
            invariant
                i <= filters@.len() == all.len(),
                forall|j: int| 0 <= j < i ==> matches_filter(node@, #[trigger] all[j]),
            decreases filters@.len() - i,
        {
            if !NodeService::node_matches_property_filter(node, &filters[i]) {
                proof {
                    assert(!matches_filter(node@, all[i as int]));
                }
                return false;
            }
            proof {
                assert(all[i as int] == filters@[i as int]@);
            }
            i += 1;
        }
        true
    }

    /// The nodes that match all filters, in their order.
    pub fn apply_property_filters(nodes: &Vec<Node>, filters: &Vec<PropertyFilter>) -> (r: Vec<Node>)
        ensures
            node_views(r@) == node_views(nodes@).filter(
                |n: NodeView| matches_all(n, filter_views(filters@)),
            ),
    {
        let ghost all = node_views(nodes@);
        let ghost keep = |n: NodeView| matches_all(n, filter_views(filters@));
        let mut out: Vec<Node> = Vec::new();
        let mut i: usize = 0;
        proof {
            reveal(Seq::filter);
            assert(node_views(out@) =~= all.take(0).filter(keep));
        }
        while i < nodes.len()
            invariant
                i <= nodes@.len() == all.len(),
                node_views(out@) == all.take(i as int).filter(keep),
            decreases nodes@.len() - i,
        {
            proof {
                reveal(Seq::filter);
                assert(all.take(i + 1).drop_last() =~= all.take(i as int));
                assert(all.take(i + 1).last() == nodes@[i as int]@);
            }
            if NodeService::passes_all(&nodes[i], filters) {
                let ghost before = node_views(out@);
                let copy = (&nodes[i]).clone();
                out.push(copy);
                proof {
                    assert(node_views(out@) =~= before.push(nodes@[i as int]@));
                }
            }
            i += 1;
        }
        proof {
            assert(all.take(all.len() as int) =~= all);
        }
        out
    }
}

/// Part of a list: at most `limit` items from `offset` on.
pub open spec fn page<T>(items: Seq<T>, offset: Option<usize>, limit: Option<usize>) -> Seq<T> {
    let rest = match offset {
        Some(n) => if n < items.len() {
            items.skip(n as int)
        } else {
            Seq::empty()
        },
        None => items,
    };
    match limit {
        Some(n) => if n < rest.len() {
            rest.take(n as int)
        } else {
            rest
        },
        None => rest,
    }
}

fn take_page(nodes: &Vec<Node>, offset: Option<usize>, limit: Option<usize>) -> (r: Vec<Node>)
    ensures
        node_views(r@) == page(node_views(nodes@), offset, limit),
{
    let ghost all = node_views(nodes@);
    let start: usize = match offset {
        Some(n) => if n < nodes.len() {
            n
        } else {
            nodes.len()
        },
        None => 0,
    };
    let end: usize = match limit {
        Some(n) => if n < nodes.len() - start {
            start + n
        } else {
            nodes.len()
        },
        None => nodes.len(),
    };
    let mut out: Vec<Node> = Vec::new();
    let mut i: usize = start;
    while i < end
        invariant
            start <= i <= end <= nodes@.len(),
            out@.len() == i - start,
            forall|j: int| 0 <= j < i - start ==> (#[trigger] out@[j])@ == nodes@[start + j]@,
        decreases end - i,
    {
        let copy = (&nodes[i]).clone();
        out.push(copy);
        i += 1;
    }
    proof {
        assert(node_views(out@) =~= page(all, offset, limit));
    }
    out
}

/// What comes of bringing a loaded node up to date.
pub enum Refreshed {
    /// The node, and the number of replies that it took.
    Ready { node: NodeView, used: nat },
    /// The next step, while the node is not ready.
    Wait { step: StepView },
}

/// A loaded node gets the version of its schema, and is migrated if that is newer than its own.
pub open spec fn refreshed(node: NodeView, schema: Option<Json>, log: Seq<ReplyView>) -> Refreshed {
    let noted = NodeView { properties: backfilled(node, schema), ..node };
    match migration_target_of(noted, schema) {
        None => Refreshed::Ready { node: noted, used: 0 },
        Some(target) => if log.len() == 0 {
            Refreshed::Wait { step: StepView::Ask(RequestView::Migrate { node: noted, target }) }
        } else {
            match log[0] {
                ReplyView::Refused { error } => Refreshed::Wait { step: StepView::Fail(error) },
                ReplyView::Node { node: Some(migrated) } => stored_migration(
                    noted.id,
                    migrated,
                    log.skip(1),
                ),
                _ => Refreshed::Wait { step: StepView::Mismatch },
            }
        },
    }
}

pub open spec fn stored_migration(
    id: Seq<char>,
    migrated: NodeView,
    log: Seq<ReplyView>,
) -> Refreshed {
    if log.len() == 0 {
        Refreshed::Wait {
            step: StepView::Ask(
                RequestView::StoreUpdate { id, update: properties_update(migrated.properties) },
            ),
        }
    } else {
        match log[0] {
            ReplyView::Failed { message } => Refreshed::Wait {
                step: StepView::Fail(
                    ErrorView::QueryFailed("Failed to persist migrated node: "@ + message),
                ),
            },
            ReplyView::Done => Refreshed::Ready { node: migrated, used: 2 },
            _ => Refreshed::Wait { step: StepView::Mismatch },
        }
    }
}

pub open spec fn properties_update(properties: Json) -> NodeUpdateView {
    NodeUpdateView {
        node_type: None,
        content: None,
        properties: Some(properties),
        title: None,
        lifecycle_status: None,
    }
}

/// The store query of a filter. Identifiers and filters on properties are not the business of the
/// store: it is asked for more nodes, and the page is cut out afterwards.
pub open spec fn store_query(filter: NodeFilterView) -> NodeQueryView {
    NodeQueryView {
        id: None,
        node_type: filter.node_type,
        content_contains: filter.content_contains,
        title_contains: filter.title_contains,
        mentioned_by: None,
        limit: if filter.property_filters is Some {
            Some(PROPERTY_FILTER_FETCH_CAP)
        } else if filter.ids is Some {
            None
        } else {
            filter.limit
        },
        offset: if filter.property_filters is Some || filter.ids is Some {
            None
        } else {
            filter.offset
        },
    }
}

/// A node that a list of identifiers names: it has one of them, and the type that is looked for.
pub open spec fn is_named(filter: NodeFilterView, node: NodeView) -> bool {
    filter.ids matches Some(ids) ==> ids.contains(node.id) && (filter.node_type matches Some(t)
        ==> node.node_type == t)
}

/// A node that is named and has the properties that are looked for.
pub open spec fn is_wanted(filter: NodeFilterView, node: NodeView) -> bool {
    is_named(filter, node) && (filter.property_filters matches Some(filters) ==> matches_all(
        node,
        filters,
    ))
}

/// What a filter leaves of the nodes that the store gave.
pub open spec fn selected(filter: NodeFilterView, nodes: Seq<NodeView>) -> Seq<NodeView> {
    if filter.property_filters is Some || filter.ids is Some {
        page(nodes.filter(|n: NodeView| is_wanted(filter, n)), filter.offset, filter.limit)
    } else {
        nodes
    }
}

fn check_named(filter: &NodeFilter, node: &Node) -> (r: bool)
    ensures
        r == is_named(filter@, node@),
{
    match &filter.ids {
        None => true,
        Some(ids) => lists(ids, node.id.as_str()) && match &filter.node_type {
            Some(t) => same_text(node.node_type.as_str(), t.as_str()),
            None => true,
        },
    }
}

fn keep_named(nodes: &Vec<Node>, filter: &NodeFilter) -> (r: Vec<Node>)
    ensures
        node_views(r@) == node_views(nodes@).filter(|n: NodeView| is_named(filter@, n)),
{
    let ghost all = node_views(nodes@);
    let ghost keep = |n: NodeView| is_named(filter@, n);
    let mut out: Vec<Node> = Vec::new();
    let mut i: usize = 0;
    proof {
        reveal(Seq::filter);
        assert(node_views(out@) =~= all.take(0).filter(keep));
    }
    while i < nodes.len()
        invariant
            i <= nodes@.len() == all.len(),
            node_views(out@) == all.take(i as int).filter(keep),
        decreases nodes@.len() - i,
    {
        proof {
            reveal(Seq::filter);
            assert(all.take(i + 1).drop_last() =~= all.take(i as int));
            assert(all.take(i + 1).last() == nodes@[i as int]@);
        }
        if check_named(filter, &nodes[i]) {
            let ghost before = node_views(out@);
            let copy = (&nodes[i]).clone();
            out.push(copy);
            proof {
                assert(node_views(out@) =~= before.push(nodes@[i as int]@));
            }
        }
        i += 1;
    }
    proof {
        assert(all.take(all.len() as int) =~= all);
    }
    out
}

/// Two filters one after the other keep what passes both.
proof fn lemma_filter_twice(
    nodes: Seq<NodeView>,
    first: spec_fn(NodeView) -> bool,
    second: spec_fn(NodeView) -> bool,
    both: spec_fn(NodeView) -> bool,
)
    requires
        forall|n: NodeView| #[trigger] both(n) == (first(n) && second(n)),
    ensures
        nodes.filter(first).filter(second) == nodes.filter(both),
    decreases nodes.len(),
{
    reveal(Seq::filter);
    if nodes.len() > 0 {
        lemma_filter_twice(nodes.drop_last(), first, second, both);
        let before = nodes.drop_last().filter(first);
        let last = nodes.last();
        if first(last) {
            assert(before.push(last).drop_last() =~= before);
        }
    }
}

/// What a filter leaves, node by node.
fn select(filter: &NodeFilter, nodes: Vec<Node>) -> (r: Vec<Node>)
    ensures
        node_views(r@) == selected(filter@, node_views(nodes@)),
{
    let ghost all = node_views(nodes@);
    let ghost named = |n: NodeView| is_named(filter@, n);
    let ghost wanted = |n: NodeView| is_wanted(filter@, n);
    match &filter.property_filters {
        Some(filters) => {
            let ghost matching = |n: NodeView| matches_all(n, filter_views(filters@));
            let listed = keep_named(&nodes, filter);
            let kept = NodeService::apply_property_filters(&listed, filters);
            proof {
                lemma_filter_twice(all, named, matching, wanted);
            }
            take_page(&kept, filter.offset, filter.limit)
        },
        None => {
            if filter.ids.is_some() {
                let kept = keep_named(&nodes, filter);
                proof {
                    let any = |n: NodeView| true;
                    lemma_filter_twice(all, named, any, wanted);
                    lemma_filter_all(all.filter(named), any);
                }
                take_page(&kept, filter.offset, filter.limit)
            } else {
                nodes
            }
        },
    }
}

proof fn lemma_filter_all(nodes: Seq<NodeView>, any: spec_fn(NodeView) -> bool)
    requires
        forall|n: NodeView| #[trigger] any(n),
    ensures
        nodes.filter(any) == nodes,
    decreases nodes.len(),
{
    reveal(Seq::filter);
    if nodes.len() > 0 {
        lemma_filter_all(nodes.drop_last(), any);
        assert(nodes.drop_last().push(nodes.last()) =~= nodes);
    }
}

/// The types of some nodes, each once.
pub open spec fn node_types(nodes: Seq<NodeView>) -> Seq<Seq<char>> {
    distinct(nodes.map_values(|n: NodeView| n.node_type))
}

/// The schema of a type, where `schemas` holds the replies to the questions for `types`.
pub open spec fn schema_for(
    types: Seq<Seq<char>>,
    schemas: Seq<ReplyView>,
    node_type: Seq<char>,
) -> Option<Json> {
    let at = index_in(types, node_type);
    if at < types.len() && at < schemas.len() {
        match schemas[at] {
            ReplyView::Schema { schema, fields: _ } => schema,
            _ => None,
        }
    } else {
        None
    }
}

/// A query by filter.
pub open spec fn query_next(filter: NodeFilterView, log: Seq<ReplyView>) -> StepView {
    if log.len() == 0 {
        StepView::Ask(RequestView::QueryStore { query: store_query(filter) })
    } else {
        match log[0] {
            ReplyView::Failed { message } => StepView::Fail(ErrorView::QueryFailed(message)),
            ReplyView::Nodes { nodes } => query_schemas_next(filter, nodes, 0, log.skip(1)),
            _ => StepView::Mismatch,
        }
    }
}

/// The schema of each type is loaded once.
pub open spec fn query_schemas_next(
    filter: NodeFilterView,
    nodes: Seq<NodeView>,
    k: nat,
    log: Seq<ReplyView>,
) -> StepView
    decreases node_types(nodes).len() - k,
{
    let types = node_types(nodes);
    if k >= types.len() {
        query_refresh_next(
            filter,
            nodes,
            log.take(k as int),
            0,
            Seq::empty(),
            log.skip(k as int),
        )
    } else if log.len() <= k {
        StepView::Ask(RequestView::LoadSchema { node_type: types[k as int] })
    } else {
        match log[k as int] {
            ReplyView::Failed { message } => StepView::Fail(ErrorView::QueryFailed(message)),
            ReplyView::Schema { schema: _, fields: _ } => query_schemas_next(
                filter,
                nodes,
                k + 1,
                log,
            ),
            _ => StepView::Mismatch,
        }
    }
}

/// The nodes from position `i` on are brought up to date.
pub open spec fn query_refresh_next(
    filter: NodeFilterView,
    nodes: Seq<NodeView>,
    schemas: Seq<ReplyView>,
    i: nat,
    ready: Seq<NodeView>,
    log: Seq<ReplyView>,
) -> StepView
    decreases nodes.len() - i,
{
    if i >= nodes.len() {
        StepView::Finish(OutcomeView::Nodes { nodes: selected(filter, ready) })
    } else {
        match refreshed(
            nodes[i as int],
            schema_for(node_types(nodes), schemas, nodes[i as int].node_type),
            log,
        ) {
            Refreshed::Wait { step } => step,
            Refreshed::Ready { node, used } => query_refresh_next(
                filter,
                nodes,
                schemas,
                i + 1,
                ready.push(node),
                log.skip(used as int),
            ),
        }
    }
}

/// A query that names nothing to look for.
pub open spec fn empty_query(query: NodeQueryView) -> bool {
    &&& query.id is None
    &&& query.mentioned_by is None
    &&& query.content_contains is None
    &&& query.title_contains is None
    &&& query.node_type is None
}

/// A simple query: by identifier if it names one, else by the store. A query that names nothing
/// finds nothing.
pub open spec fn simple_query_next(query: NodeQueryView, log: Seq<ReplyView>) -> StepView {
    match query.id {
        Some(id) => if log.len() == 0 {
            StepView::Ask(RequestView::GetNode { id })
        } else {
            match log[0] {
                ReplyView::Refused { error } => StepView::Fail(error),
                ReplyView::Node { node: Some(node) } => StepView::Finish(
                    OutcomeView::Nodes { nodes: seq![node] },
                ),
                ReplyView::Node { node: None } => StepView::Finish(
                    OutcomeView::Nodes { nodes: Seq::empty() },
                ),
                _ => StepView::Mismatch,
            }
        },
        None => if empty_query(query) {
            StepView::Finish(OutcomeView::Nodes { nodes: Seq::empty() })
        } else if log.len() == 0 {
            StepView::Ask(
                RequestView::QueryStore {
                    query: NodeQueryView {
                        limit: if query.limit is None {
                            Some(DEFAULT_QUERY_LIMIT)
                        } else {
                            query.limit
                        },
                        ..query
                    },
                },
            )
        } else {
            match log[0] {
                ReplyView::Failed { message } => StepView::Fail(ErrorView::QueryFailed(message)),
                ReplyView::Nodes { nodes } => simple_refresh_next(
                    nodes,
                    0,
                    Seq::empty(),
                    log.skip(1),
                ),
                _ => StepView::Mismatch,
            }
        },
    }
}

/// The nodes from position `i` on are brought up to date, each with its schema.
pub open spec fn simple_refresh_next(
    nodes: Seq<NodeView>,
    i: nat,
    ready: Seq<NodeView>,
    log: Seq<ReplyView>,
) -> StepView
    decreases nodes.len() - i,
{
    if i >= nodes.len() {
        StepView::Finish(OutcomeView::Nodes { nodes: ready })
    } else if log.len() == 0 {
        StepView::Ask(RequestView::LoadSchema { node_type: nodes[i as int].node_type })
    } else {
        match log[0] {
            ReplyView::Failed { message } => StepView::Fail(ErrorView::QueryFailed(message)),
            ReplyView::Schema { schema, fields: _ } => match refreshed(
                nodes[i as int],
                schema,
                log.skip(1),
            ) {
                Refreshed::Wait { step } => step,
                Refreshed::Ready { node, used } => simple_refresh_next(
                    nodes,
                    i + 1,
                    ready.push(node),
                    log.skip(1 + used as int),
                ),
            },
            _ => StepView::Mismatch,
        }
    }
}

/// A query by type, and by the status in the life of a node if one is named.
pub open spec fn typed_query_next(
    node_type: Seq<char>,
    status: Option<Seq<char>>,
    log: Seq<ReplyView>,
) -> StepView {
    if log.len() == 0 {
        StepView::Ask(
            RequestView::QueryStore {
                query: NodeQueryView {
                    id: None,
                    node_type: Some(node_type),
                    content_contains: None,
                    title_contains: None,
                    mentioned_by: None,
                    limit: None,
                    offset: None,
                },
            },
        )
    } else {
        match log[0] {
            ReplyView::Failed { message } => StepView::Fail(ErrorView::QueryFailed(message)),
            ReplyView::Nodes { nodes } => StepView::Finish(
                OutcomeView::Nodes {
                    nodes: match status {
                        Some(s) => nodes.filter(|n: NodeView| n.lifecycle_status == s),
                        None => nodes,
                    },
                },
            ),
            _ => StepView::Mismatch,
        }
    }
}

fn collect_node_types(nodes: &Vec<Node>) -> (r: Vec<String>)
    ensures
        texts(r@) == node_types(node_views(nodes@)),
{
    let ghost all = node_views(nodes@).map_values(|n: NodeView| n.node_type);
    let mut out: Vec<String> = Vec::new();
    let mut i: usize = 0;
    proof {
        assert(texts(out@) =~= Seq::empty());
        assert(all.take(0) =~= Seq::empty());
    }
    while i < nodes.len()
        invariant
            i <= nodes@.len() == all.len(),
            texts(out@).no_duplicates(),
            texts(out@) == distinct(all.take(i as int)),
        decreases nodes@.len() - i,
    {
        proof {
            assert(all.take(i + 1).drop_last() =~= all.take(i as int));
            assert(all.take(i + 1).last() == nodes@[i as int].node_type@);
        }
        push_new(&mut out, nodes[i].node_type.as_str());
        i += 1;
    }
    proof {
        assert(all.take(all.len() as int) =~= all);
    }
    out
}

fn find_schema<'a>(types: &Vec<String>, log: &'a Vec<Reply>, first: usize, node_type: &str) -> (r:
    Option<&'a Value>)
    requires
        first + types@.len() <= log@.len(),
    ensures
        (match r {
            Some(v) => Some(v@),
            None => None,
        }) == schema_for(
            texts(types@),
            replies_from(log@, first as int).take(types@.len() as int),
            node_type@,
        ),
{
    let at = find_index(types, node_type);
    proof {
        assert(log.len() == log@.len());
    }
    if at < types.len() {
        match &log[first + at] {
            Reply::Schema { schema, fields: _ } => schema.as_ref(),
            _ => None,
        }
    } else {
        None
    }
}

impl NodeService {
    fn refresh(&self, node: &Node, schema: Option<&Value>, log: &Vec<Reply>, from: usize) -> (r:
        Result<(Node, usize), Step>)
        requires
            from <= log@.len(),
        ensures
            ({
                let want = refreshed(
                    node@,
                    match schema {
                        Some(s) => Some(s@),
                        None => None,
                    },
                    replies_from(log@, from as int),
                );
                match r {
                    Ok(done) => from <= done.1 <= log@.len() && want == (Refreshed::Ready {
                        node: done.0@,
                        used: (done.1 - from) as nat,
                    }),
                    Err(step) => want == (Refreshed::Wait { step: step@ }),
                }
            }),
    {
        let mut noted = node.clone();
        self.backfill_schema_version(&mut noted, schema);
        let target = match self.migration_target(&noted, schema) {
            None => {
                return Ok((noted, from));
            },
            Some(target) => target,
        };
        if from >= log.len() {
            return Err(Step::Ask(Request::Migrate { node: noted, target }));
        }
        let migrated = match &log[from] {
            Reply::Refused { error } => {
                return Err(Step::Fail(error.clone()));
            },
            Reply::Node { node: Some(migrated) } => migrated,
            _ => {
                return Err(Step::Mismatch);
            },
        };
        if from + 1 >= log.len() {
            let update = NodeUpdate {
                node_type: None,
                content: None,
                properties: Some(migrated.properties.clone()),
                title: None,
                lifecycle_status: None,
            };
            return Err(Step::Ask(Request::StoreUpdate { id: noted.id, update }));
        }
        match &log[from + 1] {
            Reply::Failed { message } => {
                let mut text = "Failed to persist migrated node: ".to_string();
                text.append(message.as_str());
                Err(Step::Fail(NodeServiceError::QueryFailed(text)))
            },
            Reply::Done => Ok((migrated.clone(), from + 2)),
            _ => Err(Step::Mismatch),
        }
    }

    /// The nodes that match a filter, as readers see them.
    pub fn query_nodes(&self, filter: &NodeFilter, log: &Vec<Reply>) -> (r: Step)
        ensures
            r@ == query_next(filter@, replies(log@)),
    {
        if log.len() == 0 {
            let filtered = filter.property_filters.is_some();
            let named = filter.ids.is_some();
            let query = NodeQuery {
                id: None,
                node_type: clone_optional(&filter.node_type),
                content_contains: clone_optional(&filter.content_contains),
                title_contains: clone_optional(&filter.title_contains),
                mentioned_by: None,
                limit: if filtered {
                    Some(PROPERTY_FILTER_FETCH_CAP)
                } else if named {
                    None
                } else {
                    filter.limit
                },
                offset: if filtered || named {
                    None
                } else {
                    filter.offset
                },
            };
            return Step::Ask(Request::QueryStore { query });
        }
        match &log[0] {
            Reply::Failed { message } => Step::Fail(NodeServiceError::QueryFailed(message.clone())),
            Reply::Nodes { nodes } => self.query_schemas(filter, nodes, log),
            _ => Step::Mismatch,
        }
    }

    fn query_schemas(&self, filter: &NodeFilter, nodes: &Vec<Node>, log: &Vec<Reply>) -> (r: Step)
        requires
            log@.len() > 0,
        ensures
            r@ == query_schemas_next(filter@, node_views(nodes@), 0, replies_from(log@, 1)),
    {
        let ghost all = node_views(nodes@);
        let ghost answers = replies_from(log@, 1);
        let types = collect_node_types(nodes);
        let mut k: usize = 0;
        while k < types.len()
            invariant
                k <= types@.len() == node_types(all).len(),
                k + 1 <= log@.len(),
                query_schemas_next(filter@, all, 0, answers) == query_schemas_next(
                    filter@,
                    all,
                    k as nat,
                    answers,
                ),
            decreases types@.len() - k,
        {
            if k + 1 >= log.len() {
                return Step::Ask(Request::LoadSchema { node_type: types[k].clone() });
            }
            match &log[k + 1] {
                Reply::Failed { message } => {
                    return Step::Fail(NodeServiceError::QueryFailed(message.clone()));
                },
                Reply::Schema { schema: _, fields: _ } => {},
                _ => {
                    return Step::Mismatch;
                },
            }
            k += 1;
        }
        proof {
            assert(replies_from(log@, k + 1) =~= answers.skip(k as int));
        }
        self.query_refresh(filter, nodes, &types, log)
    }

    fn query_refresh(
        &self,
        filter: &NodeFilter,
        nodes: &Vec<Node>,
        types: &Vec<String>,
        log: &Vec<Reply>,
    ) -> (r: Step)
        requires
            1 + types@.len() <= log@.len(),
            texts(types@) == node_types(node_views(nodes@)),
        ensures
            r@ == query_refresh_next(
                filter@,
                node_views(nodes@),
                replies_from(log@, 1).take(types@.len() as int),
                0,
                Seq::empty(),
                replies_from(log@, 1 + types@.len() as int),
            ),
    {
        let ghost all = node_views(nodes@);
        let ghost schemas = replies_from(log@, 1).take(types@.len() as int);
        let ghost want = query_refresh_next(
            filter@,
            all,
            schemas,
            0,
            Seq::empty(),
            replies_from(log@, 1 + types@.len() as int),
        );
        proof {
            assert(log.len() == log@.len());
        }
        let mut ready: Vec<Node> = Vec::new();
        let mut at: usize = 1 + types.len();
        let mut i: usize = 0;
        proof {
            assert(node_views(ready@) =~= Seq::empty());
        }
        while i < nodes.len()
            invariant
                i <= nodes@.len() == all.len(),
                at <= log@.len(),
                want == query_refresh_next(
                    filter@,
                    all,
                    schemas,
                    i as nat,
                    node_views(ready@),
                    replies_from(log@, at as int),
                ),
            decreases nodes@.len() - i,
        {
            let schema = find_schema(types, log, 1, nodes[i].node_type.as_str());
            match self.refresh(&nodes[i], schema, log, at) {
                Err(step) => {
                    return step;
                },
                Ok((node, next)) => {
                    let ghost before = node_views(ready@);
                    let ghost value = node@;
                    ready.push(node);
                    proof {
                        assert(node_views(ready@) =~= before.push(value));
                        assert(replies_from(log@, at as int).skip(next - at) =~= replies_from(
                            log@,
                            next as int,
                        ));
                    }
                    at = next;
                },
            }
            i += 1;
        }
        Step::Finish(Outcome::Nodes { nodes: select(filter, ready) })
    }

    /// The nodes that a simple query asks for, as readers see them.
    pub fn query_nodes_simple(&self, query: &NodeQuery, log: &Vec<Reply>) -> (r: Step)
        ensures
            r@ == simple_query_next(query@, replies(log@)),
    {
        if let Some(id) = &query.id {
            if log.len() == 0 {
                return Step::Ask(Request::GetNode { id: id.clone() });
            }
            return match &log[0] {
                Reply::Refused { error } => Step::Fail(error.clone()),
                Reply::Node { node } => {
                    let mut nodes: Vec<Node> = Vec::new();
                    let ghost none = node_views(nodes@);
                    if let Some(n) = node {
                        nodes.push(n.clone());
                        proof {
                            assert(node_views(nodes@) =~= seq![n@]);
                        }
                    } else {
                        proof {
                            assert(none =~= Seq::empty());
                        }
                    }
                    Step::Finish(Outcome::Nodes { nodes })
                },
                _ => Step::Mismatch,
            };
        }
        if query.mentioned_by.is_none() && query.content_contains.is_none()
            && query.title_contains.is_none() && query.node_type.is_none() {
            let nodes: Vec<Node> = Vec::new();
            proof {
                assert(node_views(nodes@) =~= Seq::empty());
            }
            return Step::Finish(Outcome::Nodes { nodes });
        }
        if log.len() == 0 {
            let limit = match query.limit {
                None => Some(DEFAULT_QUERY_LIMIT),
                Some(n) => Some(n),
            };
            return Step::Ask(Request::QueryStore { query: query.with_limit_of(limit) });
        }
        match &log[0] {
            Reply::Failed { message } => Step::Fail(NodeServiceError::QueryFailed(message.clone())),
            Reply::Nodes { nodes } => self.simple_refresh(nodes, log),
            _ => Step::Mismatch,
        }
    }

    fn simple_refresh(&self, nodes: &Vec<Node>, log: &Vec<Reply>) -> (r: Step)
        requires
            log@.len() > 0,
        ensures
            r@ == simple_refresh_next(node_views(nodes@), 0, Seq::empty(), replies_from(log@, 1)),
    {
        let ghost all = node_views(nodes@);
        let ghost want = simple_refresh_next(all, 0, Seq::empty(), replies_from(log@, 1));
        let mut ready: Vec<Node> = Vec::new();
        let mut at: usize = 1;
        let mut i: usize = 0;
        proof {
            assert(node_views(ready@) =~= Seq::empty());
        }
        while i < nodes.len()
            invariant
                i <= nodes@.len() == all.len(),
                at <= log@.len(),
                want == simple_refresh_next(
                    all,
                    i as nat,
                    node_views(ready@),
                    replies_from(log@, at as int),
                ),
            decreases nodes@.len() - i,
        {
            if at >= log.len() {
                return Step::Ask(Request::LoadSchema { node_type: nodes[i].node_type.clone() });
            }
            let schema = match &log[at] {
                Reply::Failed { message } => {
                    return Step::Fail(NodeServiceError::QueryFailed(message.clone()));
                },
                Reply::Schema { schema, fields: _ } => schema.as_ref(),
                _ => {
                    return Step::Mismatch;
                },
            };
            match self.refresh(&nodes[i], schema, log, at + 1) {
                Err(step) => {
                    return step;
                },
                Ok((node, next)) => {
                    let ghost before = node_views(ready@);
                    let ghost value = node@;
                    ready.push(node);
                    proof {
                        assert(node_views(ready@) =~= before.push(value));
                        assert(replies_from(log@, at as int).skip(next - at) =~= replies_from(
                            log@,
                            next as int,
                        ));
                    }
                    at = next;
                },
            }
            i += 1;
        }
        Step::Finish(Outcome::Nodes { nodes: ready })
    }

    /// The nodes of a type, of one status in the life of a node if `lifecycle_status` names one.
    pub fn query_nodes_by_type(
        &self,
        node_type: &str,
        lifecycle_status: Option<&str>,
        log: &Vec<Reply>,
    ) -> (r: Step)
        ensures
            r@ == typed_query_next(node_type@, optional_str(lifecycle_status), replies(log@)),
    {
        if log.len() == 0 {
            let query = NodeQuery {
                id: None,
                node_type: Some(node_type.to_string()),
                content_contains: None,
                title_contains: None,
                mentioned_by: None,
                limit: None,
                offset: None,
            };
            return Step::Ask(Request::QueryStore { query });
        }
        match &log[0] {
            Reply::Failed { message } => Step::Fail(NodeServiceError::QueryFailed(message.clone())),
            Reply::Nodes { nodes } => {
                let kept = match lifecycle_status {
                    Some(status) => keep_status(nodes, status),
                    None => clone_nodes(nodes),
                };
                Step::Finish(Outcome::Nodes { nodes: kept })
            },
            _ => Step::Mismatch,
        }
    }
}

fn keep_status(nodes: &Vec<Node>, status: &str) -> (r: Vec<Node>)
    ensures
        node_views(r@) == node_views(nodes@).filter(|n: NodeView| n.lifecycle_status == status@),
{
    let ghost all = node_views(nodes@);
    let ghost keep = |n: NodeView| n.lifecycle_status == status@;
    let mut out: Vec<Node> = Vec::new();
    let mut i: usize = 0;
    proof {
        reveal(Seq::filter);
        assert(node_views(out@) =~= all.take(0).filter(keep));
    }
    while i < nodes.len()
        invariant
            i <= nodes@.len() == all.len(),
            node_views(out@) == all.take(i as int).filter(keep),
        decreases nodes@.len() - i,
    {
        proof {
            reveal(Seq::filter);
            assert(all.take(i + 1).drop_last() =~= all.take(i as int));
            assert(all.take(i + 1).last() == nodes@[i as int]@);
        }
        if same_text(nodes[i].lifecycle_status.as_str(), status) {
            let ghost before = node_views(out@);
            let copy = (&nodes[i]).clone();
            out.push(copy);
            proof {
                assert(node_views(out@) =~= before.push(nodes@[i as int]@));
            }
        }
        i += 1;
    }
    proof {
        assert(all.take(all.len() as int) =~= all);
    }
    out
}

/// Comparing in the other direction turns the result round.
pub proof fn law_comparison_is_antisymmetric(a: Json, b: Json)
    ensures
        compared(b, a) == (match compared(a, b) {
            Some(Comparison::Less) => Some(Comparison::Greater),
            Some(Comparison::Greater) => Some(Comparison::Less),
            other => other,
        }),
{
    match (a, b) {
        (Json::Text(x), Json::Text(y)) => {
            lemma_text_le_total(x, y);
        },
        _ => {},
    }
}

/// A node without the property matches no filter on it; with the property it matches exactly one
/// of the filters `Equals` and `NotEquals`.
pub proof fn law_missing_properties_match_nothing(node: NodeView, path: Seq<char>, value: Json)
    ensures
        property_at(node, path) is None ==> forall|operator: FilterOperator|
            !#[trigger] matches_filter(node, (PropertyFilterView { path, operator, value })),
        property_at(node, path) is Some ==> (matches_filter(
            node,
            (PropertyFilterView { path, operator: FilterOperator::Equals, value }),
        ) <==> !matches_filter(
            node,
            (PropertyFilterView { path, operator: FilterOperator::NotEquals, value }),
        )),
{
}

/// What a filter leaves matches it, was among the nodes, and is not more than the limit. With a list
/// of identifiers every node has one of them and the type that was looked for.
pub proof fn law_selected_nodes_match(filter: NodeFilterView, nodes: Seq<NodeView>, i: int)
    requires
        filter.property_filters is Some || filter.ids is Some,
        0 <= i < selected(filter, nodes).len(),
    ensures
        is_wanted(filter, selected(filter, nodes)[i]),
        nodes.contains(selected(filter, nodes)[i]),
        filter.limit matches Some(limit) ==> selected(filter, nodes).len() <= limit,
{
    let keep = |n: NodeView| is_wanted(filter, n);
    let kept = nodes.filter(keep);
    let node = selected(filter, nodes)[i];
    let start: int = match filter.offset {
        Some(n) => n as int,
        None => 0,
    };
    assert(node == kept[start + i]);
    nodes.lemma_filter_pred(keep, start + i);
    nodes.lemma_filter_contains_rev(keep, node);
}

/// A query with a list of identifiers gives only nodes of the type with one of them.
pub proof fn law_named_nodes_are_found(
    filter: NodeFilterView,
    ids: Seq<Seq<char>>,
    log: Seq<ReplyView>,
    found: Seq<NodeView>,
    i: int,
)
    requires
        filter.ids == Some(ids),
        query_next(filter, log) == StepView::Finish(OutcomeView::Nodes { nodes: found }),
        0 <= i < found.len(),
    ensures
        ids.contains(found[i].id),
        filter.node_type matches Some(t) ==> found[i].node_type == t,
{
    let nodes = log[0]->Nodes_nodes;
    lemma_schemas_finish(filter, nodes, 0, log.skip(1), found, i);
}

proof fn lemma_schemas_finish(
    filter: NodeFilterView,
    nodes: Seq<NodeView>,
    k: nat,
    log: Seq<ReplyView>,
    found: Seq<NodeView>,
    i: int,
)
    requires
        filter.ids is Some,
        query_schemas_next(filter, nodes, k, log) == StepView::Finish(
            OutcomeView::Nodes { nodes: found },
        ),
        0 <= i < found.len(),
    ensures
        is_named(filter, found[i]),
    decreases node_types(nodes).len() - k,
{
    if k >= node_types(nodes).len() {
        lemma_refresh_finish(
            filter,
            nodes,
            log.take(k as int),
            0,
            Seq::empty(),
            log.skip(k as int),
            found,
            i,
        );
    } else {
        lemma_schemas_finish(filter, nodes, k + 1, log, found, i);
    }
}

proof fn lemma_refresh_finish(
    filter: NodeFilterView,
    nodes: Seq<NodeView>,
    schemas: Seq<ReplyView>,
    k: nat,
    ready: Seq<NodeView>,
    log: Seq<ReplyView>,
    found: Seq<NodeView>,
    i: int,
)
    requires
        filter.ids is Some,
        query_refresh_next(filter, nodes, schemas, k, ready, log) == StepView::Finish(
            OutcomeView::Nodes { nodes: found },
        ),
        0 <= i < found.len(),
    ensures
        is_named(filter, found[i]),
    decreases nodes.len() - k,
{
    if k >= nodes.len() {
        law_selected_nodes_match(filter, ready, i);
    } else {
        let schema = schema_for(node_types(nodes), schemas, nodes[k as int].node_type);
        match refreshed(nodes[k as int], schema, log) {
            Refreshed::Ready { node, used } => {
                lemma_refresh_finish(
                    filter,
                    nodes,
                    schemas,
                    k + 1,
                    ready.push(node),
                    log.skip(used as int),
                    found,
                    i,
                );
            },
            Refreshed::Wait { step } => {},
        }
    }
}

/// Without a limit of its own a simple query asks the store for at most the default number.
pub proof fn law_simple_queries_are_bounded(query: NodeQueryView)
    requires
        query.id is None,
        !empty_query(query),
        query.limit is None,
    ensures
        simple_query_next(query, Seq::empty()) matches StepView::Ask(
            RequestView::QueryStore { query: asked },
        ) && asked.limit == Some(DEFAULT_QUERY_LIMIT),
{
}

} // verus!
