//! Search by meaning and by keyword.

use crate::embedding::NodeEmbeddingService;
use crate::error::{ErrorView, NodeServiceError};
use crate::hits::{
    best_first, hit_views, is_best_first, is_listed, law_best_first, lists, rank_all, rank_tiers,
    tiers, SearchHit, SearchHitView,
};
use crate::json::Number;
use crate::mentions::{distinct, lemma_distinct, push_new};
use crate::node::{node_views, texts, Node, NodeView};
use crate::protocol::{
    group_replies, replies, replies_from, Outcome, OutcomeView, Reply, ReplyView, Request,
    RequestView, Step, StepView,
};
use crate::terms::{
    collect_terms, is_sorted, law_sorted_texts, matches_title, query_terms, sort_texts,
    sorted_texts, title_matches,
};
use crate::text::{blank, is_blank, same_text, text_le};
use vstd::prelude::*;
use vstd::string::*;

verus! {

broadcast use group_replies;

/// The types of nodes that a search is about.
#[derive(Debug)]
pub enum SearchScope {
    /// What was written down: texts, headers, code, schemas and tables.
    Knowledge,
    /// Chats.
    Conversations,
    /// Nodes of every type.
    Everything,
    /// The types that are included, or all if none is, without those that are excluded.
    Custom { include_types: Vec<String>, exclude_types: Vec<String> },
}

impl Default for SearchScope {
    /// Where a caller names no scope, a search is about what was written down.
    fn default() -> (r: SearchScope)
        ensures
            r@ == SearchScopeView::Knowledge,
    {
        SearchScope::Knowledge
    }
}

/// The mathematical value of a [`SearchScope`].
#[verifier::ext_equal]
pub enum SearchScopeView {
    Knowledge,
    Conversations,
    Everything,
    Custom { include_types: Seq<Seq<char>>, exclude_types: Seq<Seq<char>> },
}

impl View for SearchScope {
    type V = SearchScopeView;

    open spec fn view(&self) -> SearchScopeView {
        match *self {
            SearchScope::Knowledge => SearchScopeView::Knowledge,
            SearchScope::Conversations => SearchScopeView::Conversations,
            SearchScope::Everything => SearchScopeView::Everything,
            SearchScope::Custom { include_types, exclude_types } => SearchScopeView::Custom {
                include_types: texts(include_types@),
                exclude_types: texts(exclude_types@),
            },
        }
    }
}

/// A type belongs to a scope.
pub open spec fn in_scope(node_type: Seq<char>, scope: SearchScopeView) -> bool {
    match scope {
        SearchScopeView::Knowledge => node_type == "text"@ || node_type == "header"@ || node_type
            == "code-block"@ || node_type == "schema"@ || node_type == "table"@,
        SearchScopeView::Conversations => node_type == "ai-chat"@,
        SearchScopeView::Everything => true,
        SearchScopeView::Custom { include_types, exclude_types } => (include_types.len() == 0
            || include_types.contains(node_type)) && !exclude_types.contains(node_type),
    }
}

/// The hit has a node with a title in which a term of the query occurs.
pub open spec fn is_boosted(hit: SearchHitView, terms: Seq<Seq<char>>) -> bool {
    hit.node matches Some(node) && (node.title matches Some(title) && title_matches(title, terms))
}

/// The scores of the hits that get a bonus.
pub open spec fn boosted_scores(hits: Seq<SearchHitView>, terms: Seq<Seq<char>>) -> Seq<Number> {
    hits.filter(|h: SearchHitView| is_boosted(h, terms)).map_values(|h: SearchHitView| h.score)
}

/// Hits with new scores for those that get a bonus, in their order.
pub open spec fn with_scores(
    hits: Seq<SearchHitView>,
    terms: Seq<Seq<char>>,
    scores: Seq<Number>,
) -> Seq<SearchHitView>
    decreases hits.len(),
{
    if hits.len() == 0 {
        Seq::empty()
    } else if is_boosted(hits.last(), terms) && scores.len() > 0 {
        with_scores(hits.drop_last(), terms, scores.drop_last()).push(
            SearchHitView { score: scores.last(), ..hits.last() },
        )
    } else {
        with_scores(hits.drop_last(), terms, scores).push(hits.last())
    }
}

/// The roots that the keywords alone found, in order: as many as there is room for.
pub open spec fn keyword_only(
    hits: Seq<SearchHitView>,
    keyword_roots: Seq<Seq<char>>,
    limit: int,
) -> Seq<Seq<char>> {
    let found = hits.map_values(|h: SearchHitView| h.node_id);
    let rest = sorted_texts(
        distinct(keyword_roots).filter(|id: Seq<char>| !found.contains(id)),
    );
    if hits.len() >= limit {
        Seq::empty()
    } else if rest.len() > limit - hits.len() {
        rest.take(limit - hits.len())
    } else {
        rest
    }
}

/// A root that the keywords alone found has no score.
pub open spec fn keyword_hit(id: Seq<char>, node: NodeView) -> SearchHitView {
    SearchHitView {
        node_id: id,
        score: Number::Float(0),
        max_similarity: Number::Float(0),
        matching_chunks: 0,
        node: Some(node),
    }
}

/// A search by meaning and by keyword.
pub open spec fn search_next(
    query: Seq<char>,
    limit: usize,
    threshold: u64,
    log: Seq<ReplyView>,
) -> StepView {
    if blank(query) {
        StepView::Fail(ErrorView::InvalidUpdate("Search query cannot be empty"@))
    } else if log.len() == 0 {
        StepView::Ask(RequestView::EmbedQuery { text: query })
    } else {
        match log[0] {
            ReplyView::Failed { message } => StepView::Fail(
                ErrorView::SerializationError("Failed to generate query embedding: "@ + message),
            ),
            ReplyView::Done => search_both_next(query, limit, threshold, log.skip(1)),
            _ => StepView::Mismatch,
        }
    }
}

/// The keywords may find twice as many roots, since some will fall together.
pub open spec fn search_both_next(
    query: Seq<char>,
    limit: usize,
    threshold: u64,
    log: Seq<ReplyView>,
) -> StepView {
    if log.len() == 0 {
        StepView::Ask(
            RequestView::HybridSearch {
                query,
                limit: limit as i64,
                threshold,
                keyword_limit: (limit * 2) as i64,
            },
        )
    } else {
        match log[0] {
            ReplyView::VectorSearchFailed { message } => StepView::Fail(
                ErrorView::QueryFailed("KNN search failed: "@ + message),
            ),
            ReplyView::KeywordSearchFailed { message } => StepView::Fail(
                ErrorView::QueryFailed("BM25 search failed: "@ + message),
            ),
            ReplyView::Found { hits, keyword_roots } => search_boost_next(
                query_terms(query),
                limit,
                hits,
                keyword_roots,
                log.skip(1),
            ),
            _ => StepView::Mismatch,
        }
    }
}

/// Hits whose titles match get a bonus.
pub open spec fn search_boost_next(
    terms: Seq<Seq<char>>,
    limit: usize,
    hits: Seq<SearchHitView>,
    keyword_roots: Seq<Seq<char>>,
    log: Seq<ReplyView>,
) -> StepView {
    let scores = boosted_scores(hits, terms);
    if scores.len() == 0 {
        search_rank_next(limit, hits, keyword_roots, log)
    } else if log.len() == 0 {
        StepView::Ask(RequestView::Boost { scores })
    } else {
        match log[0] {
            ReplyView::Scores { scores: raised } => if raised.len() == scores.len() {
                search_rank_next(
                    limit,
                    with_scores(hits, terms, raised),
                    keyword_roots,
                    log.skip(1),
                )
            } else {
                StepView::Mismatch
            },
            _ => StepView::Mismatch,
        }
    }
}

/// Ranked hits come first, then roots that the keywords alone found.
pub open spec fn search_rank_next(
    limit: usize,
    hits: Seq<SearchHitView>,
    keyword_roots: Seq<Seq<char>>,
    log: Seq<ReplyView>,
) -> StepView {
    search_fill_next(
        tiers(hits, keyword_roots),
        keyword_only(hits, keyword_roots, limit as int),
        0,
        log,
    )
}

/// The nodes of the roots from position `i` on are loaded. One that cannot be loaded is left out.
pub open spec fn search_fill_next(
    results: Seq<SearchHitView>,
    ids: Seq<Seq<char>>,
    i: nat,
    log: Seq<ReplyView>,
) -> StepView
    decreases ids.len() - i,
{
    if i >= ids.len() {
        StepView::Finish(OutcomeView::Hits { hits: results })
    } else if log.len() == 0 {
        StepView::Ask(RequestView::LoadNode { id: ids[i as int] })
    } else {
        match log[0] {
            ReplyView::Node { node: Some(node) } => search_fill_next(
                results.push(keyword_hit(ids[i as int], node)),
                ids,
                i + 1,
                log.skip(1),
            ),
            ReplyView::Node { node: None } => search_fill_next(results, ids, i + 1, log.skip(1)),
            ReplyView::Failed { message: _ } => search_fill_next(results, ids, i + 1, log.skip(1)),
            _ => StepView::Mismatch,
        }
    }
}

/// A hit without a node stays, since nothing is known of its type.
pub open spec fn hit_in_scope(hit: SearchHitView, scope: SearchScopeView) -> bool {
    match hit.node {
        Some(node) => in_scope(node.node_type, scope),
        None => true,
    }
}

/// The beginning of a list.
pub open spec fn at_most<T>(items: Seq<T>, limit: int) -> Seq<T> {
    if items.len() > limit {
        items.take(limit)
    } else {
        items
    }
}

/// A search within a scope. Twice as many hits are looked for, since some will be dropped.
pub open spec fn scoped_next(
    query: Seq<char>,
    limit: usize,
    threshold: u64,
    scope: SearchScopeView,
    log: Seq<ReplyView>,
) -> StepView {
    if log.len() == 0 {
        StepView::Ask(
            RequestView::SemanticSearch { query, limit: (limit * 2) as usize, threshold },
        )
    } else {
        match log[0] {
            ReplyView::Refused { error } => StepView::Fail(error),
            ReplyView::Hits { hits } => StepView::Finish(
                OutcomeView::Hits {
                    hits: at_most(
                        hits.filter(|h: SearchHitView| hit_in_scope(h, scope)),
                        limit as int,
                    ),
                },
            ),
            _ => StepView::Mismatch,
        }
    }
}

/// The hits that have a node.
pub open spec fn with_node(hits: Seq<SearchHitView>) -> Seq<SearchHitView> {
    hits.filter(|h: SearchHitView| h.node is Some)
}

pub open spec fn nodes_of(hits: Seq<SearchHitView>) -> Seq<NodeView> {
    hits.map_values(|h: SearchHitView| h.node->Some_0)
}

/// The hits that were accepted, position by position.
pub open spec fn accepted(hits: Seq<SearchHitView>, flags: Seq<bool>) -> Seq<SearchHitView>
    decreases hits.len(),
{
    if hits.len() == 0 || flags.len() < hits.len() {
        Seq::empty()
    } else {
        let before = accepted(hits.drop_last(), flags.take(hits.len() - 1));
        if flags[hits.len() - 1] {
            before.push(hits.last())
        } else {
            before
        }
    }
}

/// A search for nodes. With filters that are not empty three times as many hits are looked for.
pub open spec fn search_nodes_next(
    query: Seq<char>,
    limit: usize,
    threshold: u64,
    filters_empty: Option<bool>,
    log: Seq<ReplyView>,
) -> StepView {
    if log.len() == 0 {
        StepView::Ask(
            RequestView::SemanticSearch {
                query,
                limit: if filters_empty == Some(false) {
                    (limit * 3) as usize
                } else {
                    limit
                },
                threshold,
            },
        )
    } else {
        match log[0] {
            ReplyView::Refused { error } => StepView::Fail(error),
            ReplyView::Hits { hits } => if filters_empty is None {
                StepView::Finish(
                    OutcomeView::Hits { hits: at_most(with_node(hits), limit as int) },
                )
            } else {
                search_filter_next(limit, with_node(hits), log.skip(1))
            },
            _ => StepView::Mismatch,
        }
    }
}

pub open spec fn search_filter_next(
    limit: usize,
    hits: Seq<SearchHitView>,
    log: Seq<ReplyView>,
) -> StepView {
    if log.len() == 0 {
        StepView::Ask(RequestView::MatchFilters { nodes: nodes_of(hits) })
    } else {
        match log[0] {
            ReplyView::Flags { values } => if values.len() == hits.len() {
                StepView::Finish(
                    OutcomeView::Hits { hits: at_most(accepted(hits, values), limit as int) },
                )
            } else {
                StepView::Mismatch
            },
            _ => StepView::Mismatch,
        }
    }
}

/// A search among the nodes of a type. The best hits come first.
pub open spec fn typed_search_next(
    query: Seq<char>,
    node_type: Seq<char>,
    limit: usize,
    threshold: u64,
    log: Seq<ReplyView>,
) -> StepView {
    if blank(query) {
        StepView::Fail(ErrorView::InvalidUpdate("Search query cannot be empty"@))
    } else if log.len() == 0 {
        StepView::Ask(RequestView::EmbedQuery { text: query })
    } else {
        match log[0] {
            ReplyView::Failed { message } => StepView::Fail(
                ErrorView::SerializationError("Failed to generate query embedding: "@ + message),
            ),
            ReplyView::Done => typed_hits_next(node_type, limit, threshold, log.skip(1)),
            _ => StepView::Mismatch,
        }
    }
}

pub open spec fn typed_hits_next(
    node_type: Seq<char>,
    limit: usize,
    threshold: u64,
    log: Seq<ReplyView>,
) -> StepView {
    if log.len() == 0 {
        StepView::Ask(RequestView::SearchByType { node_type, limit: limit as i64, threshold })
    } else {
        match log[0] {
            ReplyView::Failed { message } => StepView::Fail(
                ErrorView::QueryFailed("Typed embedding search failed: "@ + message),
            ),
            ReplyView::Hits { hits } => StepView::Finish(
                OutcomeView::Hits { hits: best_first(with_node(hits)) },
            ),
            _ => StepView::Mismatch,
        }
    }
}

fn gets_bonus(hit: &SearchHit, terms: &Vec<String>) -> (r: bool)
    ensures
        r == is_boosted(hit@, texts(terms@)),
{
    match &hit.node {
        Some(node) => match &node.title {
            Some(title) => matches_title(title.as_str(), terms),
            None => false,
        },
        None => false,
    }
}

fn collect_boosted(hits: &Vec<SearchHit>, terms: &Vec<String>) -> (r: Vec<Number>)
    ensures
        r@ == boosted_scores(hit_views(hits@), texts(terms@)),
{
    let ghost all = hit_views(hits@);
    let ghost names = texts(terms@);
    let mut out: Vec<Number> = Vec::new();
    let mut i: usize = 0;
    proof {
        reveal(Seq::filter);
        assert(boosted_scores(all.take(0), names) =~= Seq::empty());
    }
    while i < hits.len()
        invariant
            i <= hits@.len() == all.len(),
            out@ == boosted_scores(all.take(i as int), names),
        decreases hits@.len() - i,
    {
        proof {
            lemma_boosted_step(all, names, i as int);
        }
        if gets_bonus(&hits[i], terms) {
            out.push(hits[i].score);
        }
        i += 1;
    }
    proof {
        assert(all.take(all.len() as int) =~= all);
    }
    out
}

proof fn lemma_boosted_step(hits: Seq<SearchHitView>, terms: Seq<Seq<char>>, i: int)
    requires
        0 <= i < hits.len(),
    ensures
        boosted_scores(hits.take(i + 1), terms) == (if is_boosted(hits[i], terms) {
            boosted_scores(hits.take(i), terms).push(hits[i].score)
        } else {
            boosted_scores(hits.take(i), terms)
        }),
{
    reveal(Seq::filter);
    let keep = |h: SearchHitView| is_boosted(h, terms);
    assert(hits.take(i + 1).drop_last() =~= hits.take(i));
    assert(hits.take(i + 1).last() == hits[i]);
    if is_boosted(hits[i], terms) {
        assert(hits.take(i + 1).filter(keep) == hits.take(i).filter(keep).push(hits[i]));
        assert(boosted_scores(hits.take(i + 1), terms) =~= boosted_scores(hits.take(i), terms).push(
            hits[i].score,
        ));
    }
}

fn raise_scores(hits: &Vec<SearchHit>, terms: &Vec<String>, scores: &Vec<Number>) -> (r: Vec<
    SearchHit,
>)
    requires
        scores@.len() == boosted_scores(hit_views(hits@), texts(terms@)).len(),
    ensures
        hit_views(r@) == with_scores(hit_views(hits@), texts(terms@), scores@),
{
    let ghost all = hit_views(hits@);
    let ghost names = texts(terms@);
    let mut out: Vec<SearchHit> = Vec::new();
    let mut used: usize = 0;
    let mut i: usize = 0;
    proof {
        reveal(Seq::filter);
        assert(boosted_scores(all.take(0), names) =~= Seq::empty());
        assert(all.take(0) =~= Seq::empty());
        assert(hit_views(out@) =~= Seq::empty());
    }
    while i < hits.len()
        invariant
            i <= hits@.len() == all.len(),
            used == boosted_scores(all.take(i as int), names).len(),
            used <= scores@.len(),
            scores@.len() == boosted_scores(all, names).len(),
            hit_views(out@) == with_scores(
                all.take(i as int),
                names,
                scores@.take(used as int),
            ),
        decreases hits@.len() - i,
    {
        proof {
            lemma_boosted_step(all, names, i as int);
            lemma_boosted_grows(all, names, i + 1);
            assert(all.take(i + 1).drop_last() =~= all.take(i as int));
            assert(all.take(i + 1).last() == all[i as int]);
        }
        let mut hit = (&hits[i]).clone();
        let ghost before = hit_views(out@);
        if gets_bonus(&hits[i], terms) {
            hit.score = scores[used];
            proof {
                assert(scores@.take(used + 1).drop_last() =~= scores@.take(used as int));
            }
            used += 1;
        }
        let ghost value = hit@;
        out.push(hit);
        proof {
            assert(hit_views(out@) =~= before.push(value));
        }
        i += 1;
    }
    proof {
        assert(all.take(all.len() as int) =~= all);
        assert(scores@.take(scores@.len() as int) =~= scores@);
    }
    out
}

proof fn lemma_boosted_grows(hits: Seq<SearchHitView>, terms: Seq<Seq<char>>, n: int)
    requires
        0 <= n <= hits.len(),
    ensures
        boosted_scores(hits.take(n), terms).len() <= boosted_scores(hits, terms).len(),
    decreases hits.len() - n,
{
    if n < hits.len() {
        lemma_boosted_step(hits, terms, n);
        lemma_boosted_grows(hits, terms, n + 1);
    } else {
        assert(hits.take(n) =~= hits);
    }
}

fn has_hit(hits: &Vec<SearchHit>, id: &str) -> (r: bool)
    ensures
        r == hit_views(hits@).map_values(|h: SearchHitView| h.node_id).contains(id@),
{
    let ghost all = hit_views(hits@).map_values(|h: SearchHitView| h.node_id);
    let mut i: usize = 0;
    while i < hits.len()
        invariant
            i <= hits@.len() == all.len(),
            forall|j: int| 0 <= j < i ==> #[trigger] all[j] != id@,
        decreases hits@.len() - i,
    {
        proof {
            assert(all[i as int] == hits@[i as int].node_id@);
        }
        if same_text(hits[i].node_id.as_str(), id) {
            return true;
        }
        i += 1;
    }
    false
}

fn collect_keyword_only(hits: &Vec<SearchHit>, keyword_roots: &Vec<String>, limit: usize) -> (r: Vec<
    String,
>)
    ensures
        texts(r@) == keyword_only(hit_views(hits@), texts(keyword_roots@), limit as int),
{
    if hits.len() >= limit {
        let none: Vec<String> = Vec::new();
        proof {
            assert(texts(none@) =~= Seq::empty());
        }
        return none;
    }
    let ghost found = hit_views(hits@).map_values(|h: SearchHitView| h.node_id);
    let ghost keep = |id: Seq<char>| !found.contains(id);
    let unique = collect_distinct(keyword_roots);
    let ghost all = texts(unique@);
    let mut rest: Vec<String> = Vec::new();
    let mut i: usize = 0;
    proof {
        reveal(Seq::filter);
        assert(texts(rest@) =~= all.take(0).filter(keep));
    }
    while i < unique.len()
        invariant
            i <= unique@.len() == all.len(),
            texts(rest@) == all.take(i as int).filter(keep),
        decreases unique@.len() - i,
    {
        proof {
            reveal(Seq::filter);
            assert(all.take(i + 1).drop_last() =~= all.take(i as int));
            assert(all.take(i + 1).last() == unique@[i as int]@);
        }
        if !has_hit(hits, unique[i].as_str()) {
            let ghost before = texts(rest@);
            rest.push(unique[i].clone());
            proof {
                assert(texts(rest@) =~= before.push(unique@[i as int]@));
            }
        }
        i += 1;
    }
    proof {
        assert(all.take(all.len() as int) =~= all);
    }
    let mut sorted = sort_texts(&rest);
    let room: usize = limit - hits.len();
    let ghost full = texts(sorted@);
    if sorted.len() > room {
        sorted.truncate(room);
        proof {
            assert(texts(sorted@) =~= full.take(room as int));
        }
    }
    sorted
}

fn collect_distinct(list: &Vec<String>) -> (r: Vec<String>)
    ensures
        texts(r@) == distinct(texts(list@)),
{
    let ghost all = texts(list@);
    let mut out: Vec<String> = Vec::new();
    let mut i: usize = 0;
    proof {
        assert(texts(out@) =~= Seq::empty());
        assert(all.take(0) =~= Seq::empty());
    }
    while i < list.len()
        invariant
            i <= list@.len() == all.len(),
            texts(out@).no_duplicates(),
            texts(out@) == distinct(all.take(i as int)),
        decreases list@.len() - i,
    {
        proof {
            assert(all.take(i + 1).drop_last() =~= all.take(i as int));
            assert(all.take(i + 1).last() == list@[i as int]@);
        }
        push_new(&mut out, list[i].as_str());
        i += 1;
    }
    proof {
        assert(all.take(all.len() as int) =~= all);
    }
    out
}

fn keep_scope(hits: &Vec<SearchHit>, scope: &SearchScope) -> (r: Vec<SearchHit>)
    ensures
        hit_views(r@) == hit_views(hits@).filter(|h: SearchHitView| hit_in_scope(h, scope@)),
{
    let ghost all = hit_views(hits@);
    let ghost keep = |h: SearchHitView| hit_in_scope(h, scope@);
    let mut out: Vec<SearchHit> = Vec::new();
    let mut i: usize = 0;
    proof {
        reveal(Seq::filter);
        assert(hit_views(out@) =~= all.take(0).filter(keep));
    }
    while i < hits.len()
        invariant
            i <= hits@.len() == all.len(),
            hit_views(out@) == all.take(i as int).filter(keep),
        decreases hits@.len() - i,
    {
        proof {
            reveal(Seq::filter);
            assert(all.take(i + 1).drop_last() =~= all.take(i as int));
            assert(all.take(i + 1).last() == hits@[i as int]@);
        }
        let kept = match &hits[i].node {
            Some(node) => NodeEmbeddingService::matches_scope(node.node_type.as_str(), scope),
            None => true,
        };
        if kept {
            let ghost before = hit_views(out@);
            out.push((&hits[i]).clone());
            proof {
                assert(hit_views(out@) =~= before.push(hits@[i as int]@));
            }
        }
        i += 1;
    }
    proof {
        assert(all.take(all.len() as int) =~= all);
    }
    out
}

fn keep_with_node(hits: &Vec<SearchHit>) -> (r: Vec<SearchHit>)
    ensures
        hit_views(r@) == with_node(hit_views(hits@)),
        forall|i: int| 0 <= i < r@.len() ==> (#[trigger] r@[i]).node is Some,
{
    let ghost all = hit_views(hits@);
    let ghost keep = |h: SearchHitView| h.node is Some;
    let mut out: Vec<SearchHit> = Vec::new();
    let mut i: usize = 0;
    proof {
        reveal(Seq::filter);
        assert(hit_views(out@) =~= all.take(0).filter(keep));
    }
    while i < hits.len()
        invariant
            i <= hits@.len() == all.len(),
            hit_views(out@) == all.take(i as int).filter(keep),
            forall|j: int| 0 <= j < out@.len() ==> (#[trigger] out@[j]).node is Some,
        decreases hits@.len() - i,
    {
        proof {
            reveal(Seq::filter);
            assert(all.take(i + 1).drop_last() =~= all.take(i as int));
            assert(all.take(i + 1).last() == hits@[i as int]@);
        }
        if hits[i].node.is_some() {
            let ghost before = hit_views(out@);
            let hit = (&hits[i]).clone();
            proof {
                assert(hit@.node == hits@[i as int]@.node);
            }
            out.push(hit);
            proof {
                assert(hit_views(out@) =~= before.push(hits@[i as int]@));
            }
        }
        i += 1;
    }
    proof {
        assert(all.take(all.len() as int) =~= all);
    }
    out
}

fn shorten(hits: Vec<SearchHit>, limit: usize) -> (r: Vec<SearchHit>)
    ensures
        hit_views(r@) == at_most(hit_views(hits@), limit as int),
{
    let mut out = hits;
    let ghost all = hit_views(out@);
    if out.len() > limit {
        out.truncate(limit);
        proof {
            assert(hit_views(out@) =~= all.take(limit as int));
        }
    }
    out
}

fn collect_nodes(hits: &Vec<SearchHit>) -> (r: Vec<Node>)
    requires
        forall|i: int| 0 <= i < hits@.len() ==> (#[trigger] hits@[i]).node is Some,
    ensures
        node_views(r@) == nodes_of(hit_views(hits@)),
{
    let ghost all = hit_views(hits@);
    let mut out: Vec<Node> = Vec::new();
    let mut i: usize = 0;
    while i < hits.len()
        invariant
            i <= hits@.len() == all.len(),
            forall|k: int| 0 <= k < hits@.len() ==> (#[trigger] hits@[k]).node is Some,
            out@.len() == i,
            forall|j: int| 0 <= j < i ==> (#[trigger] out@[j])@ == nodes_of(all)[j],
        decreases hits@.len() - i,
    {
        proof {
            assert(hits@[i as int].node is Some);
            assert(all[i as int] == hits@[i as int]@);
        }
        if let Some(node) = &hits[i].node {
            out.push(node.clone());
        }
        i += 1;
    }
    proof {
        assert(node_views(out@) =~= nodes_of(all));
    }
    out
}

fn keep_accepted(hits: &Vec<SearchHit>, flags: &Vec<bool>) -> (r: Vec<SearchHit>)
    requires
        flags@.len() == hits@.len(),
    ensures
        hit_views(r@) == accepted(hit_views(hits@), flags@),
{
    let ghost all = hit_views(hits@);
    let mut out: Vec<SearchHit> = Vec::new();
    let mut i: usize = 0;
    proof {
        assert(hit_views(out@) =~= Seq::empty());
    }
    while i < hits.len()
        invariant
            i <= hits@.len() == all.len() == flags@.len(),
            hit_views(out@) == accepted(all.take(i as int), flags@.take(i as int)),
        decreases hits@.len() - i,
    {
        proof {
            assert(all.take(i + 1).drop_last() =~= all.take(i as int));
            assert(all.take(i + 1).last() == hits@[i as int]@);
            assert(flags@.take(i + 1).take(i as int) =~= flags@.take(i as int));
        }
        if flags[i] {
            let ghost before = hit_views(out@);
            out.push((&hits[i]).clone());
            proof {
                assert(hit_views(out@) =~= before.push(hits@[i as int]@));
            }
        }
        i += 1;
    }
    proof {
        assert(all.take(all.len() as int) =~= all);
        assert(flags@.take(flags@.len() as int) =~= flags@);
    }
    out
}

impl NodeEmbeddingService {
    /// Searches by meaning and by keyword. Roots that both found come first, then those that the
    /// meaning found, then those that the keywords found. `threshold` is the bit pattern of the
    /// similarity that is required.
    pub fn semantic_search(&self, query: &str, limit: usize, threshold: u64, log: &Vec<Reply>) -> (r:
        Step)
        ensures
            r@ == search_next(query@, limit, threshold, replies(log@)),
    {
        if is_blank(query) {
            return Step::Fail(
                NodeServiceError::InvalidUpdate("Search query cannot be empty".to_string()),
            );
        }
        if log.len() == 0 {
            return Step::Ask(Request::EmbedQuery { text: query.to_string() });
        }
        match &log[0] {
            Reply::Failed { message } => {
                let mut text = "Failed to generate query embedding: ".to_string();
                text.append(message.as_str());
                return Step::Fail(NodeServiceError::SerializationError(text));
            },
            Reply::Done => {},
            _ => {
                return Step::Mismatch;
            },
        }
        if log.len() == 1 {
            return Step::Ask(
                Request::HybridSearch {
                    query: query.to_string(),
                    limit: #[verifier::truncate]
                    (limit as i64),
                    threshold,
                    keyword_limit: #[verifier::truncate]
                    ((limit as u128 * 2) as i64),
                },
            );
        }
        match &log[1] {
            Reply::VectorSearchFailed { message } => {
                let mut text = "KNN search failed: ".to_string();
                text.append(message.as_str());
                Step::Fail(NodeServiceError::QueryFailed(text))
            },
            Reply::KeywordSearchFailed { message } => {
                let mut text = "BM25 search failed: ".to_string();
                text.append(message.as_str());
                Step::Fail(NodeServiceError::QueryFailed(text))
            },
            Reply::Found { hits, keyword_roots } => {
                let terms = collect_terms(query);
                search_boost(&terms, limit, hits, keyword_roots, log)
            },
            _ => Step::Mismatch,
        }
    }

    /// Searches within a scope.
    pub fn semantic_search_scoped(
        &self,
        query: &str,
        limit: usize,
        threshold: u64,
        scope: &SearchScope,
        log: &Vec<Reply>,
    ) -> (r: Step)
        requires
            limit * 2 <= usize::MAX,
        ensures
            r@ == scoped_next(query@, limit, threshold, scope@, replies(log@)),
    {
        if log.len() == 0 {
            return Step::Ask(
                Request::SemanticSearch { query: query.to_string(), limit: limit * 2, threshold },
            );
        }
        match &log[0] {
            Reply::Refused { error } => Step::Fail(error.clone()),
            Reply::Hits { hits } => Step::Finish(
                Outcome::Hits { hits: shorten(keep_scope(hits, scope), limit) },
            ),
            _ => Step::Mismatch,
        }
    }

    /// Whether a type belongs to a scope.
    pub fn matches_scope(node_type: &str, scope: &SearchScope) -> (r: bool)
        ensures
            r == in_scope(node_type@, scope@),
    {
        match scope {
            SearchScope::Knowledge => {
                same_text(node_type, "text") || same_text(node_type, "header") || same_text(
                    node_type,
                    "code-block",
                ) || same_text(node_type, "schema") || same_text(node_type, "table")
            },
            SearchScope::Conversations => same_text(node_type, "ai-chat"),
            SearchScope::Everything => true,
            SearchScope::Custom { include_types, exclude_types } => {
                if include_types.len() > 0 && !lists(include_types, node_type) {
                    return false;
                }
                !lists(exclude_types, node_type)
            },
        }
    }

    /// Searches for nodes. `filters_empty` says of the filters of the caller, if there are any,
    /// whether they are empty.
    pub fn semantic_search_nodes(
        &self,
        query: &str,
        limit: usize,
        threshold: u64,
        filters_empty: Option<bool>,
        log: &Vec<Reply>,
    ) -> (r: Step)
        requires
            filters_empty == Some(false) ==> limit * 3 <= usize::MAX,
        ensures
            r@ == search_nodes_next(query@, limit, threshold, filters_empty, replies(log@)),
    {
        if log.len() == 0 {
            let fetch: usize = match filters_empty {
                Some(false) => limit * 3,
                _ => limit,
            };
            return Step::Ask(
                Request::SemanticSearch { query: query.to_string(), limit: fetch, threshold },
            );
        }
        match &log[0] {
            Reply::Refused { error } => Step::Fail(error.clone()),
            Reply::Hits { hits } => {
                let kept = keep_with_node(hits);
                if filters_empty.is_none() {
                    return Step::Finish(Outcome::Hits { hits: shorten(kept, limit) });
                }
                search_filter(limit, kept, log)
            },
            _ => Step::Mismatch,
        }
    }

    /// Searches among the nodes of a type.
    pub fn semantic_search_nodes_of_type(
        &self,
        query: &str,
        node_type: &str,
        limit: usize,
        threshold: u64,
        log: &Vec<Reply>,
    ) -> (r: Step)
        ensures
            r@ == typed_search_next(query@, node_type@, limit, threshold, replies(log@)),
    {
        if is_blank(query) {
            return Step::Fail(
                NodeServiceError::InvalidUpdate("Search query cannot be empty".to_string()),
            );
        }
        if log.len() == 0 {
            return Step::Ask(Request::EmbedQuery { text: query.to_string() });
        }
        match &log[0] {
            Reply::Failed { message } => {
                let mut text = "Failed to generate query embedding: ".to_string();
                text.append(message.as_str());
                return Step::Fail(NodeServiceError::SerializationError(text));
            },
            Reply::Done => {},
            _ => {
                return Step::Mismatch;
            },
        }
        if log.len() == 1 {
            return Step::Ask(
                Request::SearchByType {
                    node_type: node_type.to_string(),
                    limit: #[verifier::truncate]
                    (limit as i64),
                    threshold,
                },
            );
        }
        match &log[1] {
            Reply::Failed { message } => {
                let mut text = "Typed embedding search failed: ".to_string();
                text.append(message.as_str());
                Step::Fail(NodeServiceError::QueryFailed(text))
            },
            Reply::Hits { hits } => {
                let kept = keep_with_node(hits);
                Step::Finish(Outcome::Hits { hits: rank_all(&kept) })
            },
            _ => Step::Mismatch,
        }
    }
}

fn search_boost(
    terms: &Vec<String>,
    limit: usize,
    hits: &Vec<SearchHit>,
    keyword_roots: &Vec<String>,
    log: &Vec<Reply>,
) -> (r: Step)
    requires
        log@.len() >= 2,
    ensures
        r@ == search_boost_next(
            texts(terms@),
            limit,
            hit_views(hits@),
            texts(keyword_roots@),
            replies_from(log@, 2),
        ),
{
    let scores = collect_boosted(hits, terms);
    if scores.len() == 0 {
        return search_rank(limit, hits, keyword_roots, log, 2);
    }
    if log.len() == 2 {
        return Step::Ask(Request::Boost { scores });
    }
    match &log[2] {
        Reply::Scores { scores: raised } => {
            if raised.len() != scores.len() {
                return Step::Mismatch;
            }
            let better = raise_scores(hits, terms, raised);
            search_rank(limit, &better, keyword_roots, log, 3)
        },
        _ => Step::Mismatch,
    }
}

fn search_rank(
    limit: usize,
    hits: &Vec<SearchHit>,
    keyword_roots: &Vec<String>,
    log: &Vec<Reply>,
    from: usize,
) -> (r: Step)
    requires
        from <= log@.len(),
    ensures
        r@ == search_rank_next(
            limit,
            hit_views(hits@),
            texts(keyword_roots@),
            replies_from(log@, from as int),
        ),
{
    let ghost top = tiers(hit_views(hits@), texts(keyword_roots@));
    let mut results = rank_tiers(hits, keyword_roots);
    let ids = collect_keyword_only(hits, keyword_roots, limit);
    let ghost all = texts(ids@);
    let ghost want = search_fill_next(top, all, 0, replies_from(log@, from as int));
    let mut at: usize = from;
    let mut i: usize = 0;
    while i < ids.len()
        invariant
            i <= ids@.len() == all.len(),
            at <= log@.len(),
            want == search_fill_next(
                hit_views(results@),
                all,
                i as nat,
                replies_from(log@, at as int),
            ),
        decreases ids@.len() - i,
    {
        proof {
            assert(all[i as int] == ids@[i as int]@);
        }
        if at >= log.len() {
            return Step::Ask(Request::LoadNode { id: ids[i].clone() });
        }
        match &log[at] {
            Reply::Node { node: Some(node) } => {
                let ghost before = hit_views(results@);
                let hit = SearchHit {
                    node_id: ids[i].clone(),
                    score: Number::Float(0),
                    max_similarity: Number::Float(0),
                    matching_chunks: 0,
                    node: Some(node.clone()),
                };
                let ghost value = hit@;
                results.push(hit);
                proof {
                    assert(hit_views(results@) =~= before.push(value));
                }
            },
            Reply::Node { node: None } => {},
            Reply::Failed { message: _ } => {},
            _ => {
                return Step::Mismatch;
            },
        }
        at += 1;
        i += 1;
    }
    Step::Finish(Outcome::Hits { hits: results })
}

fn search_filter(limit: usize, hits: Vec<SearchHit>, log: &Vec<Reply>) -> (r: Step)
    requires
        log@.len() > 0,
        forall|i: int| 0 <= i < hits@.len() ==> (#[trigger] hits@[i]).node is Some,
    ensures
        r@ == search_filter_next(limit, hit_views(hits@), replies_from(log@, 1)),
{
    if log.len() == 1 {
        return Step::Ask(Request::MatchFilters { nodes: collect_nodes(&hits) });
    }
    match &log[1] {
        Reply::Flags { values } => {
            if values.len() != hits.len() {
                return Step::Mismatch;
            }
            Step::Finish(Outcome::Hits { hits: shorten(keep_accepted(&hits, values), limit) })
        },
        _ => Step::Mismatch,
    }
}

/// A blank query is refused before anything is searched.
pub proof fn law_blank_queries_are_refused(
    query: Seq<char>,
    node_type: Seq<char>,
    limit: usize,
    threshold: u64,
    log: Seq<ReplyView>,
)
    requires
        blank(query),
    ensures
        search_next(query, limit, threshold, log) == StepView::Fail(
            ErrorView::InvalidUpdate("Search query cannot be empty"@),
        ),
        typed_search_next(query, node_type, limit, threshold, log) == StepView::Fail(
            ErrorView::InvalidUpdate("Search query cannot be empty"@),
        ),
{
}

/// The bonus changes the scores of hits whose titles match, and nothing else. Of as many new scores
/// as there are such hits, each gets the one at its place among them.
pub proof fn law_bonus_changes_scores_only(
    hits: Seq<SearchHitView>,
    terms: Seq<Seq<char>>,
    scores: Seq<Number>,
    i: int,
)
    requires
        0 <= i < hits.len(),
    ensures
        with_scores(hits, terms, scores).len() == hits.len(),
        with_scores(hits, terms, scores)[i] == (SearchHitView {
            score: with_scores(hits, terms, scores)[i].score,
            ..hits[i]
        }),
        !is_boosted(hits[i], terms) ==> with_scores(hits, terms, scores)[i] == hits[i],
        is_boosted(hits[i], terms) && scores.len() == boosted_scores(hits, terms).len() ==> {
            let at = boosted_scores(hits.take(i), terms).len() as int;
            at < scores.len() && with_scores(hits, terms, scores)[i].score == scores[at]
        },
    decreases hits.len(),
{
    lemma_with_scores_len(hits, terms, scores);
    let rest = if is_boosted(hits.last(), terms) && scores.len() > 0 {
        scores.drop_last()
    } else {
        scores
    };
    lemma_with_scores_len(hits.drop_last(), terms, rest);
    lemma_boosted_grow(hits, terms);
    if i < hits.len() - 1 {
        law_bonus_changes_scores_only(hits.drop_last(), terms, rest, i);
        assert(hits.drop_last().take(i) =~= hits.take(i));
    } else {
        assert(hits.take(i) =~= hits.drop_last());
    }
}

proof fn lemma_boosted_grow(hits: Seq<SearchHitView>, terms: Seq<Seq<char>>)
    requires
        hits.len() > 0,
    ensures
        boosted_scores(hits, terms).len() == boosted_scores(hits.drop_last(), terms).len() + (
        if is_boosted(hits.last(), terms) {
            1int
        } else {
            0int
        }),
{
    reveal(Seq::filter);
}

proof fn lemma_with_scores_len(
    hits: Seq<SearchHitView>,
    terms: Seq<Seq<char>>,
    scores: Seq<Number>,
)
    ensures
        with_scores(hits, terms, scores).len() == hits.len(),
    decreases hits.len(),
{
    if hits.len() > 0 {
        if is_boosted(hits.last(), terms) && scores.len() > 0 {
            lemma_with_scores_len(hits.drop_last(), terms, scores.drop_last());
        } else {
            lemma_with_scores_len(hits.drop_last(), terms, scores);
        }
    }
}

/// What a search gives: the hits in tiers, then roots without a score and without chunks that only
/// the keywords found, each of them once and in the order of their identifiers. Unless there are
/// more hits than the limit, there are no more results.
pub proof fn law_keyword_roots_come_last(
    limit: usize,
    hits: Seq<SearchHitView>,
    keyword_roots: Seq<Seq<char>>,
    log: Seq<ReplyView>,
    results: Seq<SearchHitView>,
    i: int,
    j: int,
)
    requires
        search_rank_next(limit, hits, keyword_roots, log) == StepView::Finish(
            OutcomeView::Hits { hits: results },
        ),
    ensures
        results.len() >= hits.len(),
        results.take(hits.len() as int) == tiers(hits, keyword_roots),
        hits.len() <= limit ==> results.len() <= limit,
        hits.len() > limit ==> results.len() == hits.len(),
        hits.len() <= i < results.len() ==> {
            &&& results[i].score == Number::Float(0)
            &&& results[i].max_similarity == Number::Float(0)
            &&& results[i].matching_chunks == 0
            &&& results[i].node is Some
            &&& keyword_roots.contains(results[i].node_id)
            &&& !hits.map_values(|h: SearchHitView| h.node_id).contains(results[i].node_id)
        },
        hits.len() <= i < j < results.len() ==> {
            &&& text_le(results[i].node_id, results[j].node_id)
            &&& results[i].node_id != results[j].node_id
        },
{
    let top = tiers(hits, keyword_roots);
    let ids = keyword_only(hits, keyword_roots, limit as int);
    lemma_tiers_len(hits, keyword_roots);
    lemma_fill(top, ids, 0, log, results, i, j);
    if hits.len() <= i < results.len() {
        let id = results[i].node_id;
        lemma_keyword_only(hits, keyword_roots, limit as int, id);
    }
    if hits.len() <= i < j < results.len() {
        lemma_keyword_only_in_order(hits, keyword_roots, limit as int);
        let (k, m) = choose|k: int, m: int|
            0 <= k < m < ids.len() && #[trigger] ids[k] == results[i].node_id && #[trigger] ids[m]
                == results[j].node_id;
        assert(text_le(ids[k], ids[m]) && ids[k] != ids[m]);
    }
}

proof fn lemma_tiers_len(hits: Seq<SearchHitView>, keyword_roots: Seq<Seq<char>>)
    ensures
        tiers(hits, keyword_roots).len() == hits.len(),
    decreases hits.len(),
{
    let both = |h: SearchHitView| is_listed(keyword_roots, h);
    let only = |h: SearchHitView| !is_listed(keyword_roots, h);
    law_best_first(hits.filter(both));
    law_best_first(hits.filter(only));
    lemma_parts_len(hits, keyword_roots);
}

proof fn lemma_parts_len(hits: Seq<SearchHitView>, keyword_roots: Seq<Seq<char>>)
    ensures
        hits.filter(|h: SearchHitView| is_listed(keyword_roots, h)).len() + hits.filter(
            |h: SearchHitView| !is_listed(keyword_roots, h),
        ).len() == hits.len(),
    decreases hits.len(),
{
    reveal(Seq::filter);
    if hits.len() > 0 {
        lemma_parts_len(hits.drop_last(), keyword_roots);
    }
}

proof fn lemma_fill(
    start: Seq<SearchHitView>,
    ids: Seq<Seq<char>>,
    from: nat,
    log: Seq<ReplyView>,
    results: Seq<SearchHitView>,
    i: int,
    j: int,
)
    requires
        from <= ids.len(),
        search_fill_next(start, ids, from, log) == StepView::Finish(
            OutcomeView::Hits { hits: results },
        ),
    ensures
        results.len() >= start.len(),
        results.take(start.len() as int) == start,
        results.len() <= start.len() + ids.len() - from,
        start.len() <= i < results.len() ==> is_keyword_hit(results[i], ids, from as int),
        start.len() <= j < results.len() ==> is_keyword_hit(results[j], ids, from as int),
        start.len() <= i < j < results.len() ==> exists|k: int, m: int|
            from <= k < m < ids.len() && #[trigger] ids[k] == results[i].node_id && #[trigger] ids[m]
                == results[j].node_id,
    decreases ids.len() - from,
{
    if from < ids.len() {
        match log[0] {
            ReplyView::Node { node: Some(node) } => {
                let more = start.push(keyword_hit(ids[from as int], node));
                lemma_fill(more, ids, from + 1, log.skip(1), results, i, j);
                assert(results.take(start.len() as int) =~= more.take(start.len() as int)) by {
                    assert(results.take(more.len() as int) =~= more);
                    assert forall|k: int| 0 <= k < start.len() implies results[k] == more[k] by {
                        assert(results.take(more.len() as int)[k] == more[k]);
                    }
                }
                assert(more.take(start.len() as int) =~= start);
                let at = start.len() as int;
                assert(results.take(more.len() as int)[at] == more[at]);
                assert(results[at] == keyword_hit(ids[from as int], node));
                assert(is_keyword_hit(results[at], ids, from as int));
                if i == at && i < j < results.len() {
                    let m = choose|m: int|
                        from + 1 <= m < ids.len() && #[trigger] ids[m] == results[j].node_id;
                    assert(ids[from as int] == results[i].node_id && ids[m] == results[j].node_id);
                }
            },
            _ => {
                lemma_fill(start, ids, from + 1, log.skip(1), results, i, j);
            },
        }
    } else {
        assert(results.take(start.len() as int) =~= start);
    }
}

/// The result is a root that the keywords alone found: one of those from position `from` on.
spec fn is_keyword_hit(hit: SearchHitView, ids: Seq<Seq<char>>, from: int) -> bool {
    &&& hit.score == Number::Float(0)
    &&& hit.max_similarity == Number::Float(0)
    &&& hit.matching_chunks == 0
    &&& hit.node is Some
    &&& exists|k: int| from <= k < ids.len() && #[trigger] ids[k] == hit.node_id
}

proof fn lemma_keyword_only_in_order(
    hits: Seq<SearchHitView>,
    keyword_roots: Seq<Seq<char>>,
    limit: int,
)
    ensures
        is_sorted(keyword_only(hits, keyword_roots, limit)),
        keyword_only(hits, keyword_roots, limit).no_duplicates(),
{
    let found = hits.map_values(|h: SearchHitView| h.node_id);
    let keep = |x: Seq<char>| !found.contains(x);
    let rest = distinct(keyword_roots).filter(keep);
    lemma_distinct(keyword_roots);
    lemma_filter_no_duplicates(distinct(keyword_roots), keep);
    law_sorted_texts(rest);
    rest.lemma_multiset_has_no_duplicates();
    sorted_texts(rest).lemma_multiset_has_no_duplicates_conv();
}

proof fn lemma_filter_no_duplicates(list: Seq<Seq<char>>, keep: spec_fn(Seq<char>) -> bool)
    requires
        list.no_duplicates(),
    ensures
        list.filter(keep).no_duplicates(),
    decreases list.len(),
{
    reveal(Seq::filter);
    if list.len() > 0 {
        let before = list.drop_last();
        lemma_filter_no_duplicates(before, keep);
        if keep(list.last()) {
            let kept = before.filter(keep);
            if kept.contains(list.last()) {
                before.lemma_filter_contains_rev(keep, list.last());
                let k = choose|k: int| 0 <= k < before.len() && before[k] == list.last();
                assert(list[k] == list[list.len() - 1]);
            }
            assert forall|a: int, b: int| 0 <= a < b < kept.push(list.last()).len() implies kept.push(
                list.last(),
            )[a] != kept.push(list.last())[b] by {
                assert(kept.contains(kept[a]));
            }
        }
    }
}

proof fn lemma_keyword_only(
    hits: Seq<SearchHitView>,
    keyword_roots: Seq<Seq<char>>,
    limit: int,
    id: Seq<char>,
)
    requires
        keyword_only(hits, keyword_roots, limit).contains(id),
    ensures
        keyword_roots.contains(id),
        !hits.map_values(|h: SearchHitView| h.node_id).contains(id),
{
    broadcast use vstd::seq_lib::group_to_multiset_ensures;

    let found = hits.map_values(|h: SearchHitView| h.node_id);
    let keep = |x: Seq<char>| !found.contains(x);
    let unique = distinct(keyword_roots);
    let rest = unique.filter(keep);
    let sorted = sorted_texts(rest);
    law_sorted_texts(rest);
    let list = keyword_only(hits, keyword_roots, limit);
    let at = choose|at: int| 0 <= at < list.len() && list[at] == id;
    assert(sorted[at] == id);
    assert(sorted.to_multiset().count(id) > 0);
    assert(rest.to_multiset().count(id) > 0);
    assert(rest.contains(id));
    let m = choose|m: int| 0 <= m < rest.len() && rest[m] == id;
    unique.lemma_filter_pred(keep, m);
    unique.lemma_filter_contains_rev(keep, id);
    lemma_distinct(keyword_roots);
}

/// What a search within a scope gives belongs to the scope as far as its type is known, and is not
/// more than the limit.
pub proof fn law_scoped_results(
    query: Seq<char>,
    limit: usize,
    threshold: u64,
    scope: SearchScopeView,
    log: Seq<ReplyView>,
    results: Seq<SearchHitView>,
    i: int,
)
    requires
        scoped_next(query, limit, threshold, scope, log) == StepView::Finish(
            OutcomeView::Hits { hits: results },
        ),
        0 <= i < results.len(),
    ensures
        results.len() <= limit,
        results[i].node matches Some(node) ==> in_scope(node.node_type, scope),
{
    match log[0] {
        ReplyView::Hits { hits } => {
            let keep = |h: SearchHitView| hit_in_scope(h, scope);
            hits.lemma_filter_pred(keep, i);
        },
        _ => {},
    }
}

/// An excluded type is out of scope even if it is included. Without included types every type is in
/// scope that is not excluded.
pub proof fn law_exclusion_wins(
    node_type: Seq<char>,
    include_types: Seq<Seq<char>>,
    exclude_types: Seq<Seq<char>>,
)
    ensures
        exclude_types.contains(node_type) ==> !in_scope(
            node_type,
            SearchScopeView::Custom { include_types, exclude_types },
        ),
        include_types.len() == 0 && !exclude_types.contains(node_type) ==> in_scope(
            node_type,
            SearchScopeView::Custom { include_types, exclude_types },
        ),
{
}

/// A search among the nodes of a type gives hits with nodes, the best first.
pub proof fn law_typed_results_are_ranked(
    query: Seq<char>,
    node_type: Seq<char>,
    limit: usize,
    threshold: u64,
    log: Seq<ReplyView>,
    results: Seq<SearchHitView>,
)
    requires
        typed_search_next(query, node_type, limit, threshold, log) == StepView::Finish(
            OutcomeView::Hits { hits: results },
        ),
    ensures
        is_best_first(results),
{
    match log.skip(1)[0] {
        ReplyView::Hits { hits } => {
            law_best_first(with_node(hits));
        },
        _ => {},
    }
}

} // verus!
