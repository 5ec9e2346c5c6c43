//! What searches promise.

use crate::hits::{hit_rank, is_listed, law_best_first, law_tiers, tiers, SearchHitView};
use crate::json::Number;
use crate::mentions::{distinct, lemma_distinct};
use crate::node::NodeView;
use crate::protocol::{OutcomeView, ReplyView, RequestView, StepView};
use crate::search::{
    accepted, boosted_scores, in_scope, is_boosted, keyword_hit, keyword_only,
    law_bonus_changes_scores_only, law_keyword_roots_come_last, scoped_next, search_fill_next,
    search_next, search_nodes_next, search_rank_next, typed_search_next, with_node, with_scores,
    SearchScopeView,
};
use crate::terms::{law_sorted_texts, pieces, query_terms, sorted_texts, title_matches, trimmed};
use crate::text::{alphanumeric, blank, contains_part, lowercase, text_le, whitespace};
use crate::trace::asked_at;
use vstd::prelude::*;

verus! {

/// The scopes, by the types that they hold. Knowledge is what was written down, in five types;
/// conversations are chats; everything is every type; and a scope of the caller's own holds the types
/// that it includes, or all if it includes none, without those that it excludes.
pub proof fn law_scopes(node_type: Seq<char>, wanted: Seq<Seq<char>>, unwanted: Seq<Seq<char>>)
    ensures
        in_scope(node_type, SearchScopeView::Knowledge) <==> seq![
            "text"@,
            "header"@,
            "code-block"@,
            "schema"@,
            "table"@,
        ].contains(node_type),
        in_scope(node_type, SearchScopeView::Conversations) <==> node_type == "ai-chat"@,
        in_scope(node_type, SearchScopeView::Everything),
        wanted.contains(node_type) && !unwanted.contains(node_type) ==> in_scope(
            node_type,
            SearchScopeView::Custom { include_types: wanted, exclude_types: unwanted },
        ),
        wanted.len() > 0 && !wanted.contains(node_type) || unwanted.contains(node_type) ==> !in_scope(
            node_type,
            SearchScopeView::Custom { include_types: wanted, exclude_types: unwanted },
        ),
        wanted.len() == 0 && !unwanted.contains(node_type) ==> in_scope(
            node_type,
            SearchScopeView::Custom { include_types: wanted, exclude_types: unwanted },
        ),
{
    let five = seq!["text"@, "header"@, "code-block"@, "schema"@, "table"@];
    assert(five[0] == "text"@ && five[1] == "header"@ && five[2] == "code-block"@ && five[3]
        == "schema"@ && five[4] == "table"@);
    if five.contains(node_type) {
        let i = choose|i: int| 0 <= i < five.len() && five[i] == node_type;
        assert(i == 0 || i == 1 || i == 2 || i == 3 || i == 4);
    }
}

/// The types that count as knowledge, one by one.
pub open spec fn is_knowledge(node_type: Seq<char>) -> bool {
    ||| node_type == "text"@
    ||| node_type == "header"@
    ||| node_type == "code-block"@
    ||| node_type == "schema"@
    ||| node_type == "table"@
}

/// A search within a scope looks for the same with twice the limit. Of what that search finds it gives
/// the hits whose nodes are of a type of the scope, and those of which no node is known, in their order
/// and up to the limit: for knowledge no hit of another type, for chats nothing but chats.
pub proof fn law_searches_keep_to_their_scope(
    query: Seq<char>,
    limit: usize,
    threshold: u64,
    hits: Seq<SearchHitView>,
    found: Seq<SearchHitView>,
    i: int,
    node: NodeView,
)
    requires
        limit * 2 <= usize::MAX,
    ensures
        scoped_next(query, limit, threshold, SearchScopeView::Knowledge, Seq::empty())
            == StepView::Ask(
            RequestView::SemanticSearch { query, limit: (limit + limit) as usize, threshold },
        ),
        scoped_next(
            query,
            limit,
            threshold,
            SearchScopeView::Knowledge,
            seq![ReplyView::Hits { hits }],
        ) == StepView::Finish(OutcomeView::Hits { hits: found }) ==> {
            &&& found.len() <= limit
            &&& 0 <= i < found.len() && found[i].node == Some(node) ==> is_knowledge(node.node_type)
            &&& 0 <= i < found.len() ==> hits.contains(found[i])
            &&& 0 <= i < hits.len() && found.len() < limit && (hits[i].node == Some(node)
                && is_knowledge(node.node_type) || hits[i].node is None) ==> found.contains(hits[i])
        },
        scoped_next(
            query,
            limit,
            threshold,
            SearchScopeView::Conversations,
            seq![ReplyView::Hits { hits }],
        ) == StepView::Finish(OutcomeView::Hits { hits: found }) ==> {
            &&& found.len() <= limit
            &&& 0 <= i < found.len() && found[i].node == Some(node) ==> node.node_type == "ai-chat"@
            &&& 0 <= i < hits.len() && found.len() < limit && hits[i].node == Some(node)
                && node.node_type == "ai-chat"@ ==> found.contains(hits[i])
        },
        scoped_next(
            query,
            limit,
            threshold,
            SearchScopeView::Everything,
            seq![ReplyView::Hits { hits }],
        ) == StepView::Finish(OutcomeView::Hits { hits: found }) ==> {
            &&& found.len() <= limit
            &&& hits.len() <= limit ==> found == hits
            &&& hits.len() > limit ==> found == hits.take(limit as int)
        },
{
    lemma_scoped(query, limit, threshold, SearchScopeView::Knowledge, hits, found, i);
    lemma_scoped(query, limit, threshold, SearchScopeView::Conversations, hits, found, i);
    let all = |h: SearchHitView| crate::search::hit_in_scope(h, SearchScopeView::Everything);
    lemma_keeps_all(hits, all);
}

proof fn lemma_keeps_all(hits: Seq<SearchHitView>, p: spec_fn(SearchHitView) -> bool)
    requires
        forall|h: SearchHitView| #[trigger] p(h),
    ensures
        hits.filter(p) == hits,
    decreases hits.len(),
{
    reveal(Seq::filter);
    if hits.len() > 0 {
        lemma_keeps_all(hits.drop_last(), p);
        assert(p(hits.last()));
        assert(hits.drop_last().push(hits.last()) =~= hits);
    } else {
        assert(hits.filter(p) =~= hits);
    }
}

proof fn lemma_scoped(
    query: Seq<char>,
    limit: usize,
    threshold: u64,
    scope: SearchScopeView,
    hits: Seq<SearchHitView>,
    found: Seq<SearchHitView>,
    i: int,
)
    ensures
        scoped_next(query, limit, threshold, scope, seq![ReplyView::Hits { hits }])
            == StepView::Finish(OutcomeView::Hits { hits: found }) ==> {
            &&& found.len() <= limit
            &&& 0 <= i < found.len() ==> crate::search::hit_in_scope(found[i], scope)
                && hits.contains(found[i])
            &&& 0 <= i < hits.len() && found.len() < limit && crate::search::hit_in_scope(
                hits[i],
                scope,
            ) ==> found.contains(hits[i])
        },
{
    let keep = |h: SearchHitView| crate::search::hit_in_scope(h, scope);
    let kept = hits.filter(keep);
    if scoped_next(query, limit, threshold, scope, seq![ReplyView::Hits { hits }])
        == StepView::Finish(OutcomeView::Hits { hits: found }) {
        if 0 <= i < found.len() {
            assert(found[i] == kept[i]);
            hits.lemma_filter_pred(keep, i);
            hits.lemma_filter_contains_rev(keep, found[i]);
        }
        if 0 <= i < hits.len() && found.len() < limit && keep(hits[i]) {
            hits.lemma_filter_contains(keep, i);
            assert(found == kept);
        }
    }
}

/// A search embeds the query and then looks for it by meaning, with the limit and the threshold that
/// the caller names, and by keyword, with twice the limit.
pub proof fn law_searches_look_for_the_query(
    query: Seq<char>,
    limit: usize,
    threshold: u64,
    node_type: Seq<char>,
)
    requires
        !blank(query),
        limit * 2 <= i64::MAX,
    ensures
        search_next(query, limit, threshold, Seq::empty()) == StepView::Ask(
            RequestView::EmbedQuery { text: query },
        ),
        search_next(query, limit, threshold, seq![ReplyView::Done]) matches StepView::Ask(
            RequestView::HybridSearch { query: q, limit: l, threshold: t, keyword_limit: k },
        ) && q == query && l == limit && t == threshold && k == limit + limit,
        typed_search_next(query, node_type, limit, threshold, Seq::empty()) == StepView::Ask(
            RequestView::EmbedQuery { text: query },
        ),
        typed_search_next(query, node_type, limit, threshold, seq![ReplyView::Done])
            matches StepView::Ask(RequestView::SearchByType { node_type: n, limit: l, threshold: t })
            && n == node_type && l == limit && t == threshold,
{
}

/// What a search by meaning and by keyword gives: first all hits of the search by meaning, each as it
/// was found but for the score of one whose title matches; of them those first that the keywords found
/// too, and among each kind better ones first. Then come the roots that the keywords alone found, by
/// their identifiers.
pub proof fn law_search_results(
    query: Seq<char>,
    limit: usize,
    threshold: u64,
    log: Seq<ReplyView>,
    hits: Seq<SearchHitView>,
    keyword_roots: Seq<Seq<char>>,
    results: Seq<SearchHitView>,
    i: int,
    j: int,
)
    requires
        search_next(query, limit, threshold, log) == StepView::Finish(
            OutcomeView::Hits { hits: results },
        ),
        log[1] == (ReplyView::Found { hits, keyword_roots }),
    ensures
        results.len() >= hits.len(),
        hits.len() <= limit ==> results.len() <= limit,
        0 <= i < j < hits.len() ==> {
            &&& keyword_roots.contains(results[j].node_id) ==> keyword_roots.contains(
                results[i].node_id,
            )
            &&& keyword_roots.contains(results[i].node_id) == keyword_roots.contains(
                results[j].node_id,
            ) ==> hit_rank(results[i]) >= hit_rank(results[j])
        },
        0 <= i < hits.len() ==> exists|k: int|
            0 <= k < hits.len() && results[i] == (SearchHitView {
                score: results[i].score,
                ..#[trigger] hits[k]
            }) && (results[i].score == hits[k].score || is_boosted(hits[k], query_terms(query))),
        0 <= i < hits.len() ==> exists|k: int|
            0 <= k < hits.len() && (#[trigger] results[k]).node_id == hits[i].node_id,
        hits.len() <= i < results.len() ==> {
            &&& keyword_roots.contains(results[i].node_id)
            &&& forall|k: int| 0 <= k < hits.len() ==> (#[trigger] hits[k]).node_id
                != results[i].node_id
            &&& results[i].score == Number::Float(0)
            &&& results[i].matching_chunks == 0
            &&& results[i].node is Some
        },
        hits.len() <= i < j < results.len() ==> text_le(results[i].node_id, results[j].node_id)
            && results[i].node_id != results[j].node_id,
{
    broadcast use vstd::seq_lib::group_to_multiset_ensures;

    let terms = query_terms(query);
    let rest = log.skip(1).skip(1);
    assert(log.skip(1)[0] == log[1]);
    let boosts = boosted_scores(hits, terms);
    let (scored, tail) = if boosts.len() == 0 {
        (hits, rest)
    } else {
        (with_scores(hits, terms, rest[0]->Scores_scores), rest.skip(1))
    };
    assert(search_rank_next(limit, scored, keyword_roots, tail) == StepView::Finish(
        OutcomeView::Hits { hits: results },
    ));
    assert(scored.len() == hits.len()) by {
        if boosts.len() > 0 && hits.len() > 0 {
            law_bonus_changes_scores_only(hits, terms, rest[0]->Scores_scores, 0);
        }
        if boosts.len() > 0 && hits.len() == 0 {
            assert(boosts.len() == 0) by {
                reveal(Seq::filter);
            }
        }
    }
    assert forall|k: int| 0 <= k < hits.len() implies #[trigger] scored[k] == (SearchHitView {
        score: scored[k].score,
        ..hits[k]
    }) && (scored[k].score == hits[k].score || is_boosted(hits[k], terms)) by {
        if boosts.len() > 0 {
            law_bonus_changes_scores_only(hits, terms, rest[0]->Scores_scores, k);
        }
    }
    law_keyword_roots_come_last(limit, scored, keyword_roots, tail, results, i, j);
    let top = results.take(hits.len() as int);
    assert(top == tiers(scored, keyword_roots));
    if 0 <= i < j < hits.len() {
        law_tiers(scored, keyword_roots, i, j);
        assert(top[i] == results[i] && top[j] == results[j]);
    }
    if 0 <= i < hits.len() {
        if hits.len() > 1 {
            law_tiers(scored, keyword_roots, 0, 1);
        } else {
            lemma_single_tier(scored, keyword_roots);
        }
        assert(top.to_multiset() == scored.to_multiset());
        assert(top[i] == results[i]);
        assert(top.to_multiset().count(top[i]) > 0);
        assert(scored.contains(top[i]));
        let k = choose|k: int| 0 <= k < scored.len() && scored[k] == top[i];
        assert(results[i] == (SearchHitView { score: results[i].score, ..hits[k] }));
        assert(scored.to_multiset().count(scored[i]) > 0);
        assert(top.contains(scored[i]));
        let m = choose|m: int| 0 <= m < top.len() && top[m] == scored[i];
        assert(results[m].node_id == hits[i].node_id);
    }
    if hits.len() <= i < results.len() {
        let ids = scored.map_values(|h: SearchHitView| h.node_id);
        assert forall|k: int| 0 <= k < hits.len() implies (#[trigger] hits[k]).node_id
            != results[i].node_id by {
            assert(ids[k] == scored[k].node_id);
        }
    }
}

proof fn lemma_single_tier(hits: Seq<SearchHitView>, keyword_roots: Seq<Seq<char>>)
    requires
        hits.len() == 1,
    ensures
        tiers(hits, keyword_roots).to_multiset() == hits.to_multiset(),
{
    reveal_with_fuel(Seq::filter, 2);
    let both = hits.filter(|h: SearchHitView| is_listed(keyword_roots, h));
    let only = hits.filter(|h: SearchHitView| !is_listed(keyword_roots, h));
    assert(hits.drop_last() =~= Seq::empty());
    reveal_with_fuel(crate::sequences::sorted_by, 2);
    reveal_with_fuel(crate::sequences::placed, 2);
    if is_listed(keyword_roots, hits[0]) {
        assert(both =~= hits);
        assert(only =~= Seq::empty());
    } else {
        assert(only =~= hits);
        assert(both =~= Seq::empty());
    }
    assert(tiers(hits, keyword_roots) =~= hits);
}

/// Where hits have titles that match, their scores are raised, those and in their order.
pub proof fn law_matching_titles_are_raised(
    query: Seq<char>,
    limit: usize,
    threshold: u64,
    hits: Seq<SearchHitView>,
    keyword_roots: Seq<Seq<char>>,
    k: int,
    node: NodeView,
    title: Seq<char>,
)
    requires
        !blank(query),
        0 <= k < hits.len(),
        hits[k].node == Some(node),
        node.title == Some(title),
        title_matches(title, query_terms(query)),
    ensures
        search_next(
            query,
            limit,
            threshold,
            seq![ReplyView::Done, ReplyView::Found { hits, keyword_roots }],
        ) matches StepView::Ask(RequestView::Boost { scores }) && scores.contains(hits[k].score),
{
    let terms = query_terms(query);
    let p = |h: SearchHitView| is_boosted(h, terms);
    hits.lemma_filter_contains(p, k);
    let kept = hits.filter(p);
    let m = choose|m: int| 0 <= m < kept.len() && kept[m] == hits[k];
    let scores = boosted_scores(hits, terms);
    assert(scores[m] == hits[k].score);
    let log = seq![ReplyView::Done, ReplyView::Found { hits, keyword_roots }];
    assert(log.skip(1)[0] == log[1]);
}

/// A title matches if it contains, in lower case, a word of the query: what stands between white space,
/// without what is neither letter nor digit around it.
pub proof fn law_words_of_a_query(before: Seq<char>, space: char, word: Seq<char>, i: int)
    requires
        whitespace(space),
        forall|k: int| 0 <= k < word.len() ==> !whitespace(#[trigger] word[k]),
    ensures
        query_terms(before.push(space) + word) == (if lowercase(trimmed(word)).len() > 0 {
            query_terms(before).push(lowercase(trimmed(word)))
        } else {
            query_terms(before)
        }),
        query_terms(word) == (if lowercase(trimmed(word)).len() > 0 {
            seq![lowercase(trimmed(word))]
        } else {
            Seq::empty()
        }),
{
    lemma_pieces(before.push(space), word);
    lemma_pieces(Seq::empty(), word);
    assert(Seq::<char>::empty() + word =~= word);
    let f = |w: Seq<char>| lowercase(trimmed(w));
    let has = |t: Seq<char>| t.len() > 0;
    let whole = before.push(space) + word;
    assert(before.push(space).drop_last() =~= before);
    assert(pieces(before.push(space)).drop_last() =~= pieces(before));
    assert(pieces(whole) =~= pieces(before).push(word));
    assert(pieces(whole).map_values(f) =~= pieces(before).map_values(f).push(f(word)));
    assert(pieces(before).map_values(f).push(f(word)).drop_last() =~= pieces(before).map_values(f));
    assert(pieces(word) =~= seq![word]);
    assert(pieces(word).map_values(f) =~= seq![f(word)]);
    assert(seq![f(word)].drop_last() =~= Seq::empty());
    reveal_with_fuel(Seq::filter, 2);
    assert(query_terms(word) =~= (if f(word).len() > 0 {
        seq![f(word)]
    } else {
        Seq::empty()
    }));
}

proof fn lemma_pieces(before: Seq<char>, word: Seq<char>)
    requires
        forall|k: int| 0 <= k < word.len() ==> !whitespace(#[trigger] word[k]),
        before.len() > 0 ==> whitespace(before.last()),
    ensures
        pieces(before).len() > 0,
        pieces(before).last().len() == 0,
        pieces(before + word) == pieces(before).drop_last().push(word),
    decreases word.len(),
{
    assert(pieces(before).last() =~= Seq::empty());
    if word.len() == 0 {
        assert(before + word =~= before);
        assert(word =~= pieces(before).last());
        assert(pieces(before).drop_last().push(word) =~= pieces(before));
    } else {
        let shorter = word.drop_last();
        assert forall|k: int| 0 <= k < shorter.len() implies !whitespace(#[trigger] shorter[k]) by {
            assert(shorter[k] == word[k]);
        }
        lemma_pieces(before, shorter);
        let whole = before + word;
        assert(whole.drop_last() =~= before + shorter);
        assert(whole.last() == word[word.len() - 1]);
        assert(shorter.push(word.last()) =~= word);
        assert(pieces(before).drop_last().push(shorter).drop_last()
            =~= pieces(before).drop_last());
    }
}

/// A word without anything but letters and digits is a term as it is; of any other, a part is that
/// begins and ends with a letter or a digit.
pub proof fn law_trimmed_words(word: Seq<char>)
    ensures
        word.len() > 0 && alphanumeric(word[0]) && alphanumeric(word.last()) ==> trimmed(word) == word,
        trimmed(word).len() > 0 ==> alphanumeric(trimmed(word)[0]) && alphanumeric(trimmed(word).last()),
        contains_part(word, trimmed(word)),
        trimmed(word).len() == 0 ==> forall|i: int|
            0 <= i < word.len() ==> !alphanumeric(#[trigger] word[i]),
    decreases word.len(),
{
    if word.len() == 0 {
        assert(word.subrange(0, 0) =~= word);
        assert(crate::text::occurs_at(word, trimmed(word), 0));
    } else if !alphanumeric(word.last()) {
        let inner = word.drop_last();
        law_trimmed_words(inner);
        let at = choose|at: int| crate::text::occurs_at(inner, trimmed(inner), at);
        let t = trimmed(inner);
        assert(word.subrange(at, at + t.len()) =~= inner.subrange(at, at + t.len()));
        assert(crate::text::occurs_at(word, t, at));
        if t.len() == 0 {
            assert forall|i: int| 0 <= i < word.len() implies !alphanumeric(#[trigger] word[i]) by {
                if i < inner.len() {
                    assert(inner[i] == word[i]);
                }
            }
        }
    } else if !alphanumeric(word[0]) {
        let inner = word.drop_first();
        law_trimmed_words(inner);
        let at = choose|at: int| crate::text::occurs_at(inner, trimmed(inner), at);
        let t = trimmed(inner);
        assert(word.subrange(at + 1, at + 1 + t.len()) =~= inner.subrange(at, at + t.len()));
        assert(crate::text::occurs_at(word, t, at + 1));
        if t.len() == 0 {
            assert forall|i: int| 0 <= i < word.len() implies !alphanumeric(#[trigger] word[i]) by {
                if i > 0 {
                    assert(inner[i - 1] == word[i]);
                }
            }
        }
    } else {
        assert(word.subrange(0, word.len() as int) =~= word);
        assert(crate::text::occurs_at(word, word, 0));
    }
}

/// Of the hits that have a node those come out that the filters accept, place by place.
proof fn lemma_accepted(hits: Seq<SearchHitView>, flags: Seq<bool>, i: int)
    requires
        flags.len() == hits.len(),
    ensures
        accepted(hits, flags).len() <= hits.len(),
        0 <= i < hits.len() && flags[i] ==> accepted(hits, flags).contains(hits[i]),
        0 <= i < accepted(hits, flags).len() ==> exists|k: int|
            0 <= k < hits.len() && #[trigger] flags[k] && hits[k] == accepted(hits, flags)[i],
    decreases hits.len(),
{
    if hits.len() > 0 {
        let before = hits.drop_last();
        let fewer = flags.take(hits.len() - 1);
        lemma_accepted(before, fewer, i);
        let all = accepted(hits, flags);
        let front = accepted(before, fewer);
        if 0 <= i < hits.len() && flags[i] {
            if i < before.len() {
                assert(fewer[i] == flags[i]);
                let m = choose|m: int| 0 <= m < front.len() && front[m] == before[i];
                assert(all[m] == hits[i]);
            } else {
                assert(all[all.len() - 1] == hits[i]);
            }
        }
        if 0 <= i < all.len() {
            if i < front.len() {
                let k = choose|k: int|
                    0 <= k < before.len() && #[trigger] fewer[k] && before[k] == front[i];
                assert(flags[k]);
                assert(hits[k] == all[i]);
            } else {
                assert(flags[hits.len() - 1]);
            }
        }
    }
}

/// A search for nodes gives hits that have a node and that the filters accept, at most as many as the
/// limit; it looks for three times as many if there are filters to pass.
pub proof fn law_searches_for_nodes(
    query: Seq<char>,
    limit: usize,
    threshold: u64,
    hits: Seq<SearchHitView>,
    flags: Seq<bool>,
    found: Seq<SearchHitView>,
    i: int,
)
    requires
        limit * 3 <= usize::MAX,
        flags.len() == with_node(hits).len(),
    ensures
        search_nodes_next(query, limit, threshold, None, Seq::empty()) == StepView::Ask(
            RequestView::SemanticSearch { query, limit, threshold },
        ),
        search_nodes_next(query, limit, threshold, Some(true), Seq::empty()) == StepView::Ask(
            RequestView::SemanticSearch { query, limit, threshold },
        ),
        search_nodes_next(query, limit, threshold, Some(false), Seq::empty()) == StepView::Ask(
            RequestView::SemanticSearch { query, limit: (limit * 3) as usize, threshold },
        ),
        search_nodes_next(query, limit, threshold, None, seq![ReplyView::Hits { hits }])
            == StepView::Finish(OutcomeView::Hits { hits: found }) ==> {
            &&& found.len() <= limit
            &&& 0 <= i < found.len() ==> found[i].node is Some && hits.contains(found[i])
            &&& 0 <= i < hits.len() && hits[i].node is Some && found.len() < limit ==> found.contains(
                hits[i],
            )
        },
        search_nodes_next(query, limit, threshold, Some(false), seq![ReplyView::Hits { hits }])
            matches StepView::Ask(RequestView::MatchFilters { nodes }) && nodes.len() == with_node(
            hits,
        ).len() && (0 <= i < nodes.len() ==> with_node(hits)[i].node == Some(nodes[i])),
        search_nodes_next(
            query,
            limit,
            threshold,
            Some(false),
            seq![ReplyView::Hits { hits }, ReplyView::Flags { values: flags }],
        ) == StepView::Finish(OutcomeView::Hits { hits: found }) ==> {
            &&& found.len() <= limit
            &&& 0 <= i < found.len() ==> found[i].node is Some && exists|k: int|
                0 <= k < flags.len() && #[trigger] flags[k] && with_node(hits)[k] == found[i]
            &&& 0 <= i < flags.len() && flags[i] && found.len() < limit ==> found.contains(
                with_node(hits)[i],
            )
        },
{
    let has = |h: SearchHitView| h.node is Some;
    let kept = with_node(hits);
    if 0 <= i < kept.len() {
        hits.lemma_filter_pred(has, i);
        hits.lemma_filter_contains_rev(has, kept[i]);
    }
    if 0 <= i < hits.len() && hits[i].node is Some {
        hits.lemma_filter_contains(has, i);
    }
    lemma_accepted(kept, flags, i);
    let log = seq![ReplyView::Hits { hits }, ReplyView::Flags { values: flags }];
    assert(log.skip(1)[0] == log[1]);
    assert forall|k: int| 0 <= k < kept.len() implies (#[trigger] kept[k]).node is Some by {
        hits.lemma_filter_pred(has, k);
    }
}

/// A search among the nodes of a type gives all hits that have a node, the best first.
pub proof fn law_searches_by_type(
    query: Seq<char>,
    node_type: Seq<char>,
    limit: usize,
    threshold: u64,
    hits: Seq<SearchHitView>,
    i: int,
    j: int,
)
    requires
        !blank(query),
    ensures
        typed_search_next(
            query,
            node_type,
            limit,
            threshold,
            seq![ReplyView::Done, ReplyView::Hits { hits }],
        ) matches StepView::Finish(OutcomeView::Hits { hits: found }) && (0 <= i < j < found.len()
            ==> hit_rank(found[i]) >= hit_rank(found[j])) && (0 <= i < found.len() ==> found[i].node
            is Some && hits.contains(found[i])) && (0 <= i < hits.len() && hits[i].node is Some
            ==> found.contains(hits[i])),
{
    broadcast use vstd::seq_lib::group_to_multiset_ensures;

    let log = seq![ReplyView::Done, ReplyView::Hits { hits }];
    assert(log.skip(1)[0] == log[1]);
    let has = |h: SearchHitView| h.node is Some;
    let kept = with_node(hits);
    let found = crate::hits::best_first(kept);
    law_best_first(kept);
    if 0 <= i < found.len() {
        assert(found.to_multiset().count(found[i]) > 0);
        assert(kept.contains(found[i]));
        let k = choose|k: int| 0 <= k < kept.len() && kept[k] == found[i];
        hits.lemma_filter_pred(has, k);
        hits.lemma_filter_contains_rev(has, found[i]);
    }
    if 0 <= i < hits.len() && hits[i].node is Some {
        hits.lemma_filter_contains(has, i);
        assert(kept.to_multiset().count(hits[i]) > 0);
        assert(found.contains(hits[i]));
    }
}

proof fn lemma_filled(
    results: Seq<SearchHitView>,
    ids: Seq<Seq<char>>,
    i: nat,
    log: Seq<ReplyView>,
    out: Seq<SearchHitView>,
    j: int,
)
    requires
        i <= ids.len(),
        search_fill_next(results, ids, i, log) == StepView::Finish(OutcomeView::Hits { hits: out }),
    ensures
        log.len() >= ids.len() - i,
        results.len() <= out.len(),
        forall|k: int| 0 <= k < results.len() ==> #[trigger] out[k] == results[k],
        i <= j < ids.len() ==> {
            &&& search_fill_next(results, ids, i, log.take(j - i)) == StepView::Ask(
                RequestView::LoadNode { id: ids[j] },
            )
            &&& log[j - i] is Node && log[j - i]->Node_node is Some ==> exists|k: int|
                0 <= k < out.len() && (#[trigger] out[k]).node_id == ids[j] && out[k].node
                    == log[j - i]->Node_node
        },
    decreases ids.len() - i,
{
    if i < ids.len() {
        let rest = log.skip(1);
        let more = match log[0] {
            ReplyView::Node { node: Some(node) } => results.push(keyword_hit(ids[i as int], node)),
            _ => results,
        };
        lemma_filled(more, ids, i + 1, rest, out, j);
        assert forall|k: int| 0 <= k < results.len() implies #[trigger] out[k] == results[k] by {
            assert(out[k] == more[k]);
        }
        if i < j < ids.len() {
            assert(log.take(j - i)[0] == log[0]);
            assert(log.take(j - i).skip(1) =~= rest.take(j - i - 1));
            assert(rest[j - i - 1] == log[j - i]);
        } else if i == j {
            assert(log.take(0).len() == 0);
            if let ReplyView::Node { node: Some(node) } = log[0] {
                assert(out[results.len() as int] == more[results.len() as int]);
            }
        }
    }
}

/// What follows the search itself, as a function of the replies.
pub open spec fn ranking(
    limit: usize,
    hits: Seq<SearchHitView>,
    keyword_roots: Seq<Seq<char>>,
) -> spec_fn(Seq<ReplyView>) -> StepView {
    |l: Seq<ReplyView>| search_rank_next(limit, hits, keyword_roots, l)
}

/// A root that the keywords alone found is looked up, unless there are as many results as the limit
/// allows; and it is among the results if it is there.
pub proof fn law_keyword_roots_are_found(
    limit: usize,
    hits: Seq<SearchHitView>,
    keyword_roots: Seq<Seq<char>>,
    log: Seq<ReplyView>,
    results: Seq<SearchHitView>,
    id: Seq<char>,
)
    requires
        search_rank_next(limit, hits, keyword_roots, log) == StepView::Finish(
            OutcomeView::Hits { hits: results },
        ),
        keyword_roots.contains(id),
        forall|k: int| 0 <= k < hits.len() ==> (#[trigger] hits[k]).node_id != id,
    ensures
        hits.len() + log.len() >= limit || exists|k: int|
            #[trigger] asked_at(
                ranking(limit, hits, keyword_roots),
                log,
                RequestView::LoadNode { id },
                k,
            ) && (log[k] matches ReplyView::Node { node: Some(node) } ==> exists|m: int|
                0 <= m < results.len() && (#[trigger] results[m]).node_id == id && results[m].node
                    == Some(node)),
{
    broadcast use vstd::seq_lib::group_to_multiset_ensures;

    let found = hits.map_values(|h: SearchHitView| h.node_id);
    let alone = |id: Seq<char>| !found.contains(id);
    let named = distinct(keyword_roots);
    let list = named.filter(alone);
    let ids = keyword_only(hits, keyword_roots, limit as int);
    let op = ranking(limit, hits, keyword_roots);
    lemma_distinct(keyword_roots);
    if found.contains(id) {
        let k = choose|k: int| 0 <= k < found.len() && found[k] == id;
        assert(hits[k].node_id == id);
    }
    assert(named.contains(id));
    let at = choose|at: int| 0 <= at < named.len() && named[at] == id;
    named.lemma_filter_contains(alone, at);
    assert(list.contains(id));
    law_sorted_texts(list);
    assert(list.to_multiset().count(id) > 0);
    assert(sorted_texts(list).contains(id));
    lemma_filled(tiers(hits, keyword_roots), ids, 0, log, results, 0);
    if hits.len() + log.len() < limit {
        assert(ids == sorted_texts(list));
        let j = choose|j: int| 0 <= j < ids.len() && ids[j] == id;
        lemma_filled(tiers(hits, keyword_roots), ids, 0, log, results, j);
        assert(asked_at(op, log, RequestView::LoadNode { id }, j));
    }
}

/// A title matches whatever its case: it does if a term occurs in its lower case, and two titles with
/// the same lower case match alike.
pub proof fn law_titles_match_whatever_their_case(
    title: Seq<char>,
    other: Seq<char>,
    terms: Seq<Seq<char>>,
    i: int,
)
    ensures
        0 <= i < terms.len() && contains_part(lowercase(title), terms[i]) ==> title_matches(
            title,
            terms,
        ),
        lowercase(title) == lowercase(other) ==> (title_matches(title, terms) <==> title_matches(
            other,
            terms,
        )),
        title_matches(title, terms) ==> exists|k: int|
            0 <= k < terms.len() && contains_part(lowercase(title), #[trigger] terms[k]),
{
}

} // verus!
