//! What searches find, and in which order.

use crate::json::Number;
use crate::node::{optional_node, texts, Node, NodeView};
use crate::ranking::rank_of;
use crate::sequences::{lemma_placed_at, lemma_sorted_by, placed, sorted_by};
use crate::text::same_text;
use vstd::prelude::*;
use vstd::string::*;

verus! {

/// A root that a search found. Scores are 64-bit IEEE 754 numbers.
#[derive(Debug)]
pub struct SearchHit {
    pub node_id: String,
    pub score: Number,
    pub max_similarity: Number,
    pub matching_chunks: i64,
    pub node: Option<Node>,
}

#[verifier::ext_equal]
pub struct SearchHitView {
    pub node_id: Seq<char>,
    pub score: Number,
    pub max_similarity: Number,
    pub matching_chunks: i64,
    pub node: Option<NodeView>,
}

impl View for SearchHit {
    type V = SearchHitView;

    open spec fn view(&self) -> SearchHitView {
        SearchHitView {
            node_id: self.node_id@,
            score: self.score,
            max_similarity: self.max_similarity,
            matching_chunks: self.matching_chunks,
            node: optional_node(self.node),
        }
    }
}

impl Clone for SearchHit {
    fn clone(&self) -> (r: SearchHit)
        ensures
            r@ == self@,
    {
        SearchHit {
            node_id: self.node_id.clone(),
            score: self.score,
            max_similarity: self.max_similarity,
            matching_chunks: self.matching_chunks,
            node: match &self.node {
                Some(n) => Some(n.clone()),
                None => None,
            },
        }
    }
}

pub open spec fn hit_views(hits: Seq<SearchHit>) -> Seq<SearchHitView> {
    hits.map_values(|h: SearchHit| h@)
}

/// The place of a hit among others. A score that is no number counts as zero.
pub open spec fn hit_rank(hit: SearchHitView) -> int {
    match rank_of(hit.score) {
        Some(rank) => rank,
        None => 0,
    }
}

/// The order of hits: better ones stand first.
pub open spec fn hit_order() -> spec_fn(SearchHitView, SearchHitView) -> bool {
    |a: SearchHitView, b: SearchHitView| hit_rank(a) >= hit_rank(b)
}

/// Hits with the best first. Hits that are equally good stay as they came.
pub open spec fn best_first(list: Seq<SearchHitView>) -> Seq<SearchHitView> {
    sorted_by(list, hit_order())
}

pub open spec fn is_best_first(list: Seq<SearchHitView>) -> bool {
    forall|i: int, j: int| 0 <= i <= j < list.len() ==> hit_rank(list[i]) >= hit_rank(list[j])
}

/// Ranking keeps every hit as often as it occurs and puts better ones first.
pub proof fn law_best_first(list: Seq<SearchHitView>)
    ensures
        is_best_first(best_first(list)),
        best_first(list).to_multiset() == list.to_multiset(),
        best_first(list).len() == list.len(),
{
    lemma_sorted_by(list, hit_order());
}

fn rank_of_hit(hit: &SearchHit) -> (r: i64)
    ensures
        r == hit_rank(hit@),
{
    match hit.score.rank() {
        Some(rank) => rank,
        None => 0,
    }
}

fn rank_in(list: &mut Vec<SearchHit>, hit: SearchHit)
    ensures
        hit_views(final(list)@) == placed(hit_views(old(list)@), hit@, hit_order()),
{
    let ghost all = hit_views(list@);
    let ghost value = hit@;
    let rank: i64 = rank_of_hit(&hit);
    let mut at: usize = list.len();
    while at > 0 && rank_of_hit(&list[at - 1]) < rank
        invariant
            at <= list@.len(),
            rank == hit_rank(value),
            hit_views(list@) == all,
            forall|j: int| at <= j < list@.len() ==> hit_rank(#[trigger] all[j]) < rank,
        decreases at,
    {
        at -= 1;
        proof {
            assert(all[at as int] == list@[at as int]@);
        }
    }
    proof {
        if at > 0 {
            assert(all[at - 1] == list@[at - 1]@);
        }
        lemma_placed_at(all, value, hit_order(), at as int);
    }
    list.insert(at, hit);
    proof {
        assert(hit_views(list@) =~= all.insert(at as int, value));
    }
}

pub fn rank_all(hits: &Vec<SearchHit>) -> (r: Vec<SearchHit>)
    ensures
        hit_views(r@) == best_first(hit_views(hits@)),
{
    let ghost all = hit_views(hits@);
    let mut out: Vec<SearchHit> = Vec::new();
    let mut i: usize = 0;
    proof {
        assert(all.take(0) =~= Seq::empty());
        assert(hit_views(out@) =~= Seq::empty());
    }
    while i < hits.len()
        invariant
            i <= hits@.len() == all.len(),
            hit_views(out@) == best_first(all.take(i as int)),
        decreases hits@.len() - i,
    {
        proof {
            assert(all.take(i + 1).drop_last() =~= all.take(i as int));
            assert(all.take(i + 1).last() == hits@[i as int]@);
        }
        rank_in(&mut out, hits[i].clone());
        i += 1;
    }
    proof {
        assert(all.take(all.len() as int) =~= all);
    }
    out
}

/// Whether a list of identifiers has the one of a hit.
pub open spec fn is_listed(ids: Seq<Seq<char>>, hit: SearchHitView) -> bool {
    ids.contains(hit.node_id)
}

/// Hits in two tiers, each with the best first: those that the keywords found too, then the others.
pub open spec fn tiers(hits: Seq<SearchHitView>, keyword_roots: Seq<Seq<char>>) -> Seq<
    SearchHitView,
> {
    best_first(hits.filter(|h: SearchHitView| is_listed(keyword_roots, h))) + best_first(
        hits.filter(|h: SearchHitView| !is_listed(keyword_roots, h)),
    )
}

pub fn lists(ids: &Vec<String>, id: &str) -> (r: bool)
    ensures
        r == texts(ids@).contains(id@),
{
    let ghost all = texts(ids@);
    let mut i: usize = 0;
    while i < ids.len()
        invariant
            i <= ids@.len() == all.len(),
            forall|j: int| 0 <= j < i ==> #[trigger] all[j] != id@,
        decreases ids@.len() - i,
    {
        proof {
            assert(all[i as int] == ids@[i as int]@);
        }
        if same_text(ids[i].as_str(), id) {
            return true;
        }
        i += 1;
    }
    false
}

fn rank_part(hits: &Vec<SearchHit>, keyword_roots: &Vec<String>, listed: bool) -> (r: Vec<SearchHit>)
    ensures
        hit_views(r@) == best_first(
            hit_views(hits@).filter(
                |h: SearchHitView| is_listed(texts(keyword_roots@), h) == listed,
            ),
        ),
{
    let ghost all = hit_views(hits@);
    let ghost keep = |h: SearchHitView| is_listed(texts(keyword_roots@), h) == listed;
    let mut out: Vec<SearchHit> = Vec::new();
    let mut i: usize = 0;
    proof {
        reveal(Seq::filter);
        assert(all.take(0).filter(keep) =~= Seq::empty());
        assert(hit_views(out@) =~= Seq::empty());
    }
    while i < hits.len()
        invariant
            i <= hits@.len() == all.len(),
            hit_views(out@) == best_first(all.take(i as int).filter(keep)),
        decreases hits@.len() - i,
    {
        proof {
            reveal(Seq::filter);
            assert(all.take(i + 1).drop_last() =~= all.take(i as int));
            assert(all.take(i + 1).last() == hits@[i as int]@);
        }
        if lists(keyword_roots, hits[i].node_id.as_str()) == listed {
            let ghost kept = all.take(i as int).filter(keep);
            proof {
                assert(kept.push(hits@[i as int]@).drop_last() =~= kept);
            }
            rank_in(&mut out, hits[i].clone());
        }
        i += 1;
    }
    proof {
        assert(all.take(all.len() as int) =~= all);
    }
    out
}

pub fn rank_tiers(hits: &Vec<SearchHit>, keyword_roots: &Vec<String>) -> (r: Vec<SearchHit>)
    ensures
        hit_views(r@) == tiers(hit_views(hits@), texts(keyword_roots@)),
{
    let ghost all = hit_views(hits@);
    let ghost ids = texts(keyword_roots@);
    let mut first = rank_part(hits, keyword_roots, true);
    let second = rank_part(hits, keyword_roots, false);
    proof {
        lemma_same_filter(
            all,
            |h: SearchHitView| is_listed(ids, h) == true,
            |h: SearchHitView| is_listed(ids, h),
        );
        lemma_same_filter(
            all,
            |h: SearchHitView| is_listed(ids, h) == false,
            |h: SearchHitView| !is_listed(ids, h),
        );
    }
    let ghost top = hit_views(first@);
    let ghost bottom = hit_views(second@);
    let mut i: usize = 0;
    while i < second.len()
        invariant
            i <= second@.len() == bottom.len(),
            hit_views(second@) == bottom,
            hit_views(first@) == top + bottom.take(i as int),
        decreases second@.len() - i,
    {
        let ghost before = hit_views(first@);
        first.push(second[i].clone());
        proof {
            assert(bottom.take(i + 1) =~= bottom.take(i as int).push(second@[i as int]@));
            assert(hit_views(first@) =~= before.push(second@[i as int]@));
            assert(hit_views(first@) =~= top + bottom.take(i + 1));
        }
        i += 1;
    }
    proof {
        assert(bottom.take(bottom.len() as int) =~= bottom);
    }
    first
}

proof fn lemma_same_filter(
    list: Seq<SearchHitView>,
    p: spec_fn(SearchHitView) -> bool,
    q: spec_fn(SearchHitView) -> bool,
)
    requires
        forall|h: SearchHitView| #[trigger] p(h) == #[trigger] q(h),
    ensures
        list.filter(p) == list.filter(q),
    decreases list.len(),
{
    reveal(Seq::filter);
    if list.len() > 0 {
        lemma_same_filter(list.drop_last(), p, q);
    }
}

/// Tiers keep every hit as often as it occurs. What keywords found comes before what they did not
/// find, and within a tier better hits come first.
pub proof fn law_tiers(hits: Seq<SearchHitView>, keyword_roots: Seq<Seq<char>>, i: int, j: int)
    requires
        0 <= i < j < tiers(hits, keyword_roots).len(),
    ensures
        tiers(hits, keyword_roots).to_multiset() == hits.to_multiset(),
        ({
            let a = tiers(hits, keyword_roots)[i];
            let b = tiers(hits, keyword_roots)[j];
            &&& is_listed(keyword_roots, b) ==> is_listed(keyword_roots, a)
            &&& is_listed(keyword_roots, a) == is_listed(keyword_roots, b) ==> hit_rank(a)
                >= hit_rank(b)
        }),
{
    broadcast use vstd::seq_lib::group_to_multiset_ensures;

    let both = |h: SearchHitView| is_listed(keyword_roots, h);
    let only = |h: SearchHitView| !is_listed(keyword_roots, h);
    let first = hits.filter(both);
    let second = hits.filter(only);
    law_best_first(first);
    law_best_first(second);
    lemma_partition(hits, keyword_roots);
    vstd::seq_lib::lemma_multiset_commutative(best_first(first), best_first(second));
    assert(tiers(hits, keyword_roots) == best_first(first) + best_first(second));
    let x = best_first(first);
    let y = best_first(second);
    assert forall|k: int| 0 <= k < x.len() implies is_listed(keyword_roots, #[trigger] x[k]) by {
        assert(x.to_multiset().count(x[k]) > 0);
        assert(first.to_multiset().count(x[k]) > 0);
        assert(first.contains(x[k]));
        let m = choose|m: int| 0 <= m < first.len() && first[m] == x[k];
        hits.lemma_filter_pred(both, m);
    }
    assert forall|k: int| 0 <= k < y.len() implies !is_listed(keyword_roots, #[trigger] y[k]) by {
        assert(y.to_multiset().count(y[k]) > 0);
        assert(second.to_multiset().count(y[k]) > 0);
        assert(second.contains(y[k]));
        let m = choose|m: int| 0 <= m < second.len() && second[m] == y[k];
        hits.lemma_filter_pred(only, m);
    }
    let all = tiers(hits, keyword_roots);
    if j < x.len() {
        assert(all[i] == x[i] && all[j] == x[j]);
    } else if i >= x.len() {
        assert(all[i] == y[i - x.len()] && all[j] == y[j - x.len()]);
    } else {
        assert(all[i] == x[i] && all[j] == y[j - x.len()]);
    }
}

proof fn lemma_partition(hits: Seq<SearchHitView>, keyword_roots: Seq<Seq<char>>)
    ensures
        hits.filter(|h: SearchHitView| is_listed(keyword_roots, h)).to_multiset().add(
            hits.filter(|h: SearchHitView| !is_listed(keyword_roots, h)).to_multiset(),
        ) == hits.to_multiset(),
    decreases hits.len(),
{
    broadcast use vstd::seq_lib::group_to_multiset_ensures;

    reveal(Seq::filter);
    let both = |h: SearchHitView| is_listed(keyword_roots, h);
    let only = |h: SearchHitView| !is_listed(keyword_roots, h);
    if hits.len() == 0 {
        assert(hits.filter(both) =~= Seq::empty());
        assert(hits.filter(only) =~= Seq::empty());
        assert(hits =~= Seq::empty());
        assert(hits.filter(both).to_multiset().add(hits.filter(only).to_multiset())
            =~= hits.to_multiset());
    } else {
        let before = hits.drop_last();
        let last = hits.last();
        lemma_partition(before, keyword_roots);
        assert(hits =~= before.push(last));
        assert(hits.to_multiset() =~= before.to_multiset().insert(last));
        if both(last) {
            assert(hits.filter(both) =~= before.filter(both).push(last));
            assert(hits.filter(only) =~= before.filter(only));
            assert(before.filter(both).to_multiset().insert(last).add(
                before.filter(only).to_multiset(),
            ) =~= before.filter(both).to_multiset().add(before.filter(only).to_multiset()).insert(
                last,
            ));
        } else {
            assert(hits.filter(only) =~= before.filter(only).push(last));
            assert(hits.filter(both) =~= before.filter(both));
            assert(before.filter(both).to_multiset().add(
                before.filter(only).to_multiset().insert(last),
            ) =~= before.filter(both).to_multiset().add(before.filter(only).to_multiset()).insert(
                last,
            ));
        }
    }
}

} // verus!
