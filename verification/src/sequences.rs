//! Facts about sequences.

use vstd::prelude::*;

verus! {

/// What the first `i + 1` elements contain.
pub proof fn lemma_take_contains<T>(s: Seq<T>, i: int)
    requires
        0 <= i < s.len(),
    ensures
        forall|x: T| #[trigger] s.take(i + 1).contains(x) <==> s.take(i).contains(x) || x == s[i],
{
    assert(s.take(i + 1) =~= s.take(i).push(s[i]));
    assert forall|x: T| #[trigger] s.take(i + 1).contains(x) <==> s.take(i).contains(x) || x == s[i] by {
        if s.take(i).contains(x) {
            let j = choose|j: int| 0 <= j < s.take(i).len() && s.take(i)[j] == x;
            assert(s.take(i + 1)[j] == x);
        }
        if x == s[i] {
            assert(s.take(i + 1)[i] == x);
        }
        if s.take(i + 1).contains(x) {
            let longer = s.take(i + 1);
            let j = choose|j: int| 0 <= j < longer.len() && longer[j] == x;
            if j < i {
                assert(s.take(i)[j] == x);
            }
        }
    }
}

/// What a sequence contains with one more element at its end.
pub proof fn lemma_push_contains<T>(s: Seq<T>, y: T)
    ensures
        forall|x: T| #[trigger] s.push(y).contains(x) <==> s.contains(x) || x == y,
{
    assert(s.push(y).take(s.len() as int) =~= s);
    assert(s.push(y).take(s.len() as int + 1) =~= s.push(y));
    lemma_take_contains(s.push(y), s.len() as int);
}

/// The relation compares any two elements, and what it says of neighbours it says along a chain.
pub open spec fn is_order<T>(le: spec_fn(T, T) -> bool) -> bool {
    &&& forall|a: T, b: T| #[trigger] le(a, b) || le(b, a)
    &&& forall|a: T, b: T, c: T| #[trigger] le(a, b) && #[trigger] le(b, c) ==> le(a, c)
}

/// A sorted list with one more element: behind those that may stand before it.
pub open spec fn placed<T>(list: Seq<T>, item: T, le: spec_fn(T, T) -> bool) -> Seq<T>
    decreases list.len(),
{
    if list.len() == 0 || le(list.last(), item) {
        list.push(item)
    } else {
        placed(list.drop_last(), item, le).push(list.last())
    }
}

/// The elements in their order. Elements that are equal in it stay as they came.
pub open spec fn sorted_by<T>(list: Seq<T>, le: spec_fn(T, T) -> bool) -> Seq<T>
    decreases list.len(),
{
    if list.len() == 0 {
        Seq::empty()
    } else {
        placed(sorted_by(list.drop_last(), le), list.last(), le)
    }
}

pub open spec fn is_sorted_by<T>(list: Seq<T>, le: spec_fn(T, T) -> bool) -> bool {
    forall|i: int, j: int|
        0 <= i <= j < list.len() ==> le(#[trigger] list[i], #[trigger] list[j])
}

/// Sorting keeps every element as often as it occurs and puts the elements in order.
pub proof fn lemma_sorted_by<T>(list: Seq<T>, le: spec_fn(T, T) -> bool)
    requires
        is_order(le),
    ensures
        is_sorted_by(sorted_by(list, le), le),
        sorted_by(list, le).to_multiset() == list.to_multiset(),
        sorted_by(list, le).len() == list.len(),
    decreases list.len(),
{
    broadcast use vstd::seq_lib::group_to_multiset_ensures;

    if list.len() == 0 {
        assert(list =~= Seq::empty());
    } else {
        let before = list.drop_last();
        lemma_sorted_by(before, le);
        lemma_placed(sorted_by(before, le), list.last(), le);
        assert(list =~= before.push(list.last()));
    }
}

proof fn lemma_placed<T>(list: Seq<T>, item: T, le: spec_fn(T, T) -> bool)
    requires
        is_order(le),
        is_sorted_by(list, le),
    ensures
        is_sorted_by(placed(list, item, le), le),
        placed(list, item, le).len() == list.len() + 1,
        placed(list, item, le).to_multiset() == list.to_multiset().insert(item),
        forall|bound: T|
            #[trigger] le(item, bound) && (forall|i: int| 0 <= i < list.len() ==> le(#[trigger] list[i], bound))
                ==> forall|i: int|
                0 <= i < placed(list, item, le).len() ==> #[trigger] le(
                    placed(list, item, le)[i],
                    bound,
                ),
    decreases list.len(),
{
    broadcast use vstd::seq_lib::group_to_multiset_ensures;

    let result = placed(list, item, le);
    if list.len() > 0 && !le(list.last(), item) {
        let before = list.drop_last();
        let last = list.last();
        assert(last == list[list.len() - 1]);
        assert forall|i: int, j: int| 0 <= i <= j < before.len() implies le(
            #[trigger] before[i],
            #[trigger] before[j],
        ) by {
            assert(before[i] == list[i] && before[j] == list[j]);
        }
        lemma_placed(before, item, le);
        let inner = placed(before, item, le);
        assert(list =~= before.push(last));
        assert(result =~= inner.push(last));
        assert(result.to_multiset() =~= before.to_multiset().insert(item).insert(last));
        assert(list.to_multiset().insert(item) =~= before.to_multiset().insert(last).insert(item));
        assert(le(item, last));
        assert forall|i: int| 0 <= i < before.len() implies le(#[trigger] before[i], last) by {
            assert(before[i] == list[i]);
        }
        assert forall|i: int, j: int| 0 <= i <= j < result.len() implies le(
            #[trigger] result[i],
            #[trigger] result[j],
        ) by {
            if j < inner.len() {
                assert(le(inner[i], inner[j]));
            } else if i < inner.len() {
                assert(le(inner[i], last));
            } else {
                assert(le(last, last));
            }
        }
        assert forall|bound: T|
            #[trigger] le(item, bound) && (forall|i: int|
                0 <= i < list.len() ==> le(#[trigger] list[i], bound)) implies forall|i: int|
            0 <= i < result.len() ==> #[trigger] le(result[i], bound) by {
            assert(le(last, bound));
            assert forall|i: int| 0 <= i < before.len() implies le(#[trigger] before[i], bound) by {
                assert(before[i] == list[i]);
            }
            assert forall|i: int| 0 <= i < result.len() implies #[trigger] le(result[i], bound) by {
                if i < inner.len() {
                    assert(le(inner[i], bound));
                }
            }
        }
    } else {
        assert(result =~= list.push(item));
        assert forall|i: int, j: int| 0 <= i <= j < result.len() implies le(
            #[trigger] result[i],
            #[trigger] result[j],
        ) by {
            assert(le(item, item));
            if j < list.len() {
                assert(le(list[i], list[j]));
            } else if i < list.len() {
                assert(le(list[i], list[list.len() - 1]));
                assert(le(list.last(), item));
            }
        }
    }
}

/// A sorted list stays as it is.
pub proof fn lemma_sorted_stays<T>(list: Seq<T>, le: spec_fn(T, T) -> bool)
    requires
        is_sorted_by(list, le),
    ensures
        sorted_by(list, le) == list,
    decreases list.len(),
{
    if list.len() == 0 {
        assert(list =~= Seq::empty());
    } else {
        let before = list.drop_last();
        assert forall|i: int, j: int| 0 <= i <= j < before.len() implies le(
            #[trigger] before[i],
            #[trigger] before[j],
        ) by {
            assert(before[i] == list[i] && before[j] == list[j]);
        }
        lemma_sorted_stays(before, le);
        if before.len() > 0 {
            assert(before.last() == list[list.len() - 2]);
            assert(list.last() == list[list.len() - 1]);
        }
        assert(before.push(list.last()) =~= list);
    }
}

/// Elements that are equal in the order keep the sequence in which they came.
pub proof fn lemma_sorted_stable<T>(
    list: Seq<T>,
    le: spec_fn(T, T) -> bool,
    equal: spec_fn(T) -> bool,
)
    requires
        forall|a: T, b: T| equal(a) && equal(b) ==> #[trigger] le(a, b),
    ensures
        sorted_by(list, le).filter(equal) == list.filter(equal),
    decreases list.len(),
{
    reveal(Seq::filter);
    if list.len() > 0 {
        let before = list.drop_last();
        lemma_sorted_stable(before, le, equal);
        lemma_placed_stable(sorted_by(before, le), list.last(), le, equal);
        lemma_filter_push(sorted_by(before, le), list.last(), equal);
        lemma_filter_push(before, list.last(), equal);
        assert(list =~= before.push(list.last()));
    }
}

proof fn lemma_placed_stable<T>(
    list: Seq<T>,
    item: T,
    le: spec_fn(T, T) -> bool,
    equal: spec_fn(T) -> bool,
)
    requires
        forall|a: T, b: T| equal(a) && equal(b) ==> #[trigger] le(a, b),
    ensures
        placed(list, item, le).filter(equal) == list.push(item).filter(equal),
    decreases list.len(),
{
    if list.len() > 0 && !le(list.last(), item) {
        let before = list.drop_last();
        let last = list.last();
        lemma_placed_stable(before, item, le, equal);
        assert(list =~= before.push(last));
        lemma_filter_push(placed(before, item, le), last, equal);
        lemma_filter_push(before, item, equal);
        lemma_filter_push(before, last, equal);
        lemma_filter_push(list, item, equal);
    }
}

proof fn lemma_filter_push<T>(list: Seq<T>, item: T, p: spec_fn(T) -> bool)
    ensures
        list.push(item).filter(p) == (if p(item) {
            list.filter(p).push(item)
        } else {
            list.filter(p)
        }),
{
    reveal(Seq::filter);
    assert(list.push(item).drop_last() =~= list);
}

/// The place of an element: what stands before it may, and what stands behind may not.
pub proof fn lemma_placed_at<T>(list: Seq<T>, item: T, le: spec_fn(T, T) -> bool, at: int)
    requires
        0 <= at <= list.len(),
        at > 0 ==> le(list[at - 1], item),
        forall|j: int| at <= j < list.len() ==> !le(#[trigger] list[j], item),
    ensures
        placed(list, item, le) == list.insert(at, item),
    decreases list.len(),
{
    if at < list.len() {
        let before = list.drop_last();
        assert(list.last() == list[list.len() - 1]);
        assert forall|j: int| at <= j < before.len() implies !le(#[trigger] before[j], item) by {
            assert(before[j] == list[j]);
        }
        lemma_placed_at(before, item, le, at);
        assert(before.insert(at, item).push(list.last()) =~= list.insert(at, item));
    } else {
        assert(list.insert(at, item) =~= list.push(item));
    }
}

} // verus!
