//! The list of all schemas, in the order of their identifiers.

use crate::json::{lemma_list_view, list_view, Json, Value};
use crate::sequences::{lemma_placed_at, lemma_sorted_by, lemma_sorted_stays, placed, sorted_by};
use crate::text::{lemma_text_le_total, lemma_text_le_transitive, text_at_most, text_le};
use vstd::prelude::*;
use vstd::string::*;

verus! {

/// The identifier of a record. One that names none counts as empty.
pub open spec fn record_id(record: Json) -> Seq<char> {
    match record.member("id"@) {
        Some(Json::Text(id)) => id,
        _ => ""@,
    }
}

/// The order of records: that of their identifiers.
pub open spec fn record_order() -> spec_fn(Json, Json) -> bool {
    |a: Json, b: Json| text_le(record_id(a), record_id(b))
}

/// Records in the order of their identifiers.
pub open spec fn by_id(list: Seq<Json>) -> Seq<Json> {
    sorted_by(list, record_order())
}

pub open spec fn is_by_id(list: Seq<Json>) -> bool {
    forall|i: int, j: int|
        0 <= i <= j < list.len() ==> text_le(
            record_id(#[trigger] list[i]),
            record_id(#[trigger] list[j]),
        )
}

/// Every record is kept as often as it occurs, and they are in the order of their identifiers.
pub proof fn law_records_are_in_order(list: Seq<Json>)
    ensures
        is_by_id(by_id(list)),
        by_id(list).to_multiset() == list.to_multiset(),
        by_id(list).len() == list.len(),
{
    let le = record_order();
    assert forall|a: Json, b: Json| #[trigger] le(a, b) || le(b, a) by {
        lemma_text_le_total(record_id(a), record_id(b));
    }
    assert forall|a: Json, b: Json, c: Json| #[trigger] le(a, b) && #[trigger] le(b, c) implies le(
        a,
        c,
    ) by {
        lemma_text_le_transitive(record_id(a), record_id(b), record_id(c));
    }
    lemma_sorted_by(list, le);
    let sorted = by_id(list);
    assert forall|i: int, j: int| 0 <= i <= j < sorted.len() implies text_le(
        record_id(#[trigger] sorted[i]),
        record_id(#[trigger] sorted[j]),
    ) by {
        assert(le(sorted[i], sorted[j]));
    }
}

/// Records that are in order stay as they are.
pub proof fn law_ordered_records_stay(list: Seq<Json>)
    requires
        is_by_id(list),
    ensures
        by_id(list) == list,
{
    lemma_sorted_stays(list, record_order());
}

fn id_of(record: &Value) -> (r: &str)
    ensures
        r@ == record_id(record@),
{
    match record.get("id") {
        Some(id) => match id.as_str() {
            Some(text) => text,
            None => "",
        },
        None => "",
    }
}

fn place_record(list: &mut Vec<Value>, record: Value)
    ensures
        list_view(final(list)@) == placed(list_view(old(list)@), record@, record_order()),
{
    let ghost all = list_view(list@);
    let ghost value = record@;
    let mut at: usize = list.len();
    proof {
        lemma_list_view(list@);
    }
    while at > 0 && !text_at_most(id_of(&list[at - 1]), id_of(&record))
        invariant
            at <= list@.len() == all.len(),
            list_view(list@) == all,
            value == record@,
            forall|j: int| 0 <= j < list@.len() ==> all[j] == (#[trigger] list@[j])@,
            forall|j: int|
                at <= j < list@.len() ==> !text_le(record_id(#[trigger] all[j]), record_id(value)),
        decreases at,
    {
        at -= 1;
        proof {
            assert(all[at as int] == list@[at as int]@);
        }
    }
    proof {
        if at > 0 {
            assert(all[at - 1] == list@[at - 1]@);
        }
        lemma_placed_at(all, value, record_order(), at as int);
    }
    let ghost before = list@;
    list.insert(at, record);
    proof {
        lemma_list_view(list@);
        assert forall|j: int| 0 <= j < list@.len() implies #[trigger] list_view(list@)[j]
            == all.insert(at as int, value)[j] by {
            assert(list@[j]@ == list_view(list@)[j]);
            if j < at {
                assert(all[j] == before[j]@);
            } else if j > at {
                assert(all[j - 1] == before[j - 1]@);
            }
        }
        assert(list_view(list@) =~= all.insert(at as int, value));
    }
}

/// Records in the order of their identifiers.
pub fn sort_by_id(list: &Vec<Value>) -> (r: Vec<Value>)
    ensures
        list_view(r@) == by_id(list_view(list@)),
{
    let ghost all = list_view(list@);
    let mut out: Vec<Value> = Vec::new();
    let mut i: usize = 0;
    proof {
        lemma_list_view(list@);
        assert(all.take(0) =~= Seq::empty());
        assert(list_view(out@) =~= Seq::empty());
    }
    while i < list.len()
        invariant
            i <= list@.len() == all.len(),
            forall|j: int| 0 <= j < list@.len() ==> all[j] == (#[trigger] list@[j])@,
            list_view(out@) == by_id(all.take(i as int)),
        decreases list@.len() - i,
    {
        proof {
            assert(all.take(i + 1).drop_last() =~= all.take(i as int));
            assert(all.take(i + 1).last() == list@[i as int]@);
        }
        place_record(&mut out, (&list[i]).clone());
        i += 1;
    }
    proof {
        assert(all.take(all.len() as int) =~= all);
    }
    out
}

} // verus!
