//! The words of a query, and lists of texts in order.

use crate::node::texts;
use crate::sequences::{is_order, lemma_placed_at, lemma_sorted_by, placed, sorted_by};
use crate::text::{
    alphanumeric, chars_of, contains_part, is_alphanumeric, is_whitespace, lemma_text_le_total,
    lemma_text_le_transitive, lowercase, text_at_most, text_contains, text_le, text_of,
    to_lowercase, whitespace,
};
use vstd::prelude::*;
use vstd::string::*;

verus! {

/// The parts of a text between its white space, with empty parts where two such characters meet.
pub open spec fn pieces(text: Seq<char>) -> Seq<Seq<char>>
    decreases text.len(),
{
    if text.len() == 0 {
        seq![Seq::empty()]
    } else {
        let before = pieces(text.drop_last());
        if whitespace(text.last()) {
            before.push(Seq::empty())
        } else {
            before.drop_last().push(before.last().push(text.last()))
        }
    }
}

/// A text without what stands before its first and behind its last letter or digit.
pub open spec fn trimmed(text: Seq<char>) -> Seq<char>
    decreases text.len(),
{
    if text.len() == 0 {
        text
    } else if !alphanumeric(text.last()) {
        trimmed(text.drop_last())
    } else if !alphanumeric(text[0]) {
        trimmed(text.drop_first())
    } else {
        text
    }
}

/// The terms of a query: its words without punctuation around them, in lower case.
pub open spec fn query_terms(query: Seq<char>) -> Seq<Seq<char>> {
    pieces(query).map_values(|w: Seq<char>| lowercase(trimmed(w))).filter(
        |t: Seq<char>| t.len() > 0,
    )
}

/// Some term of a query occurs in a title.
pub open spec fn title_matches(title: Seq<char>, terms: Seq<Seq<char>>) -> bool {
    exists|i: int| 0 <= i < terms.len() && contains_part(lowercase(title), #[trigger] terms[i])
}

fn split_words(text: &str) -> (r: Vec<Vec<char>>)
    ensures
        r@.map_values(|w: Vec<char>| w@) == pieces(text@),
{
    let chars = chars_of(text);
    let mut out: Vec<Vec<char>> = Vec::new();
    let mut current: Vec<char> = Vec::new();
    let mut i: usize = 0;
    proof {
        assert(chars@.take(0) =~= Seq::empty());
        assert(out@.map_values(|w: Vec<char>| w@).push(current@) =~= seq![Seq::empty()]);
    }
    while i < chars.len()
        invariant
            i <= chars@.len(),
            out@.map_values(|w: Vec<char>| w@).push(current@) == pieces(chars@.take(i as int)),
        decreases chars@.len() - i,
    {
        let ghost done = out@.map_values(|w: Vec<char>| w@);
        let ghost before = done.push(current@);
        proof {
            assert(chars@.take(i + 1).drop_last() =~= chars@.take(i as int));
            assert(before.drop_last() =~= done);
            assert(before.last() == current@);
        }
        if is_whitespace(chars[i]) {
            out.push(current);
            current = Vec::new();
            proof {
                assert(out@.map_values(|w: Vec<char>| w@) =~= before);
                assert(before.push(current@) =~= before.push(Seq::empty()));
            }
        } else {
            current.push(chars[i]);
        }
        i += 1;
    }
    let ghost done = out@.map_values(|w: Vec<char>| w@);
    let ghost last = current@;
    out.push(current);
    proof {
        assert(out@.map_values(|w: Vec<char>| w@) =~= done.push(last));
        assert(chars@.take(chars@.len() as int) =~= chars@);
    }
    out
}

fn trim(word: &Vec<char>) -> (r: Vec<char>)
    ensures
        r@ == trimmed(word@),
{
    let ghost all = word@;
    let mut end: usize = word.len();
    let mut start: usize = 0;
    proof {
        assert(all.subrange(0, all.len() as int) =~= all);
    }
    while start < end && !(is_alphanumeric(word[start]) && is_alphanumeric(word[end - 1]))
        invariant
            start <= end <= all.len() == word@.len(),
            word@ == all,
            trimmed(all) == trimmed(all.subrange(start as int, end as int)),
        decreases end - start,
    {
        proof {
            let part = all.subrange(start as int, end as int);
            assert(part.last() == all[end - 1]);
            assert(part[0] == all[start as int]);
            assert(part.drop_last() =~= all.subrange(start as int, end - 1));
            assert(part.drop_first() =~= all.subrange(start + 1, end as int));
        }
        if !is_alphanumeric(word[end - 1]) {
            end -= 1;
        } else {
            start += 1;
        }
    }
    let mut out: Vec<char> = Vec::new();
    let mut i: usize = start;
    while i < end
        invariant
            start <= i <= end <= all.len() == word@.len(),
            word@ == all,
            out@ == all.subrange(start as int, i as int),
        decreases end - i,
    {
        out.push(word[i]);
        i += 1;
    }
    proof {
        let part = all.subrange(start as int, end as int);
        if start < end {
            assert(part.last() == all[end - 1]);
            assert(part[0] == all[start as int]);
        }
        assert(trimmed(part) == part);
    }
    out
}

/// The terms of a query.
pub fn collect_terms(query: &str) -> (r: Vec<String>)
    ensures
        texts(r@) == query_terms(query@),
{
    let words = split_words(query);
    let ghost all = pieces(query@).map_values(|w: Seq<char>| lowercase(trimmed(w)));
    let ghost keep = |t: Seq<char>| t.len() > 0;
    let mut out: Vec<String> = Vec::new();
    let mut i: usize = 0;
    proof {
        reveal(Seq::filter);
        assert(texts(out@) =~= all.take(0).filter(keep));
    }
    while i < words.len()
        invariant
            i <= words@.len() == all.len(),
            words@.map_values(|w: Vec<char>| w@) == pieces(query@),
            texts(out@) == all.take(i as int).filter(keep),
        decreases words@.len() - i,
    {
        proof {
            reveal(Seq::filter);
            assert(all.take(i + 1).drop_last() =~= all.take(i as int));
            assert(pieces(query@)[i as int] == words@[i as int]@);
            assert(all.take(i + 1).last() == lowercase(trimmed(words@[i as int]@)));
        }
        let core = trim(&words[i]);
        let term = to_lowercase(text_of(&core).as_str());
        if !term.as_str().is_empty() {
            let ghost before = texts(out@);
            let ghost value = term@;
            out.push(term);
            proof {
                assert(texts(out@) =~= before.push(value));
            }
        }
        i += 1;
    }
    proof {
        assert(all.take(all.len() as int) =~= all);
    }
    out
}

/// Whether some term occurs in a title.
pub fn matches_title(title: &str, terms: &Vec<String>) -> (r: bool)
    ensures
        r == title_matches(title@, texts(terms@)),
{
    let ghost all = texts(terms@);
    let lower = to_lowercase(title);
    let mut i: usize = 0;
    while i < terms.len()
        invariant
            i <= terms@.len() == all.len(),
            lower@ == lowercase(title@),
            forall|j: int| 0 <= j < i ==> !contains_part(lowercase(title@), #[trigger] all[j]),
        decreases terms@.len() - i,
    {
        proof {
            assert(all[i as int] == terms@[i as int]@);
        }
        if text_contains(lower.as_str(), terms[i].as_str()) {
            return true;
        }
        i += 1;
    }
    false
}

/// The order of texts.
pub open spec fn text_order() -> spec_fn(Seq<char>, Seq<char>) -> bool {
    |a: Seq<char>, b: Seq<char>| text_le(a, b)
}

/// Texts in order.
pub open spec fn sorted_texts(list: Seq<Seq<char>>) -> Seq<Seq<char>> {
    sorted_by(list, text_order())
}

pub open spec fn is_sorted(list: Seq<Seq<char>>) -> bool {
    forall|i: int, j: int| 0 <= i <= j < list.len() ==> text_le(list[i], list[j])
}

/// Sorting keeps every text as often as it occurs, and puts them in order.
pub proof fn law_sorted_texts(list: Seq<Seq<char>>)
    ensures
        is_sorted(sorted_texts(list)),
        sorted_texts(list).to_multiset() == list.to_multiset(),
        sorted_texts(list).len() == list.len(),
{
    lemma_text_order();
    lemma_sorted_by(list, text_order());
}

proof fn lemma_text_order()
    ensures
        is_order(text_order()),
{
    let le = text_order();
    assert forall|a: Seq<char>, b: Seq<char>| #[trigger] le(a, b) || le(b, a) by {
        lemma_text_le_total(a, b);
    }
    assert forall|a: Seq<char>, b: Seq<char>, c: Seq<char>| #[trigger]
        le(a, b) && #[trigger] le(b, c) implies le(a, c) by {
        lemma_text_le_transitive(a, b, c);
    }
}

fn place_text(list: &mut Vec<String>, text: String)
    ensures
        texts(final(list)@) == placed(texts(old(list)@), text@, text_order()),
{
    let ghost all = texts(list@);
    let ghost value = text@;
    let mut at: usize = list.len();
    while at > 0 && !text_at_most(list[at - 1].as_str(), text.as_str())
        invariant
            at <= list@.len(),
            texts(list@) == all,
            value == text@,
            forall|j: int| at <= j < list@.len() ==> !text_le(#[trigger] all[j], value),
        decreases at,
    {
        at -= 1;
        proof {
            assert(all[at as int] == list@[at as int]@);
        }
    }
    proof {
        if at > 0 {
            assert(all[at - 1] == list@[at - 1]@);
        }
        lemma_placed_at(all, value, text_order(), at as int);
    }
    list.insert(at, text);
    proof {
        assert(texts(list@) =~= all.insert(at as int, value));
    }
}

/// Texts in order.
pub fn sort_texts(list: &Vec<String>) -> (r: Vec<String>)
    ensures
        texts(r@) == sorted_texts(texts(list@)),
{
    let ghost all = texts(list@);
    let mut out: Vec<String> = Vec::new();
    let mut i: usize = 0;
    proof {
        assert(all.take(0) =~= Seq::empty());
        assert(texts(out@) =~= Seq::empty());
    }
    while i < list.len()
        invariant
            i <= list@.len() == all.len(),
            texts(out@) == sorted_texts(all.take(i as int)),
        decreases list@.len() - i,
    {
        proof {
            assert(all.take(i + 1).drop_last() =~= all.take(i as int));
            assert(all.take(i + 1).last() == list@[i as int]@);
        }
        place_text(&mut out, list[i].clone());
        i += 1;
    }
    proof {
        assert(all.take(all.len() as int) =~= all);
    }
    out
}

} // verus!
