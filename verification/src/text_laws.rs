//! What texts, identifiers and orders promise.

use crate::hits::{best_first, hit_rank, SearchHitView};
use crate::ids::{
    calendar_date, date_shape, dashed, day_in, days_in_month, hyphenated_uuid, is_hex, leap_year,
    lower_uuid, month_in, schema_id, squeezed, uuid_text, valid_date, valid_node_id, year_in,
};
use crate::json::Number;
use crate::mentions::{law_mention_list, mention_list, PatternMatchView};
use crate::node::{NodeUpdateView, TaskNodeUpdateView};
use crate::protocol::{RequestView, StepView};
use crate::ranking::rank_of;
use crate::tasks::update_task_node_next;
use crate::text::{alphanumeric, is_digit, lowercase, text_le};
use crate::update::update_next;
use vstd::prelude::*;

verus! {

proof fn lemma_filter_parts(a: Seq<char>, b: Seq<char>, p: spec_fn(char) -> bool)
    ensures
        (a + b).filter(p) == a.filter(p) + b.filter(p),
{
    Seq::filter_distributes_over_add(a, b, p);
}

proof fn lemma_filter_whole(a: Seq<char>, p: spec_fn(char) -> bool)
    requires
        forall|i: int| 0 <= i < a.len() ==> p(#[trigger] a[i]),
    ensures
        a.filter(p) == a,
    decreases a.len(),
{
    reveal(Seq::filter);
    if a.len() > 0 {
        assert forall|i: int| 0 <= i < a.drop_last().len() implies p(#[trigger] a.drop_last()[i]) by {
            assert(a.drop_last()[i] == a[i]);
        }
        lemma_filter_whole(a.drop_last(), p);
        assert(p(a[a.len() - 1]));
        assert(a.drop_last().push(a.last()) =~= a);
    } else {
        assert(a.filter(p) =~= a);
    }
}

proof fn lemma_squeezed_word(word: Seq<char>)
    requires
        forall|i: int| 0 <= i < word.len() ==> #[trigger] word[i] != '-',
    ensures
        squeezed(word) == word,
    decreases word.len(),
{
    if word.len() > 0 {
        assert forall|i: int| 0 <= i < word.drop_last().len() implies #[trigger] word.drop_last()[i]
            != '-' by {
            assert(word.drop_last()[i] == word[i]);
        }
        lemma_squeezed_word(word.drop_last());
        assert(word[word.len() - 1] != '-');
        if word.len() >= 2 {
            assert(word[word.len() - 2] != '-');
        }
        assert(word.drop_last().push(word.last()) =~= word);
    } else {
        assert(squeezed(word) =~= word);
    }
}

proof fn lemma_squeezed_words(a: Seq<char>, b: Seq<char>)
    requires
        a.len() > 0,
        b.len() > 0,
        forall|i: int| 0 <= i < a.len() ==> #[trigger] a[i] != '-',
        forall|i: int| 0 <= i < b.len() ==> #[trigger] b[i] != '-',
    ensures
        squeezed(a.push('-') + b) == a.push('-') + b,
    decreases b.len(),
{
    let whole = a.push('-') + b;
    let front = b.drop_last();
    assert(whole.drop_last() =~= a.push('-') + front);
    assert(b[b.len() - 1] != '-');
    if front.len() > 0 {
        assert forall|i: int| 0 <= i < front.len() implies #[trigger] front[i] != '-' by {
            assert(front[i] == b[i]);
        }
        lemma_squeezed_words(a, front);
        assert(whole[whole.len() - 2] == b[b.len() - 2]);
        assert((a.push('-') + front).push(b.last()) =~= whole);
    } else {
        lemma_squeezed_word(a);
        assert(a.push('-') + front =~= a.push('-'));
        assert(a.push('-').drop_last() =~= a);
        assert(squeezed(a.push('-')) == a);
        assert(whole[whole.len() - 2] == '-');
        assert(a.push('-').push(b.last()) =~= whole);
    }
}

/// The identifier of a schema is its name in lower case with a hyphen for a space, an underscore or a
/// hyphen between two words, and without anything that is no letter or digit.
pub proof fn law_schema_ids_join_words(name: Seq<char>, a: Seq<char>, between: char, b: Seq<char>)
    requires
        lowercase(name) == a.push(between) + b,
        a.len() > 0,
        b.len() > 0,
        forall|i: int| 0 <= i < a.len() ==> alphanumeric(#[trigger] a[i]) && a[i] != '-' && a[i] != ' '
            && a[i] != '_',
        forall|i: int| 0 <= i < b.len() ==> alphanumeric(#[trigger] b[i]) && b[i] != '-' && b[i] != ' '
            && b[i] != '_',
    ensures
        between == ' ' || between == '_' || between == '-' ==> schema_id(name) == a.push('-') + b,
        !alphanumeric(between) && between != ' ' && between != '_' && between != '-' ==> schema_id(name)
            == a + b,
{
    let keep = |c: char| alphanumeric(c) || c == '-';
    let low = lowercase(name);
    let hyphen = if between == ' ' || between == '_' {
        '-'
    } else {
        between
    };
    let kept = dashed(low).filter(keep);
    assert(dashed(low) =~= a + seq![hyphen] + b);
    lemma_kept(a, hyphen, b, keep);
    if between == ' ' || between == '_' || between == '-' {
        assert(kept == a.push('-') + b);
        assert(squeezed(kept) == kept) by {
            lemma_squeezed_words(a, b);
        }
    } else if !alphanumeric(between) {
        assert(kept == a + b);
        assert(squeezed(kept) == kept) by {
            let whole = a + b;
            assert forall|i: int| 0 <= i < whole.len() implies #[trigger] whole[i] != '-' by {
                if i < a.len() {
                    assert(whole[i] == a[i]);
                } else {
                    assert(whole[i] == b[i - a.len()]);
                }
            }
            lemma_squeezed_word(whole);
        }
    }
}

proof fn lemma_kept(a: Seq<char>, c: char, b: Seq<char>, keep: spec_fn(char) -> bool)
    requires
        forall|i: int| 0 <= i < a.len() ==> keep(#[trigger] a[i]),
        forall|i: int| 0 <= i < b.len() ==> keep(#[trigger] b[i]),
    ensures
        keep(c) ==> (a + seq![c] + b).filter(keep) == a.push(c) + b,
        !keep(c) ==> (a + seq![c] + b).filter(keep) == a + b,
{
    lemma_filter_parts(a + seq![c], b, keep);
    lemma_filter_parts(a, seq![c], keep);
    lemma_filter_whole(a, keep);
    lemma_filter_whole(b, keep);
    lemma_filter_one(c, keep);
    if keep(c) {
        assert(a + seq![c] =~= a.push(c));
    } else {
        assert(a + Seq::empty() =~= a);
    }
}

proof fn lemma_filter_one(c: char, keep: spec_fn(char) -> bool)
    ensures
        seq![c].filter(keep) == (if keep(c) {
            seq![c]
        } else {
            Seq::empty()
        }),
{
    reveal_with_fuel(Seq::filter, 2);
    assert(seq![c].drop_last() =~= Seq::empty());
    assert(Seq::<char>::empty().push(c) =~= seq![c]);
}

/// The identifier of a schema whose name is one word is the word in lower case.
pub proof fn law_schema_ids_keep_words(name: Seq<char>)
    requires
        forall|i: int| 0 <= i < lowercase(name).len() ==> alphanumeric(#[trigger] lowercase(name)[i])
            && lowercase(name)[i] != '-' && lowercase(name)[i] != ' ' && lowercase(name)[i] != '_',
    ensures
        schema_id(name) == lowercase(name),
{
    let keep = |c: char| alphanumeric(c) || c == '-';
    assert(dashed(lowercase(name)) =~= lowercase(name));
    lemma_filter_whole(lowercase(name), keep);
    lemma_squeezed_word(lowercase(name));
}

/// A year has 365 days, one more every four years, but not every hundred, but every four hundred.
pub proof fn law_years(year: int)
    ensures
        days_in_month(year, 1) + days_in_month(year, 2) + days_in_month(year, 3) + days_in_month(
            year,
            4,
        ) + days_in_month(year, 5) + days_in_month(year, 6) + days_in_month(year, 7) + days_in_month(
            year,
            8,
        ) + days_in_month(year, 9) + days_in_month(year, 10) + days_in_month(year, 11)
            + days_in_month(year, 12) == (if leap_year(year) {
            366
        } else {
            365int
        }),
        year % 4 != 0 ==> !leap_year(year),
        year % 4 == 0 && year % 100 != 0 ==> leap_year(year),
        year % 100 == 0 ==> (leap_year(year) <==> year % 400 == 0),
        days_in_month(year, 1) == 31,
        days_in_month(year, 4) == 30,
        days_in_month(year, 8) == 31,
        days_in_month(year, 9) == 30,
        days_in_month(year, 11) == 30,
        days_in_month(year, 12) == 31,
{
}

/// A day names its year, its month and its day by its digits; there is no month beyond the twelfth, and
/// no day beyond the last of its month.
pub proof fn law_dates_are_days(text: Seq<char>)
    ensures
        calendar_date(text) ==> {
            &&& text.len() == 10
            &&& text[4] == '-' && text[7] == '-'
            &&& 0 <= year_in(text) <= 9999
            &&& 1 <= month_in(text) <= 12
            &&& 1 <= day_in(text) <= days_in_month(year_in(text), month_in(text))
        },
        date_shape(text) && 1 <= month_in(text) <= 12 && 1 <= day_in(text) <= days_in_month(
            year_in(text),
            month_in(text),
        ) ==> calendar_date(text),
        valid_date(2024, 2, 29) && !valid_date(2023, 2, 29) && !valid_date(1900, 2, 29) && valid_date(
            2000,
            2,
            29,
        ),
{
    if date_shape(text) {
        assert(is_digit(text[0]) && is_digit(text[1])
            && is_digit(text[2]) && is_digit(text[3]));
        assert(text[4] == '-' && text[7] == '-');
    }
}

/// A UUID may be written with hyphens, in braces or as a URN, and then names what it names without
/// them; in mentions it stands in lower case.
pub proof fn law_uuid_forms(text: Seq<char>)
    requires
        hyphenated_uuid(text),
    ensures
        uuid_text(text),
        uuid_text("{"@ + text + "}"@),
        uuid_text("urn:uuid:"@ + text),
        lower_uuid(text) <==> forall|i: int|
            0 <= i < text.len() ==> !('A' <= #[trigger] text[i] <= 'F'),
        valid_node_id(text) <==> lower_uuid(text),
{
    reveal_strlit("{");
    reveal_strlit("}");
    reveal_strlit("urn:uuid:");
    let braced = "{"@ + text + "}"@;
    assert(braced.subrange(1, 37) =~= text);
    let urn = "urn:uuid:"@ + text;
    assert(urn.subrange(9, 45) =~= text);
    assert(urn.take(9).map_values(|c: char| crate::text::ascii_lower(c)) =~= "urn:uuid:"@);
    if forall|i: int| 0 <= i < text.len() ==> !('A' <= #[trigger] text[i] <= 'F') {
        assert forall|i: int| 0 <= i < 36 implies if crate::ids::hyphen_position(i) {
            #[trigger] text[i] == '-'
        } else {
            crate::ids::is_lower_hex(text[i])
        } by {
            if !crate::ids::hyphen_position(i) {
                assert(is_hex(text[i]));
            }
        }
    }
    if lower_uuid(text) {
        assert forall|i: int| 0 <= i < text.len() implies !('A' <= #[trigger] text[i] <= 'F') by {
            assert(if crate::ids::hyphen_position(i) {
                text[i] == '-'
            } else {
                crate::ids::is_lower_hex(text[i])
            });
        }
    }
}

/// Texts are ordered by their first difference: the text with the lower code point there is the lower
/// one, and a text comes before every longer one that begins with it.
pub proof fn law_texts_are_in_code_point_order(
    common: Seq<char>,
    x: char,
    y: char,
    s: Seq<char>,
    t: Seq<char>,
)
    ensures
        text_le(common, common + s),
        s.len() > 0 ==> !text_le(common + s, common),
        x < y ==> text_le(common + seq![x] + s, common + seq![y] + t),
        x < y ==> !text_le(common + seq![y] + t, common + seq![x] + s),
    decreases common.len(),
{
    let a = common + seq![x] + s;
    let b = common + seq![y] + t;
    if common.len() > 0 {
        let rest = common.drop_first();
        law_texts_are_in_code_point_order(rest, x, y, s, t);
        assert(a.drop_first() =~= rest + seq![x] + s);
        assert(b.drop_first() =~= rest + seq![y] + t);
        assert((common + s).drop_first() =~= rest + s);
        assert(a[0] == common[0] && b[0] == common[0] && (common + s)[0] == common[0]);
    } else {
        assert(a[0] == x && b[0] == y);
    }
}

/// Scores are compared as numbers: of two that are not negative the one with the greater bit pattern is
/// the better one, a negative one is worse than zero, and what is no number counts as zero.
pub proof fn law_scores_are_compared(a: SearchHitView, b: SearchHitView, x: u64, y: u64)
    requires
        a.score == Number::Float(x),
        b.score == Number::Float(y),
    ensures
        x < y <= 0x7ff0_0000_0000_0000 ==> hit_rank(a) < hit_rank(b),
        x == y ==> hit_rank(a) == hit_rank(b),
        0x8000_0000_0000_0000 < x <= 0xfff0_0000_0000_0000 ==> hit_rank(a) < 0,
        0x8000_0000_0000_0000 <= x < y <= 0xfff0_0000_0000_0000 ==> hit_rank(a) > hit_rank(b),
        0x7ff0_0000_0000_0000 < x < 0x8000_0000_0000_0000 ==> hit_rank(a) == 0,
        x == 0 ==> hit_rank(a) == 0,
        x < y <= 0x7ff0_0000_0000_0000 ==> best_first(seq![a, b]) == seq![b, a],
        y < x <= 0x7ff0_0000_0000_0000 ==> best_first(seq![a, b]) == seq![a, b],
{
    reveal_with_fuel(crate::sequences::sorted_by, 3);
    reveal_with_fuel(crate::sequences::placed, 3);
    let both = seq![a, b];
    assert(both.drop_last() =~= seq![a]);
    assert(seq![a].drop_last() =~= Seq::empty());
    assert(Seq::<SearchHitView>::empty().push(a) =~= seq![a]);
    assert(seq![a].push(b) =~= both);
    assert(Seq::<SearchHitView>::empty().push(b).push(a) =~= seq![b, a]);
}

/// Integers and floats are compared by value: an integer has the rank of the float that equals it, and
/// a negative number the negative rank.
pub proof fn law_integers_rank_as_floats(n: u64)
    ensures
        rank_of(Number::PosInt(0)) == rank_of(Number::Float(0)),
        rank_of(Number::PosInt(1)) == rank_of(Number::Float(0x3ff0_0000_0000_0000)),
        rank_of(Number::PosInt(2)) == rank_of(Number::Float(0x4000_0000_0000_0000)),
        rank_of(Number::PosInt(3)) == rank_of(Number::Float(0x4008_0000_0000_0000)),
        rank_of(Number::NegInt(-1i64)) == rank_of(Number::Float(0xbff0_0000_0000_0000)),
        0 < n <= 0x7fff_ffff_ffff_ffff ==> rank_of(Number::NegInt((-(n as int)) as i64)) == Some(
            -(rank_of(Number::PosInt(n))->0),
        ),
{
    reveal_with_fuel(crate::ranking::exponent, 3);
    vstd::arithmetic::power2::lemma2_to64();
    vstd::arithmetic::power2::lemma_pow2_adds(26, 26);
    vstd::arithmetic::power2::lemma_pow2_adds(26, 25);
    vstd::arithmetic::power2::lemma_pow2_adds(25, 25);
}

/// The nodes that a text mentions are those that a link names, and those that a plain address outside
/// every link names, as far as they are a UUID in lower case or a day.
pub proof fn law_mentions_are_found(
    markdown: Seq<PatternMatchView>,
    plain: Seq<PatternMatchView>,
    i: int,
    id: Seq<char>,
)
    requires
        valid_node_id(id),
    ensures
        0 <= i < markdown.len() && markdown[i].group == Some(id) ==> mention_list(
            markdown,
            plain,
        ).contains(id),
        0 <= i < plain.len() && plain[i].group == Some(id) && (forall|k: int|
            0 <= k < markdown.len() ==> !((#[trigger] markdown[k]).start <= plain[i].start
                < markdown[k].end)) ==> mention_list(markdown, plain).contains(id),
        (forall|k: int| 0 <= k < markdown.len() ==> (#[trigger] markdown[k]).group != Some(id)) && (
        forall|k: int|
            0 <= k < plain.len() && (#[trigger] plain[k]).group == Some(id) ==> exists|m: int|
                0 <= m < markdown.len() && (#[trigger] markdown[m]).start <= plain[k].start
                    < markdown[m].end) ==> !mention_list(markdown, plain).contains(id),
{
    law_mention_list(markdown, plain);
}

/// An update that gives something is taken, and one that gives nothing is refused.
pub proof fn law_updates_have_to_change_something(
    id: Seq<char>,
    version: i64,
    update: NodeUpdateView,
)
    ensures
        update.node_type is Some || update.content is Some || update.properties is Some
            || update.title is Some || update.lifecycle_status is Some ==> update_next(
            id,
            version,
            update,
            Seq::empty(),
        ) == StepView::Ask(
            RequestView::VersionedUpdate { id, expected_version: version, update },
        ),
        update.node_type is None && update.content is None && update.properties is None
            && update.title is None && update.lifecycle_status is None ==> update_next(
            id,
            version,
            update,
            Seq::empty(),
        ) is Fail,
{
}

/// The same holds of updates of tasks.
pub proof fn law_task_updates_have_to_change_something(
    id: Seq<char>,
    version: i64,
    update: TaskNodeUpdateView,
)
    ensures
        update.status is Some || update.priority is Some || update.due_date is Some
            || update.assignee is Some || update.content is Some ==> update_task_node_next(
            id,
            version,
            update,
            Seq::empty(),
        ) == StepView::Ask(
            RequestView::StoreTaskUpdate { id, expected_version: version, update },
        ),
        update.status is None && update.priority is None && update.due_date is None
            && update.assignee is None && update.content is None ==> update_task_node_next(
            id,
            version,
            update,
            Seq::empty(),
        ) is Fail,
{
}

/// The digits are the ten from zero to nine.
pub proof fn law_digits(c: char)
    ensures
        is_digit(c) <==> "0123456789"@.contains(c),
{
    reveal_strlit("0123456789");
    let all = "0123456789"@;
    if is_digit(c) {
        let i = c as int - '0' as int;
        assert(0 <= i < 10);
        assert(all[i] == c);
    }
    if all.contains(c) {
        let i = choose|i: int| 0 <= i < all.len() && all[i] == c;
        assert(is_digit(all[i]));
    }
}

} // verus!
