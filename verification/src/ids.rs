//! Node identifiers: UUIDs, calendar dates, and names of schemas.

use chrono::Datelike;
use crate::text::{
    alphanumeric, ascii_lower, chars_of, is_alphanumeric, is_ascii_lower, is_ascii_upper, is_digit,
    lowercase, same_text, text_of, to_lowercase,
};
use vstd::prelude::*;
use vstd::utf8::*;

verus! {

/// A UUID in lower case with hyphens.
pub const UUID_PATTERN: &'static str =
    r"^[a-f0-9]{8}-[a-f0-9]{4}-[a-f0-9]{4}-[a-f0-9]{4}-[a-f0-9]{12}$";

/// Four digits, two digits and two digits, with hyphens between them.
pub const DATE_PATTERN: &'static str = r"^\d{4}-\d{2}-\d{2}$";

pub open spec fn is_lower_hex(c: char) -> bool {
    is_digit(c) || 'a' <= c <= 'f'
}

pub open spec fn is_hex(c: char) -> bool {
    is_lower_hex(c) || 'A' <= c <= 'F'
}

/// The positions of the hyphens in a UUID.
pub open spec fn hyphen_position(i: int) -> bool {
    i == 8 || i == 13 || i == 18 || i == 23
}

/// A UUID with hyphens, in either case.
pub open spec fn hyphenated_uuid(text: Seq<char>) -> bool {
    text.len() == 36 && forall|i: int|
        0 <= i < 36 ==> if hyphen_position(i) {
            #[trigger] text[i] == '-'
        } else {
            is_hex(text[i])
        }
}

/// A UUID with hyphens, in lower case.
pub open spec fn lower_uuid(text: Seq<char>) -> bool {
    text.len() == 36 && forall|i: int|
        0 <= i < 36 ==> if hyphen_position(i) {
            #[trigger] text[i] == '-'
        } else {
            is_lower_hex(text[i])
        }
}

/// A text that names a UUID: its 32 digits alone, with hyphens, with hyphens in braces, or as a URN.
pub open spec fn uuid_text(text: Seq<char>) -> bool {
    ||| text.len() == 32 && forall|i: int| 0 <= i < 32 ==> is_hex(#[trigger] text[i])
    ||| hyphenated_uuid(text)
    ||| text.len() == 38 && text[0] == '{' && text[37] == '}' && hyphenated_uuid(
        text.subrange(1, 37),
    )
    ||| text.len() == 45 && text.take(9).map_values(|c: char| ascii_lower(c)) == "urn:uuid:"@
        && hyphenated_uuid(text.subrange(9, 45))
}

/// The value of a digit.
pub open spec fn digit_value(c: char) -> int {
    (c as int) - ('0' as int)
}

/// Four digits, two digits and two digits, with hyphens between them.
pub open spec fn date_shape(text: Seq<char>) -> bool {
    text.len() == 10 && forall|i: int|
        0 <= i < 10 ==> if i == 4 || i == 7 {
            #[trigger] text[i] == '-'
        } else {
            is_digit(text[i])
        }
}

pub open spec fn year_in(text: Seq<char>) -> int {
    digit_value(text[0]) * 1000 + digit_value(text[1]) * 100 + digit_value(text[2]) * 10
        + digit_value(text[3])
}

pub open spec fn month_in(text: Seq<char>) -> int {
    digit_value(text[5]) * 10 + digit_value(text[6])
}

pub open spec fn day_in(text: Seq<char>) -> int {
    digit_value(text[8]) * 10 + digit_value(text[9])
}

pub open spec fn leap_year(year: int) -> bool {
    year % 4 == 0 && (year % 100 != 0 || year % 400 == 0)
}

pub open spec fn days_in_month(year: int, month: int) -> int {
    if month == 2 {
        if leap_year(year) {
            29
        } else {
            28
        }
    } else if month == 4 || month == 6 || month == 9 || month == 11 {
        30
    } else {
        31
    }
}

/// A day of the calendar.
pub open spec fn valid_date(year: int, month: int, day: int) -> bool {
    1 <= month <= 12 && 1 <= day <= days_in_month(year, month)
}

/// A text that names a day of the calendar as `YYYY-MM-DD`.
pub open spec fn calendar_date(text: Seq<char>) -> bool {
    date_shape(text) && valid_date(year_in(text), month_in(text), day_in(text))
}

/// A text that may name a node in a mention.
pub open spec fn valid_node_id(text: Seq<char>) -> bool {
    lower_uuid(text) || calendar_date(text)
}

/// What `chrono::NaiveDate::parse_from_str` reads in a text with the format `%Y-%m-%d`: year, month
/// and day.
pub uninterp spec fn parsed_date(text: Seq<char>) -> Option<(i32, u32, u32)>;

/// Calls `chrono::NaiveDate::parse_from_str` with the format `%Y-%m-%d`. Claimed: the result depends
/// on the text alone; what is read is a day of the calendar in the range of years that the crate
/// has; and a text of the form `YYYY-MM-DD` is read by its digits if they name a day of the
/// calendar, and refused if they do not.
#[verifier::external_body]
fn parse_date(text: &str) -> (r: Option<(i32, u32, u32)>)
    ensures
        r == parsed_date(text@),
        r matches Some((y, m, d)) ==> -262143 <= y <= 262142 && valid_date(y as int, m as int, d as int),
        date_shape(text@) ==> (match r {
            Some((y, m, d)) => y == year_in(text@) && m == month_in(text@) && d == day_in(text@),
            None => !valid_date(year_in(text@), month_in(text@), day_in(text@)),
        }),
{
    let parsed = chrono::NaiveDate::parse_from_str(text, "%Y-%m-%d");
    parsed.ok().map(|d| (d.year(), d.month(), d.day()))
}

/// Calls `chrono::NaiveDate::format` with the format `%Y-%m-%d`. Claimed: a year of at most four
/// digits is written as `YYYY-MM-DD`; any other starts with its sign.
#[verifier::external_body]
fn format_date(year: i32, month: u32, day: u32) -> (r: String)
    requires
        -262143 <= year <= 262142,
        valid_date(year as int, month as int, day as int),
    ensures
        0 <= year <= 9999 ==> date_shape(r@) && year_in(r@) == year && month_in(r@) == month && day_in(
            r@,
        ) == day,
        !(0 <= year <= 9999) ==> r@.len() > 0 && (r@[0] == '-' || r@[0] == '+'),
{
    chrono::NaiveDate::from_ymd_opt(year, month, day).unwrap().format("%Y-%m-%d").to_string()
}

/// What `regex::Regex::is_match` says of a text under a pattern.
pub uninterp spec fn regex_accepts(pattern: Seq<char>, text: Seq<char>) -> bool;

/// Calls `regex::Regex::is_match`. Claimed: the result depends on the pattern and the text alone;
/// the UUID pattern accepts exactly the UUIDs in lower case with hyphens; the date pattern accepts
/// every text of the form `YYYY-MM-DD`, and what it accepts has ten characters, hyphens at the two
/// places, and no ASCII character but a digit at the others (its digits are those of Unicode).
#[verifier::external_body]
fn pattern_accepts(pattern: &str, text: &str) -> (r: bool)
    requires
        pattern@ == UUID_PATTERN@ || pattern@ == DATE_PATTERN@,
    ensures
        r == regex_accepts(pattern@, text@),
        pattern@ == UUID_PATTERN@ ==> r == lower_uuid(text@),
        pattern@ == DATE_PATTERN@ && date_shape(text@) ==> r,
        pattern@ == DATE_PATTERN@ && r ==> text@.len() == 10 && text@[4] == '-' && text@[7] == '-'
            && forall|i: int|
            0 <= i < 10 && i != 4 && i != 7 && (#[trigger] text@[i] as u32) < 128 ==> is_digit(text@[i]),
{
    regex::Regex::new(pattern).unwrap().is_match(text)
}

/// Calls `uuid::Uuid::parse_str`. Claimed: it accepts exactly the texts that name a UUID.
#[verifier::external_body]
pub(crate) fn parses_as_uuid(text: &str) -> (r: bool)
    ensures
        r == uuid_text(text@),
{
    uuid::Uuid::parse_str(text).is_ok()
}

/// Calls `uuid::Uuid::new_v4`. Claimed: whatever the random bits, the text is a UUID in lower case
/// with hyphens, with its version and variant marks.
#[verifier::external_body]
pub(crate) fn new_uuid() -> (r: String)
    ensures
        lower_uuid(r@),
        r@[14] == '4',
        r@[19] == '8' || r@[19] == '9' || r@[19] == 'a' || r@[19] == 'b',
{
    uuid::Uuid::new_v4().to_string()
}

/// Whether a node is a root, by the root that it names.
pub fn is_root_node(root_id: &Option<String>) -> (r: bool)
    ensures
        r == (*root_id is None),
{
    root_id.is_none()
}

fn digit_at(chars: &Vec<char>, i: usize) -> (r: bool)
    requires
        i < chars@.len(),
    ensures
        r == is_digit(chars@[i as int]),
{
    '0' <= chars[i] && chars[i] <= '9'
}

/// Whether an identifier is that of a date node: `YYYY-MM-DD`, and a day of the calendar.
pub fn is_date_node_id(id: &str) -> (r: bool)
    ensures
        r == calendar_date(id@),
{
    let chars = chars_of(id);
    if chars.len() != 10 {
        return false;
    }
    let shape = digit_at(&chars, 0) && digit_at(&chars, 1) && digit_at(&chars, 2) && digit_at(
        &chars,
        3,
    ) && chars[4] == '-' && digit_at(&chars, 5) && digit_at(&chars, 6) && chars[7] == '-'
        && digit_at(&chars, 8) && digit_at(&chars, 9);
    proof {
        if shape {
            assert forall|i: int| 0 <= i < 10 implies if i == 4 || i == 7 {
                #[trigger] id@[i] == '-'
            } else {
                is_digit(id@[i])
            } by {}
        } else if date_shape(id@) {
            assert(id@[0] != '-' && id@[1] != '-' && id@[2] != '-' && id@[3] != '-');
            assert(id@[4] == '-' && id@[5] != '-' && id@[6] != '-' && id@[7] == '-');
            assert(id@[8] != '-' && id@[9] != '-');
        }
    }
    if !shape {
        return false;
    }
    parse_date(id).is_some()
}

/// Whether a text is a node identifier that a mention may name: a UUID or a date.
pub fn is_valid_node_id(node_id: &str) -> (r: bool)
    ensures
        r == valid_node_id(node_id@),
{
    if pattern_accepts(UUID_PATTERN, node_id) {
        return true;
    }
    if pattern_accepts(DATE_PATTERN, node_id) {
        if let Some((year, month, day)) = parse_date(node_id) {
            let written = format_date(year, month, day);
            let same = same_text(written.as_str(), node_id);
            proof {
                let t = node_id@;
                if same && !(0 <= year <= 9999) {
                    assert((t[0] as u32) < 128);
                    assert(is_digit(t[0]));
                }
                if date_shape(t) {
                    lemma_date_text_unique(t, written@);
                }
            }
            return same;
        }
    }
    false
}

proof fn lemma_date_text_unique(a: Seq<char>, b: Seq<char>)
    requires
        date_shape(a),
        year_in(a) <= 9999,
        date_shape(b) ==> year_in(a) == year_in(b) && month_in(a) == month_in(b) && day_in(a) == day_in(b),
    ensures
        date_shape(b) ==> a == b,
        0 <= year_in(a),
{
    assert(is_digit(a[0]) && is_digit(a[1]) && is_digit(a[2]) && is_digit(a[3]));
    assert(is_digit(a[5]) && is_digit(a[6]) && is_digit(a[8]) && is_digit(a[9]));
    assert(a[4] == '-' && a[7] == '-');
    if date_shape(b) {
        assert(is_digit(b[0]) && is_digit(b[1]) && is_digit(b[2]) && is_digit(b[3]));
        assert(is_digit(b[5]) && is_digit(b[6]) && is_digit(b[8]) && is_digit(b[9]));
        assert(b[4] == '-' && b[7] == '-');
        assert(a =~= b);
    }
}

/// The identifiers of date nodes may be mentioned.
pub proof fn law_date_ids_are_valid(id: Seq<char>)
    requires
        calendar_date(id),
    ensures
        valid_node_id(id),
        id.len() == 10,
{
}

/// A text is a UUID or a date, never both.
pub proof fn law_uuids_are_no_dates(id: Seq<char>)
    ensures
        !(lower_uuid(id) && calendar_date(id)),
{
}

/// A UUID that may be mentioned may also be given to a new node.
pub proof fn law_mentionable_uuids_are_uuids(id: Seq<char>)
    requires
        lower_uuid(id),
    ensures
        uuid_text(id),
{
    assert(hyphenated_uuid(id)) by {
        assert forall|i: int| 0 <= i < 36 implies if hyphen_position(i) {
            #[trigger] id[i] == '-'
        } else {
            is_hex(id[i])
        } by {}
    }
}

/// Spaces and underscores as hyphens.
pub open spec fn dashed(text: Seq<char>) -> Seq<char> {
    text.map_values(
        |c: char|
            if c == ' ' || c == '_' {
                '-'
            } else {
                c
            },
    )
}

/// The words between hyphens with one hyphen between each two: hyphens at the ends go, and each run
/// of hyphens becomes one.
pub open spec fn squeezed(text: Seq<char>) -> Seq<char>
    decreases text.len(),
{
    if text.len() == 0 {
        Seq::empty()
    } else {
        let front = squeezed(text.drop_last());
        if text.last() == '-' {
            front
        } else if front.len() > 0 && text[text.len() - 2] == '-' {
            front.push('-').push(text.last())
        } else {
            front.push(text.last())
        }
    }
}

/// The identifier of a schema with some display name.
pub open spec fn schema_id(name: Seq<char>) -> Seq<char> {
    squeezed(dashed(lowercase(name)).filter(|c: char| alphanumeric(c) || c == '-'))
}

pub open spec fn is_ascii_alphanumeric(c: char) -> bool {
    is_ascii_lower(c) || is_ascii_upper(c) || is_digit(c)
}

/// The identifier of a schema whose display name is ASCII.
pub open spec fn ascii_schema_id(name: Seq<char>) -> Seq<char> {
    squeezed(
        dashed(name.map_values(|c: char| ascii_lower(c))).filter(
            |c: char| is_ascii_alphanumeric(c) || c == '-',
        ),
    )
}

/// Derives the identifier of a schema from its display name.
pub fn normalize_schema_id(name: &str) -> (r: String)
    ensures
        r@ == schema_id(name@),
        is_ascii_chars(name@) ==> r@ == ascii_schema_id(name@),
{
    let lowered = to_lowercase(name);
    let chars = chars_of(lowered.as_str());
    let ghost keep = |c: char| alphanumeric(c) || c == '-';
    let ghost keep_ascii = |c: char| is_ascii_alphanumeric(c) || c == '-';
    let ghost all = dashed(lowered@);
    let mut kept: Vec<char> = Vec::new();
    let mut i: usize = 0;
    while i < chars.len()
        invariant
            i <= chars@.len() == all.len(),
            chars@ == lowered@,
            all == dashed(lowered@),
            kept@ == all.take(i as int).filter(keep),
            forall|j: int| 0 <= j < i && (all[j] as u32) < 128 ==> keep(#[trigger] all[j]) == keep_ascii(all[j]),
        decreases chars@.len() - i,
    {
        let c: char = if chars[i] == ' ' || chars[i] == '_' {
            '-'
        } else {
            chars[i]
        };
        proof {
            assert(all.take(i + 1).drop_last() =~= all.take(i as int));
            assert(all.take(i + 1).last() == c);
            reveal(Seq::filter);
        }
        if is_alphanumeric(c) || c == '-' {
            kept.push(c);
        }
        i += 1;
    }
    proof {
        assert(all.take(all.len() as int) =~= all);
        if is_ascii_chars(name@) {
            let low = name@.map_values(|c: char| ascii_lower(c));
            assert(low == lowered@);
            assert forall|j: int| 0 <= j < all.len() implies keep(#[trigger] all[j]) == keep_ascii(all[j]) by {
                assert((name@[j] as u32) < 128);
            }
            lemma_filter_agree(all, keep, keep_ascii);
        }
    }
    let out = squeeze(&kept);
    text_of(&out)
}

proof fn lemma_filter_agree(s: Seq<char>, p: spec_fn(char) -> bool, q: spec_fn(char) -> bool)
    requires
        forall|j: int| 0 <= j < s.len() ==> p(#[trigger] s[j]) == q(s[j]),
    ensures
        s.filter(p) == s.filter(q),
    decreases s.len(),
{
    reveal(Seq::filter);
    if s.len() > 0 {
        assert forall|j: int| 0 <= j < s.drop_last().len() implies p(#[trigger] s.drop_last()[j]) == q(
            s.drop_last()[j],
        ) by {
            assert(s.drop_last()[j] == s[j]);
        }
        lemma_filter_agree(s.drop_last(), p, q);
        assert(p(s[s.len() - 1]) == q(s[s.len() - 1]));
    }
}

fn squeeze(chars: &Vec<char>) -> (r: Vec<char>)
    ensures
        r@ == squeezed(chars@),
{
    let mut out: Vec<char> = Vec::new();
    let mut i: usize = 0;
    while i < chars.len()
        invariant
            i <= chars@.len(),
            out@ == squeezed(chars@.take(i as int)),
        decreases chars@.len() - i,
    {
        proof {
            assert(chars@.take(i + 1).drop_last() =~= chars@.take(i as int));
            assert(i == 0 ==> out@.len() == 0);
        }
        if chars[i] != '-' {
            if out.len() > 0 && chars[i - 1] == '-' {
                out.push('-');
            }
            out.push(chars[i]);
        }
        i += 1;
    }
    proof {
        assert(chars@.take(chars@.len() as int) =~= chars@);
    }
    out
}

/// A text in kebab case: no hyphen at either end and no two in a row.
pub open spec fn kebab(text: Seq<char>) -> bool {
    &&& text.len() > 0 ==> text[0] != '-' && text.last() != '-'
    &&& forall|i: int| 0 <= i < text.len() - 1 && #[trigger] text[i] == '-' ==> text[i + 1] != '-'
}

/// The identifier of a schema is in kebab case and holds letters, digits and hyphens alone.
pub proof fn law_schema_id_is_kebab(name: Seq<char>)
    ensures
        kebab(schema_id(name)),
        forall|i: int|
            0 <= i < schema_id(name).len() ==> alphanumeric(#[trigger] schema_id(name)[i])
                || schema_id(name)[i] == '-',
{
    let keep = |c: char| alphanumeric(c) || c == '-';
    let kept = dashed(lowercase(name)).filter(keep);
    lemma_squeezed_kebab(kept);
    lemma_filter_keeps(dashed(lowercase(name)), keep);
    lemma_squeezed_from(kept, keep);
}

proof fn lemma_squeezed_kebab(text: Seq<char>)
    ensures
        kebab(squeezed(text)),
    decreases text.len(),
{
    if text.len() > 0 {
        lemma_squeezed_kebab(text.drop_last());
    }
}

proof fn lemma_filter_keeps(s: Seq<char>, p: spec_fn(char) -> bool)
    ensures
        forall|i: int| 0 <= i < s.filter(p).len() ==> p(#[trigger] s.filter(p)[i]),
    decreases s.len(),
{
    reveal(Seq::filter);
    if s.len() > 0 {
        lemma_filter_keeps(s.drop_last(), p);
    }
}

proof fn lemma_squeezed_from(text: Seq<char>, p: spec_fn(char) -> bool)
    requires
        p('-'),
        forall|i: int| 0 <= i < text.len() ==> p(#[trigger] text[i]),
    ensures
        forall|i: int| 0 <= i < squeezed(text).len() ==> p(#[trigger] squeezed(text)[i]),
    decreases text.len(),
{
    if text.len() > 0 {
        assert(p(text[text.len() - 1]));
        assert forall|i: int| 0 <= i < text.drop_last().len() implies p(#[trigger] text.drop_last()[i]) by {
            assert(text.drop_last()[i] == text[i]);
        }
        lemma_squeezed_from(text.drop_last(), p);
        let front = squeezed(text.drop_last());
        assert forall|i: int| 0 <= i < squeezed(text).len() implies p(#[trigger] squeezed(text)[i]) by {
            if i < front.len() {
                assert(squeezed(text)[i] == front[i]);
            }
        }
    }
}

/// Deriving an identifier from an identifier gives it back, if lower case leaves the identifier as it
/// is. Of ASCII names this is so without a condition, see [`law_ascii_schema_id_idempotent`].
pub proof fn law_schema_id_idempotent(name: Seq<char>)
    requires
        lowercase(schema_id(name)) == schema_id(name),
    ensures
        schema_id(schema_id(name)) == schema_id(name),
{
    let keep = |c: char| alphanumeric(c) || c == '-';
    let plain = |c: char| keep(c) && c != ' ' && c != '_';
    let low = dashed(lowercase(name));
    let kept = low.filter(keep);
    let id = squeezed(kept);
    let both = |c: char| keep(c) && plain(c);
    assert forall|j: int| 0 <= j < low.len() implies keep(#[trigger] low[j]) == both(low[j]) by {
        assert(low[j] != ' ' && low[j] != '_');
    }
    lemma_filter_agree(low, keep, both);
    lemma_filter_keeps(low, both);
    assert forall|i: int| 0 <= i < kept.len() implies plain(#[trigger] kept[i]) by {
        assert(both(low.filter(both)[i]));
    }
    lemma_squeezed_from(kept, plain);
    assert(dashed(id) =~= id) by {
        assert forall|i: int| 0 <= i < id.len() implies id[i] != ' ' && id[i] != '_' by {
            assert(plain(id[i]));
        }
    }
    assert forall|i: int| 0 <= i < id.len() implies keep(#[trigger] id[i]) by {
        assert(plain(id[i]));
    }
    lemma_filter_all(id, keep);
    lemma_squeezed_kebab(kept);
    lemma_squeeze_fixed(id);
}

/// Deriving an identifier from an identifier gives it back, among ASCII names. The display name of
/// a schema and its identifier thus name the same schema.
pub proof fn law_ascii_schema_id_idempotent(name: Seq<char>)
    requires
        is_ascii_chars(name),
    ensures
        ascii_schema_id(ascii_schema_id(name)) == ascii_schema_id(name),
{
    let keep = |c: char| is_ascii_alphanumeric(c) || c == '-';
    let plain = |c: char| keep(c) && !is_ascii_upper(c);
    let low = dashed(name.map_values(|c: char| ascii_lower(c)));
    let kept = low.filter(keep);
    let id = squeezed(kept);
    assert(id == ascii_schema_id(name));
    let both = |c: char| keep(c) && plain(c);
    assert forall|j: int| 0 <= j < low.len() implies keep(#[trigger] low[j]) == both(low[j]) by {
        assert((name[j] as u32) < 128);
        assert(low[j] == '-' || low[j] == ascii_lower(name[j]));
    }
    lemma_filter_agree(low, keep, both);
    lemma_filter_keeps(low, both);
    assert(plain('-'));
    assert forall|i: int| 0 <= i < kept.len() implies plain(#[trigger] kept[i]) by {
        assert(both(low.filter(both)[i]));
    }
    lemma_squeezed_from(kept, plain);
    assert(dashed(id.map_values(|c: char| ascii_lower(c))) =~= id) by {
        assert forall|i: int| 0 <= i < id.len() implies ascii_lower(#[trigger] id[i]) == id[i]
            && id[i] != ' ' && id[i] != '_' by {
            assert(plain(id[i]));
        }
    }
    lemma_filter_all(id, keep);
    lemma_squeezed_kebab(kept);
    lemma_squeeze_fixed(id);
}

proof fn lemma_filter_all(s: Seq<char>, p: spec_fn(char) -> bool)
    requires
        forall|i: int| 0 <= i < s.len() ==> p(#[trigger] s[i]),
    ensures
        s.filter(p) == s,
    decreases s.len(),
{
    reveal(Seq::filter);
    if s.len() > 0 {
        assert forall|i: int| 0 <= i < s.drop_last().len() implies p(#[trigger] s.drop_last()[i]) by {
            assert(s.drop_last()[i] == s[i]);
        }
        lemma_filter_all(s.drop_last(), p);
        assert(p(s[s.len() - 1]));
        assert(s.drop_last().push(s.last()) =~= s);
    } else {
        assert(s.filter(p) =~= s);
    }
}

/// Squeezing drops nothing but a hyphen at the end of a text that has no other fault.
proof fn lemma_squeeze_fixed(text: Seq<char>)
    requires
        text.len() > 0 ==> text[0] != '-',
        forall|i: int| 0 <= i < text.len() - 1 && #[trigger] text[i] == '-' ==> text[i + 1] != '-',
    ensures
        squeezed(text) == (if text.len() > 0 && text.last() == '-' {
            text.drop_last()
        } else {
            text
        }),
    decreases text.len(),
{
    if text.len() > 0 {
        let front = text.drop_last();
        assert forall|i: int| 0 <= i < front.len() - 1 && #[trigger] front[i] == '-' implies front[i + 1]
            != '-' by {
            assert(text[i] == '-');
        }
        lemma_squeeze_fixed(front);
        if front.len() > 0 {
            assert(text[text.len() - 2] == front.last());
        }
        if text.last() != '-' {
            if front.len() > 0 && front.last() == '-' {
                assert(front.drop_last().len() > 0);
                assert(front.drop_last().push('-').push(text.last()) =~= text);
            } else {
                assert(front.push(text.last()) =~= text);
            }
        } else {
            assert(front.len() > 0 ==> front.last() != '-');
        }
    } else {
        assert(squeezed(text) =~= text);
    }
}

} // verus!
