//! The splitting of texts into chunks. Positions are counted in bytes of UTF-8.

use vstd::prelude::*;
use vstd::string::*;
use vstd::utf8::{
    decode_utf8, encode_utf8, encode_utf8_decode_utf8, encode_utf8_valid_utf8, is_char_boundary,
    is_char_boundary_iff_is_leading_byte, is_char_boundary_iff_not_is_continuation_byte,
    is_char_boundary_start_end_of_seq, is_leading_byte_width_1, length_of_first_scalar, valid_utf8,
    valid_utf8_split,
};

verus! {

/// The place of a chunk in the text that it is part of.
#[derive(Clone, Copy, Debug, PartialEq, Eq, Structural)]
pub struct ChunkInfo {
    pub chunk_index: i32,
    pub chunk_start: i32,
    pub chunk_end: i32,
    pub total_chunks: i32,
    pub token_count: i32,
}

/// The last boundary between characters at or before a position.
pub open spec fn floor_boundary(bytes: Seq<u8>, index: int) -> int
    decreases index,
{
    if index >= bytes.len() {
        bytes.len() as int
    } else if index <= 0 {
        0
    } else if is_char_boundary(bytes, index) {
        index
    } else {
        floor_boundary(bytes, index - 1)
    }
}

pub proof fn lemma_floor_at_most(bytes: Seq<u8>, index: int)
    ensures
        0 <= floor_boundary(bytes, index) <= bytes.len(),
    decreases index,
{
    if 0 < index < bytes.len() && !is_char_boundary(bytes, index) {
        lemma_floor_at_most(bytes, index - 1);
    }
}

/// The last position from `low` to `high` at which a pattern begins.
pub open spec fn last_match(bytes: Seq<u8>, pattern: Seq<u8>, low: int, high: int) -> Option<int>
    decreases high - low + 1,
{
    if high < low {
        None
    } else if bytes.subrange(high, high + pattern.len()) == pattern {
        Some(high)
    } else {
        last_match(bytes, pattern, low, high - 1)
    }
}

/// A paragraph ends with two newlines, a sentence with a period and a space, a word with a space.
pub const NEWLINE: u8 = 10;

pub const SPACE: u8 = 32;

pub const PERIOD: u8 = 46;

/// Where a part of a text is best broken: after its last paragraph, else after its last sentence,
/// else after its last word, else at its end.
pub open spec fn break_point(bytes: Seq<u8>, start: int, end: int) -> int {
    match last_match(bytes, seq![NEWLINE, NEWLINE], start, end - 2) {
        Some(at) => at + 2,
        None => match last_match(bytes, seq![PERIOD, SPACE], start, end - 2) {
            Some(at) => at + 2,
            None => match last_match(bytes, seq![SPACE], start, end - 1) {
                Some(at) => at + 1,
                None => end,
            },
        },
    }
}

/// The end of a chunk that begins at `start` and is at most `max` bytes long.
pub open spec fn chunk_end(bytes: Seq<u8>, start: int, max: int) -> int {
    let end = floor_boundary(bytes, start + max);
    if end < bytes.len() {
        break_point(bytes, start, end)
    } else {
        end
    }
}

/// How far the next chunk begins behind the start of a chunk.
pub open spec fn advance(max: int, overlap: int) -> int {
    if max - overlap >= 1 {
        max - overlap
    } else {
        1
    }
}

/// The beginning of the chunk after one that begins at `start`: as far behind it as the advance
/// says, but not behind the end of a chunk that was broken off earlier.
pub open spec fn next_start(bytes: Seq<u8>, start: int, max: int, overlap: int) -> int {
    let next = floor_boundary(bytes, start + advance(max, overlap));
    let end = chunk_end(bytes, start, max);
    if start < end < next {
        end
    } else {
        next
    }
}

/// The splitting comes to an end: each chunk begins behind the one before it. It does not where a
/// character is wider than the advance.
pub open spec fn chunkable(bytes: Seq<u8>, start: int, max: int, overlap: int) -> bool
    decreases bytes.len() - start,
{
    if start >= bytes.len() || chunk_end(bytes, start, max) >= bytes.len() {
        true
    } else {
        let next = next_start(bytes, start, max, overlap);
        proof {
            lemma_floor_at_most(bytes, start + advance(max, overlap));
        }
        start < next && chunkable(bytes, next, max, overlap)
    }
}

/// The ranges of the chunks from `start` on.
pub open spec fn ranges_from(bytes: Seq<u8>, start: int, max: int, overlap: int) -> Seq<(int, int)>
    decreases bytes.len() - start,
{
    if start >= bytes.len() {
        Seq::empty()
    } else {
        let end = chunk_end(bytes, start, max);
        let next = next_start(bytes, start, max, overlap);
        proof {
            lemma_floor_at_most(bytes, start + advance(max, overlap));
        }
        if end >= bytes.len() || next <= start {
            seq![(start, end)]
        } else {
            seq![(start, end)] + ranges_from(bytes, next, max, overlap)
        }
    }
}

/// The ranges of the chunks of a text. A text that fits is one chunk.
pub open spec fn chunk_ranges(bytes: Seq<u8>, max: int, overlap: int) -> Seq<(int, int)> {
    if bytes.len() <= max {
        seq![(0int, bytes.len() as int)]
    } else {
        ranges_from(bytes, 0, max, overlap)
    }
}

/// A chunk: where it begins and ends, as 32-bit numbers, and its text.
pub open spec fn chunk_of(bytes: Seq<u8>, range: (int, int)) -> (i32, i32, Seq<char>) {
    (range.0 as i32, range.1 as i32, decode_utf8(bytes.subrange(range.0, range.1)))
}

/// The chunks of a text.
pub open spec fn chunks_of(text: Seq<char>, max: int, overlap: int) -> Seq<(i32, i32, Seq<char>)> {
    let bytes = encode_utf8(text);
    chunk_ranges(bytes, max, overlap).map_values(|range: (int, int)| chunk_of(bytes, range))
}

pub open spec fn chunk_views(chunks: Seq<(i32, i32, String)>) -> Seq<(i32, i32, Seq<char>)> {
    chunks.map_values(|c: (i32, i32, String)| (c.0, c.1, c.2@))
}

/// The boundary at or before a position is a boundary, and there is none between it and the
/// position.
pub proof fn law_floor_boundary(bytes: Seq<u8>, index: int)
    requires
        valid_utf8(bytes),
        0 <= index,
    ensures
        0 <= floor_boundary(bytes, index) <= bytes.len(),
        floor_boundary(bytes, index) <= index,
        is_char_boundary(bytes, floor_boundary(bytes, index)),
        forall|i: int|
            floor_boundary(bytes, index) < i <= index && i <= bytes.len() ==> !#[trigger]
                is_char_boundary(bytes, i),
    decreases index,
{
    is_char_boundary_start_end_of_seq(bytes);
    if 0 < index < bytes.len() && !is_char_boundary(bytes, index) {
        law_floor_boundary(bytes, index - 1);
    }
}

pub fn find_boundary(s: &str, index: usize) -> (r: usize)
    ensures
        r == floor_boundary(encode_utf8(s@), index as int),
        r <= encode_utf8(s@).len(),
        is_char_boundary(encode_utf8(s@), r as int),
{
    let ghost bytes = encode_utf8(s@);
    proof {
        encode_utf8_valid_utf8(s@);
        law_floor_boundary(bytes, index as int);
    }
    let size: usize = s.as_bytes().len();
    if index >= size {
        return size;
    }
    let mut at: usize = index;
    while at > 0 && !s.is_char_boundary(at)
        invariant
            at <= index < bytes.len(),
            floor_boundary(bytes, index as int) == floor_boundary(bytes, at as int),
        decreases at,
    {
        at -= 1;
    }
    at
}

/// The byte behind an ASCII character is a boundary.
proof fn lemma_boundary_after_ascii(bytes: Seq<u8>, at: int)
    requires
        valid_utf8(bytes),
        0 <= at < bytes.len(),
        bytes[at] < 0x80,
    ensures
        is_char_boundary(bytes, at + 1),
{
    is_char_boundary_start_end_of_seq(bytes);
    assert(is_leading_byte_width_1(bytes[at]));
    is_char_boundary_iff_is_leading_byte(bytes, at);
    if at + 1 < bytes.len() {
        valid_utf8_split(bytes, at);
        let rest = bytes.subrange(at, bytes.len() as int);
        assert(valid_utf8(rest));
        assert(rest[0] == bytes[at]);
        assert(length_of_first_scalar(rest) == 1);
        reveal_with_fuel(is_char_boundary, 2);
        assert(is_char_boundary(rest, 1));
        is_char_boundary_iff_not_is_continuation_byte(rest, 1);
        assert(rest[1] == bytes[at + 1]);
        is_char_boundary_iff_not_is_continuation_byte(bytes, at + 1);
    }
}

proof fn lemma_last_match(bytes: Seq<u8>, pattern: Seq<u8>, low: int, high: int)
    ensures
        last_match(bytes, pattern, low, high) matches Some(at) ==> low <= at <= high
            && bytes.subrange(at, at + pattern.len()) == pattern,
    decreases high - low + 1,
{
    if low <= high {
        lemma_last_match(bytes, pattern, low, high - 1);
    }
}

proof fn lemma_break_point(bytes: Seq<u8>, start: int, end: int)
    requires
        valid_utf8(bytes),
        0 <= start <= end <= bytes.len(),
        is_char_boundary(bytes, end),
    ensures
        start <= break_point(bytes, start, end) <= end,
        is_char_boundary(bytes, break_point(bytes, start, end)),
{
    let paragraph = seq![NEWLINE, NEWLINE];
    let sentence = seq![PERIOD, SPACE];
    let word = seq![SPACE];
    lemma_last_match(bytes, paragraph, start, end - 2);
    lemma_last_match(bytes, sentence, start, end - 2);
    lemma_last_match(bytes, word, start, end - 1);
    match last_match(bytes, paragraph, start, end - 2) {
        Some(at) => {
            assert(bytes.subrange(at, at + 2)[1] == NEWLINE);
            lemma_boundary_after_ascii(bytes, at + 1);
        },
        None => match last_match(bytes, sentence, start, end - 2) {
            Some(at) => {
                assert(bytes.subrange(at, at + 2)[1] == SPACE);
                lemma_boundary_after_ascii(bytes, at + 1);
            },
            None => match last_match(bytes, word, start, end - 1) {
                Some(at) => {
                    assert(bytes.subrange(at, at + 1)[0] == SPACE);
                    lemma_boundary_after_ascii(bytes, at);
                },
                None => {},
            },
        },
    }
}

fn find_pair(bytes: &[u8], first: u8, second: u8, low: usize, end: usize) -> (r: Option<usize>)
    requires
        low <= end <= bytes@.len(),
    ensures
        (match r {
            Some(at) => Some(at as int),
            None => None,
        }) == last_match(bytes@, seq![first, second], low as int, end - 2),
{
    if end - low < 2 {
        return None;
    }
    let ghost pattern = seq![first, second];
    let mut at: usize = end - 2;
    loop
        invariant
            low <= at <= end - 2,
            end <= bytes@.len(),
            last_match(bytes@, pattern, low as int, end - 2) == last_match(
                bytes@,
                pattern,
                low as int,
                at as int,
            ),
        decreases at,
    {
        proof {
            let part = bytes@.subrange(at as int, at + 2);
            assert(part[0] == bytes@[at as int] && part[1] == bytes@[at + 1]);
            if bytes@[at as int] == first && bytes@[at + 1] == second {
                assert(part =~= pattern);
            } else {
                assert(pattern[0] == first && pattern[1] == second);
            }
        }
        if bytes[at] == first && bytes[at + 1] == second {
            return Some(at);
        }
        if at == low {
            proof {
                assert(last_match(bytes@, pattern, low as int, low - 1) is None);
            }
            return None;
        }
        at -= 1;
    }
}

fn find_byte(bytes: &[u8], wanted: u8, low: usize, end: usize) -> (r: Option<usize>)
    requires
        low <= end <= bytes@.len(),
    ensures
        (match r {
            Some(at) => Some(at as int),
            None => None,
        }) == last_match(bytes@, seq![wanted], low as int, end - 1),
{
    if end == low {
        return None;
    }
    let ghost pattern = seq![wanted];
    let mut at: usize = end - 1;
    loop
        invariant
            low <= at <= end - 1,
            end <= bytes@.len(),
            last_match(bytes@, pattern, low as int, end - 1) == last_match(
                bytes@,
                pattern,
                low as int,
                at as int,
            ),
        decreases at,
    {
        proof {
            let part = bytes@.subrange(at as int, at + 1);
            assert(part[0] == bytes@[at as int]);
            if bytes@[at as int] == wanted {
                assert(part =~= pattern);
            } else {
                assert(pattern[0] == wanted);
            }
        }
        if bytes[at] == wanted {
            return Some(at);
        }
        if at == low {
            proof {
                assert(last_match(bytes@, pattern, low as int, low - 1) is None);
            }
            return None;
        }
        at -= 1;
    }
}

fn find_break(bytes: &[u8], start: usize, end: usize) -> (r: usize)
    requires
        start <= end <= bytes@.len(),
        valid_utf8(bytes@),
        is_char_boundary(bytes@, end as int),
    ensures
        r == break_point(bytes@, start as int, end as int),
        start <= r <= end,
{
    proof {
        lemma_break_point(bytes@, start as int, end as int);
    }
    match find_pair(bytes, NEWLINE, NEWLINE, start, end) {
        Some(at) => at + 2,
        None => match find_pair(bytes, PERIOD, SPACE, start, end) {
            Some(at) => at + 2,
            None => match find_byte(bytes, SPACE, start, end) {
                Some(at) => at + 1,
                None => end,
            },
        },
    }
}

/// The part of a text between two boundaries.
fn part_of(content: &str, start: usize, end: usize) -> (r: String)
    requires
        start <= end <= encode_utf8(content@).len(),
        is_char_boundary(encode_utf8(content@), start as int),
        is_char_boundary(encode_utf8(content@), end as int),
    ensures
        r@ == decode_utf8(encode_utf8(content@).subrange(start as int, end as int)),
{
    let ghost bytes = encode_utf8(content@);
    proof {
        encode_utf8_valid_utf8(content@);
    }
    let (head, _) = content.split_at(end);
    proof {
        encode_utf8_valid_utf8(head@);
        lemma_boundary_of_prefix(bytes, start as int, end as int);
    }
    let (_, part) = head.split_at(start);
    proof {
        encode_utf8_decode_utf8(part@);
        assert(encode_utf8(part@) =~= bytes.subrange(start as int, end as int));
    }
    part.to_string()
}

proof fn lemma_boundary_of_prefix(bytes: Seq<u8>, start: int, end: int)
    requires
        valid_utf8(bytes),
        0 <= start <= end <= bytes.len(),
        is_char_boundary(bytes, start),
        is_char_boundary(bytes, end),
    ensures
        is_char_boundary(bytes.subrange(0, end), start),
{
    let head = bytes.subrange(0, end);
    valid_utf8_split(bytes, end);
    assert(valid_utf8(head));
    is_char_boundary_start_end_of_seq(head);
    if start < end {
        is_char_boundary_iff_not_is_continuation_byte(bytes, start);
        is_char_boundary_iff_not_is_continuation_byte(head, start);
        assert(head[start] == bytes[start]);
    }
}

/// Splits a text into chunks of at most `max` bytes. The next chunk begins `max - overlap` bytes
/// behind a chunk, but at least one byte, and where the chunk ends if that comes first.
pub fn split_into_chunks(content: &str, max: usize, overlap: usize) -> (r: Vec<(i32, i32, String)>)
    requires
        encode_utf8(content@).len() > max ==> chunkable(
            encode_utf8(content@),
            0,
            max as int,
            overlap as int,
        ),
    ensures
        chunk_views(r@) == chunks_of(content@, max as int, overlap as int),
{
    let ghost text = encode_utf8(content@);
    let bytes = content.as_bytes();
    proof {
        encode_utf8_valid_utf8(content@);
        is_char_boundary_start_end_of_seq(text);
    }
    let size: usize = bytes.len();
    let mut chunks: Vec<(i32, i32, String)> = Vec::new();
    if size <= max {
        chunks.push((0, narrow(size), content.to_string()));
        proof {
            encode_utf8_decode_utf8(content@);
            assert(text.subrange(0, text.len() as int) =~= text);
            assert(chunk_views(chunks@) =~= chunks_of(content@, max as int, overlap as int));
        }
        return chunks;
    }
    let step: usize = if max > overlap {
        max - overlap
    } else {
        1
    };
    let ghost all = ranges_from(text, 0, max as int, overlap as int);
    let ghost map = |range: (int, int)| chunk_of(text, range);
    let ghost mut done: Seq<(int, int)> = Seq::empty();
    let mut start: usize = 0;
    proof {
        assert(done + ranges_from(text, 0, max as int, overlap as int) =~= all);
        assert(chunk_views(chunks@) =~= done.map_values(map));
    }
    while start < size
        invariant
            start <= size == text.len() == bytes@.len(),
            size > max,
            bytes@ == text,
            valid_utf8(text),
            step == advance(max as int, overlap as int),
            is_char_boundary(text, start as int),
            chunkable(text, start as int, max as int, overlap as int),
            all == done + ranges_from(text, start as int, max as int, overlap as int),
            chunk_views(chunks@) == done.map_values(map),
        decreases size - start,
    {
        let limit: usize = if max >= size - start {
            size
        } else {
            start + max
        };
        let end: usize = find_boundary(content, limit);
        proof {
            law_floor_boundary(text, limit as int);
            lemma_floor_below(text, start as int, limit as int);
            assert(end == floor_boundary(text, start + max));
        }
        let actual_end: usize = if end < size {
            proof {
                lemma_break_point(text, start as int, end as int);
            }
            find_break(bytes, start, end)
        } else {
            end
        };
        let chunk = part_of(content, start, actual_end);
        let ghost range = (start as int, actual_end as int);
        let ghost before = chunk_views(chunks@);
        chunks.push((narrow(start), narrow(actual_end), chunk));
        proof {
            assert(chunk_views(chunks@) =~= before.push(chunk_of(text, range)));
            assert(done.push(range).map_values(map) =~= done.map_values(map).push(
                chunk_of(text, range),
            ));
            done = done.push(range);
        }
        if actual_end >= size {
            proof {
                assert(all =~= done);
            }
            return chunks;
        }
        let following: usize = if step >= size - start {
            size
        } else {
            start + step
        };
        let advanced: usize = find_boundary(content, following);
        let next: usize = if start < actual_end && actual_end < advanced {
            actual_end
        } else {
            advanced
        };
        proof {
            assert(advanced == floor_boundary(text, start + step));
            assert(next == next_start(text, start as int, max as int, overlap as int));
            assert(all =~= done + ranges_from(text, next as int, max as int, overlap as int));
        }
        start = next;
    }
    proof {
        assert(all =~= done);
    }
    chunks
}

/// A number as a 32-bit number. One that does not fit wraps around.
pub fn narrow(n: usize) -> (r: i32)
    ensures
        r == n as i32,
{
    #[verifier::truncate]
    (n as i32)
}

proof fn lemma_floor_below(bytes: Seq<u8>, low: int, index: int)
    requires
        valid_utf8(bytes),
        0 <= low <= index,
        low <= bytes.len(),
        is_char_boundary(bytes, low),
    ensures
        low <= floor_boundary(bytes, index),
{
    law_floor_boundary(bytes, index);
}

/// What holds of the ranges of chunks from `start` on.
pub open spec fn sound_ranges(
    bytes: Seq<u8>,
    ranges: Seq<(int, int)>,
    start: int,
    max: int,
    overlap: int,
) -> bool {
    &&& ranges.len() > 0
    &&& ranges[0].0 == start
    &&& forall|i: int| #![trigger ranges[i]]
        0 <= i < ranges.len() ==> {
            &&& 0 <= ranges[i].0 <= ranges[i].1 <= bytes.len()
            &&& ranges[i].1 - ranges[i].0 <= max
            &&& is_char_boundary(bytes, ranges[i].0)
            &&& is_char_boundary(bytes, ranges[i].1)
            &&& ranges[i].1 == chunk_end(bytes, ranges[i].0, max)
        }
    &&& forall|i: int| #![trigger ranges[i]]
        0 < i < ranges.len() ==> ranges[i - 1].0 < ranges[i].0 && ranges[i].0 == next_start(
            bytes,
            ranges[i - 1].0,
            max,
            overlap,
        )
    &&& ranges.last().1 == bytes.len()
}

proof fn lemma_sound_ranges(bytes: Seq<u8>, start: int, max: int, overlap: int)
    requires
        valid_utf8(bytes),
        0 <= start < bytes.len(),
        is_char_boundary(bytes, start),
        max >= 1,
        overlap >= 0,
        chunkable(bytes, start, max, overlap),
    ensures
        sound_ranges(bytes, ranges_from(bytes, start, max, overlap), start, max, overlap),
    decreases bytes.len() - start,
{
    let end = floor_boundary(bytes, start + max);
    law_floor_boundary(bytes, start + max);
    lemma_floor_below(bytes, start, start + max);
    if end < bytes.len() {
        lemma_break_point(bytes, start, end);
    }
    let ranges = ranges_from(bytes, start, max, overlap);
    let own = (start, chunk_end(bytes, start, max));
    if own.1 < bytes.len() {
        let next = next_start(bytes, start, max, overlap);
        law_floor_boundary(bytes, start + advance(max, overlap));
        assert(next < bytes.len());
        lemma_sound_ranges(bytes, next, max, overlap);
        let rest = ranges_from(bytes, next, max, overlap);
        assert(ranges == seq![own] + rest);
        assert forall|i: int| #![trigger ranges[i]] 0 < i < ranges.len() implies ranges[i - 1].0
            < ranges[i].0 && ranges[i].0 == next_start(bytes, ranges[i - 1].0, max, overlap) by {
            assert(ranges[i] == rest[i - 1]);
            if i > 1 {
                assert(ranges[i - 1] == rest[i - 2]);
            }
        }
        assert forall|i: int| #![trigger ranges[i]] 0 <= i < ranges.len() implies {
            &&& 0 <= ranges[i].0 <= ranges[i].1 <= bytes.len()
            &&& ranges[i].1 - ranges[i].0 <= max
            &&& is_char_boundary(bytes, ranges[i].0)
            &&& is_char_boundary(bytes, ranges[i].1)
            &&& ranges[i].1 == chunk_end(bytes, ranges[i].0, max)
        } by {
            if i > 0 {
                assert(ranges[i] == rest[i - 1]);
            }
        }
        assert(ranges.last() == rest.last());
    }
}

/// The chunks of a text begin at its start and reach its end. None is longer than `max` bytes, none
/// splits a character, and each begins behind the one before it.
pub proof fn law_chunks_are_sound(bytes: Seq<u8>, max: int, overlap: int)
    requires
        valid_utf8(bytes),
        max >= 1,
        overlap >= 0,
        bytes.len() > max ==> chunkable(bytes, 0, max, overlap),
    ensures
        sound_ranges(bytes, chunk_ranges(bytes, max, overlap), 0, max, overlap),
{
    is_char_boundary_start_end_of_seq(bytes);
    if bytes.len() > max {
        lemma_sound_ranges(bytes, 0, max, overlap);
    }
}

/// The chunks cover the text: each begins at or before the end of the one before it.
pub proof fn law_chunks_leave_no_gap(bytes: Seq<u8>, max: int, overlap: int)
    requires
        valid_utf8(bytes),
        max >= 1,
        overlap >= 0,
        bytes.len() > max ==> chunkable(bytes, 0, max, overlap),
    ensures
        forall|i: int| #![trigger chunk_ranges(bytes, max, overlap)[i]]
            0 <= i < chunk_ranges(bytes, max, overlap).len() - 1 ==> chunk_ranges(
                bytes,
                max,
                overlap,
            )[i + 1].0 <= chunk_ranges(bytes, max, overlap)[i].1,
{
    law_chunks_are_sound(bytes, max, overlap);
    let ranges = chunk_ranges(bytes, max, overlap);
    assert forall|i: int| #![trigger ranges[i]] 0 <= i < ranges.len() - 1 implies ranges[i + 1].0
        <= ranges[i].1 by {
        let start = ranges[i].0;
        let end = ranges[i].1;
        assert(ranges[i + 1].0 == next_start(bytes, start, max, overlap));
        if end <= start {
            let limit = floor_boundary(bytes, start + max);
            law_floor_boundary(bytes, start + max);
            lemma_floor_below(bytes, start, start + max);
            law_floor_boundary(bytes, start + advance(max, overlap));
            if limit < bytes.len() {
                lemma_break_behind(bytes, start, limit);
            }
            let next = floor_boundary(bytes, start + advance(max, overlap));
            assert(next <= start);
        }
    }
}

proof fn lemma_break_behind(bytes: Seq<u8>, start: int, end: int)
    requires
        start <= end,
    ensures
        break_point(bytes, start, end) > start || break_point(bytes, start, end) == end,
{
    lemma_last_match(bytes, seq![NEWLINE, NEWLINE], start, end - 2);
    lemma_last_match(bytes, seq![PERIOD, SPACE], start, end - 2);
    lemma_last_match(bytes, seq![SPACE], start, end - 1);
}

/// The boundary behind the character at a boundary is at most four bytes away.
proof fn lemma_next_boundary(bytes: Seq<u8>, at: int) -> (next: int)
    requires
        valid_utf8(bytes),
        0 <= at < bytes.len(),
        is_char_boundary(bytes, at),
    ensures
        at < next <= at + 4,
        next <= bytes.len(),
        is_char_boundary(bytes, next),
{
    is_char_boundary_start_end_of_seq(bytes);
    valid_utf8_split(bytes, at);
    let rest = bytes.subrange(at, bytes.len() as int);
    assert(valid_utf8(rest));
    let width = length_of_first_scalar(rest);
    assert(1 <= width <= 4 && width <= rest.len());
    assert(is_char_boundary(rest, width)) by {
        reveal_with_fuel(is_char_boundary, 2);
    }
    if at + width < bytes.len() {
        is_char_boundary_iff_not_is_continuation_byte(rest, width);
        assert(rest[width] == bytes[at + width]);
        is_char_boundary_iff_not_is_continuation_byte(bytes, at + width);
    }
    at + width
}

/// With an advance of four bytes or more every text can be split.
pub proof fn law_wide_advance_splits_everything(bytes: Seq<u8>, start: int, max: int, overlap: int)
    requires
        valid_utf8(bytes),
        0 <= start <= bytes.len(),
        is_char_boundary(bytes, start),
        overlap >= 0,
        advance(max, overlap) >= 4,
    ensures
        chunkable(bytes, start, max, overlap),
    decreases bytes.len() - start,
{
    if start < bytes.len() {
        let following = lemma_next_boundary(bytes, start);
        let next = next_start(bytes, start, max, overlap);
        law_floor_boundary(bytes, start + advance(max, overlap));
        let limit = floor_boundary(bytes, start + max);
        law_floor_boundary(bytes, start + max);
        lemma_floor_below(bytes, start, start + max);
        if limit < bytes.len() {
            lemma_break_point(bytes, start, limit);
        }
        if chunk_end(bytes, start, max) < bytes.len() {
            law_wide_advance_splits_everything(bytes, next, max, overlap);
        }
    }
}

/// Whether the splitting of a text comes to an end.
pub fn can_split(content: &str, max: usize, overlap: usize) -> (r: bool)
    ensures
        r == (encode_utf8(content@).len() > max ==> chunkable(
            encode_utf8(content@),
            0,
            max as int,
            overlap as int,
        )),
{
    let ghost text = encode_utf8(content@);
    let bytes = content.as_bytes();
    proof {
        encode_utf8_valid_utf8(content@);
        is_char_boundary_start_end_of_seq(text);
    }
    let size: usize = bytes.len();
    if size <= max {
        return true;
    }
    let step: usize = if max > overlap {
        max - overlap
    } else {
        1
    };
    let mut start: usize = 0;
    while start < size
        invariant
            start <= size == text.len() == bytes@.len(),
            size > max,
            bytes@ == text,
            valid_utf8(text),
            step == advance(max as int, overlap as int),
            is_char_boundary(text, start as int),
            chunkable(text, 0, max as int, overlap as int) == chunkable(
                text,
                start as int,
                max as int,
                overlap as int,
            ),
        decreases size - start,
    {
        let limit: usize = if max >= size - start {
            size
        } else {
            start + max
        };
        let end: usize = find_boundary(content, limit);
        proof {
            law_floor_boundary(text, limit as int);
            lemma_floor_below(text, start as int, limit as int);
            assert(end == floor_boundary(text, start + max));
        }
        if end >= size {
            return true;
        }
        proof {
            lemma_break_point(text, start as int, end as int);
        }
        let actual_end: usize = find_break(bytes, start, end);
        if actual_end >= size {
            return true;
        }
        let following: usize = if step >= size - start {
            size
        } else {
            start + step
        };
        let advanced: usize = find_boundary(content, following);
        let next: usize = if start < actual_end && actual_end < advanced {
            actual_end
        } else {
            advanced
        };
        proof {
            assert(advanced == floor_boundary(text, start + step));
            assert(next == next_start(text, start as int, max as int, overlap as int));
        }
        if next <= start {
            return false;
        }
        start = next;
    }
    true
}

} // verus!
