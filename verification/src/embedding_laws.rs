//! What the embedding of roots promises.

use crate::chunking::{
    advance, break_point, chunk_end, chunk_ranges, chunkable, chunks_of, floor_boundary, last_match,
    law_chunks_are_sound, law_floor_boundary, next_start, NEWLINE, PERIOD, SPACE,
};
use crate::embedding::{assembled, hex_digit, present, truncated, EmbeddingConfig};
use crate::embedding_queue::{
    embed_chunks_next, embed_next, embedding_is_root_next, extract_next, find_root_next,
    pending_next, queue_many_next, queue_roots_next, stale_error_next, stale_next, stale_roots_next,
};
use crate::error::ErrorView;
use crate::json::Json;
use crate::node::NodeView;
use crate::playbook::{embeddable_next, playbook_next, playbook_rule_next};
use crate::protocol::{OutcomeView, ReplyView, RequestView, StepView};
use crate::queueing::queue_walk_next;
use crate::text::{blank, joined};
use crate::trace::{asked_at, lemma_answered_later, lemma_asked_later, was_answered, was_asked};
use vstd::prelude::*;
use vstd::utf8::{
    decode_utf8_encode_utf8, encode_utf8, encode_utf8_valid_utf8, is_char_boundary,
    is_char_boundary_start_end_of_seq, valid_utf8, valid_utf8_split,
};

verus! {

proof fn lemma_last(bytes: Seq<u8>, pattern: Seq<u8>, low: int, high: int, i: int)
    ensures
        last_match(bytes, pattern, low, high) matches Some(at) ==> low <= at <= high
            && bytes.subrange(at, at + pattern.len()) == pattern,
        low <= i <= high && bytes.subrange(i, i + pattern.len()) == pattern ==> (last_match(
            bytes,
            pattern,
            low,
            high,
        ) matches Some(at) && i <= at),
    decreases high - low + 1,
{
    if high >= low {
        lemma_last(bytes, pattern, low, high - 1, i);
    }
}

/// A paragraph ends at the position: two line ends stand before it.
pub open spec fn ends_paragraph(bytes: Seq<u8>, at: int) -> bool {
    bytes.subrange(at - 2, at) == seq![10u8, 10u8]
}

/// A sentence ends at the position: a period and a space stand before it.
pub open spec fn ends_sentence(bytes: Seq<u8>, at: int) -> bool {
    bytes.subrange(at - 2, at) == seq![46u8, 32u8]
}

/// A word ends at the position: a space stands before it.
pub open spec fn ends_word(bytes: Seq<u8>, at: int) -> bool {
    bytes.subrange(at - 1, at) == seq![32u8]
}

/// A part of a text is broken behind its last paragraph; if it has no end of a paragraph, behind its
/// last sentence; if it has none of that either, behind its last word; and else at its end.
pub proof fn law_breaks_are_where_they_disturb_least(bytes: Seq<u8>, start: int, end: int, i: int)
    requires
        start <= end,
    ensures
        ({
            let at = break_point(bytes, start, end);
            &&& start + 2 <= i <= end && ends_paragraph(bytes, i) ==> ends_paragraph(bytes, at) && i
                <= at <= end
            &&& start + 2 <= i <= end && ends_sentence(bytes, i) ==> ends_paragraph(bytes, at) || (
            ends_sentence(bytes, at) && i <= at <= end)
            &&& start + 1 <= i <= end && ends_word(bytes, i) ==> ends_paragraph(bytes, at)
                || ends_sentence(bytes, at) || (ends_word(bytes, at) && i <= at <= end)
            &&& at == end || (start < at <= end && (ends_paragraph(bytes, at) || ends_sentence(
                bytes,
                at,
            ) || ends_word(bytes, at)))
        }),
{
    let paragraph = seq![NEWLINE, NEWLINE];
    let sentence = seq![PERIOD, SPACE];
    let word = seq![SPACE];
    assert(paragraph =~= seq![10u8, 10u8]);
    assert(sentence =~= seq![46u8, 32u8]);
    assert(word =~= seq![32u8]);
    lemma_last(bytes, paragraph, start, end - 2, i - 2);
    lemma_last(bytes, sentence, start, end - 2, i - 2);
    lemma_last(bytes, word, start, end - 1, i - 1);
}

/// A chunk is as long as it may be, up to the break that is best, and the last one reaches the end.
pub proof fn law_chunks_end_at_breaks(bytes: Seq<u8>, start: int, max: int)
    requires
        valid_utf8(bytes),
        0 <= start,
        max >= 1,
    ensures
        start + max >= bytes.len() ==> chunk_end(bytes, start, max) == bytes.len(),
        start + max < bytes.len() ==> exists|limit: int| #[trigger]
            is_char_boundary(bytes, limit) && limit <= start + max && (forall|i: int|
            limit < i <= start + max ==> !#[trigger] is_char_boundary(bytes, i)) && chunk_end(
                bytes,
                start,
                max,
            ) == break_point(bytes, start, limit),
{
    law_floor_boundary(bytes, start + max);
    if start + max < bytes.len() {
        assert(is_char_boundary(bytes, floor_boundary(bytes, start + max)));
    }
}

/// Neighbouring chunks overlap: the next one begins where the one before it would be longer by the
/// overlap, or where it was broken off if that is earlier.
pub proof fn law_chunks_overlap(bytes: Seq<u8>, max: int, overlap: int, i: int)
    requires
        valid_utf8(bytes),
        max >= 1,
        overlap >= 0,
        bytes.len() > max ==> chunkable(bytes, 0, max, overlap),
        0 < i < chunk_ranges(bytes, max, overlap).len(),
    ensures
        ({
            let before = chunk_ranges(bytes, max, overlap)[i - 1];
            let start = chunk_ranges(bytes, max, overlap)[i].0;
            let step = if overlap < max {
                max - overlap
            } else {
                1
            };
            &&& start <= before.0 + step
            &&& start == before.1 || (forall|k: int|
                start < k <= before.0 + step && k <= bytes.len() ==> !#[trigger] is_char_boundary(
                    bytes,
                    k,
                ))
        }),
{
    law_chunks_are_sound(bytes, max, overlap);
    let ranges = chunk_ranges(bytes, max, overlap);
    assert(ranges[i - 1].0 >= 0);
    assert(ranges[i].0 == next_start(bytes, ranges[i - 1].0, max, overlap));
    assert(ranges[i - 1].1 == chunk_end(bytes, ranges[i - 1].0, max));
    law_floor_boundary(bytes, ranges[i - 1].0 + advance(max, overlap));
}

/// A chunk is the text between its two ends.
pub proof fn law_chunks_are_parts_of_the_text(text: Seq<char>, max: int, overlap: int, i: int)
    requires
        max >= 1,
        overlap >= 0,
        encode_utf8(text).len() > max ==> chunkable(encode_utf8(text), 0, max, overlap),
        encode_utf8(text).len() <= i32::MAX,
        0 <= i < chunks_of(text, max, overlap).len(),
    ensures
        ({
            let chunk = chunks_of(text, max, overlap)[i];
            &&& 0 <= chunk.0 <= chunk.1 <= encode_utf8(text).len()
            &&& encode_utf8(chunk.2) == encode_utf8(text).subrange(chunk.0 as int, chunk.1 as int)
            &&& i == 0 ==> chunk.0 == 0
            &&& i == chunks_of(text, max, overlap).len() - 1 ==> chunk.1 == encode_utf8(text).len()
        }),
{
    let bytes = encode_utf8(text);
    encode_utf8_valid_utf8(text);
    law_chunks_are_sound(bytes, max, overlap);
    let ranges = chunk_ranges(bytes, max, overlap);
    let range = ranges[i];
    lemma_valid_part(bytes, range.0, range.1);
    decode_utf8_encode_utf8(bytes.subrange(range.0, range.1));
}

proof fn lemma_valid_part(bytes: Seq<u8>, start: int, end: int)
    requires
        valid_utf8(bytes),
        0 <= start <= end <= bytes.len(),
        is_char_boundary(bytes, start),
        is_char_boundary(bytes, end),
    ensures
        valid_utf8(bytes.subrange(start, end)),
{
    valid_utf8_split(bytes, start);
    let rest = bytes.subrange(start, bytes.len() as int);
    let width = end - start;
    is_char_boundary_start_end_of_seq(rest);
    is_char_boundary_start_end_of_seq(bytes);
    if 0 < width < rest.len() {
        vstd::utf8::is_char_boundary_iff_not_is_continuation_byte(bytes, end);
        assert(rest[width] == bytes[end]);
        vstd::utf8::is_char_boundary_iff_not_is_continuation_byte(rest, width);
    }
    valid_utf8_split(rest, width);
    assert(rest.subrange(0, width) =~= bytes.subrange(start, end));
}

/// A text that is too long is cut off at the last character that fits; one that fits stays.
pub proof fn law_long_texts_are_cut_off(text: Seq<char>, max_size: int, i: int)
    requires
        max_size >= 0,
    ensures
        encode_utf8(text).len() <= max_size ==> truncated(text, max_size) == text,
        encode_utf8(text).len() > max_size ==> {
            let kept = encode_utf8(truncated(text, max_size));
            &&& kept.len() <= max_size
            &&& kept == encode_utf8(text).subrange(0, kept.len() as int)
            &&& kept.len() < i <= max_size ==> !is_char_boundary(encode_utf8(text), i)
        },
{
    let bytes = encode_utf8(text);
    encode_utf8_valid_utf8(text);
    if bytes.len() > max_size {
        law_floor_boundary(bytes, max_size);
        let at = floor_boundary(bytes, max_size);
        is_char_boundary_start_end_of_seq(bytes);
        lemma_valid_part(bytes, 0, at);
        decode_utf8_encode_utf8(bytes.subrange(0, at));
    }
}

/// The text of a root is made of its title, its own content and the content below it, those that are
/// not blank, with an empty line between them; without any of them there is none.
pub proof fn law_texts_are_put_together(
    title: Seq<char>,
    own: Seq<char>,
    below: Seq<char>,
    max_size: int,
)
    ensures
        assembled(Some(title), own, Some(below), max_size) is None <==> blank(title) && blank(own)
            && blank(below),
        assembled(None, own, None, max_size) is None <==> blank(own),
        !blank(own) ==> assembled(None, own, None, max_size) == Some(truncated(own, max_size)),
        !blank(title) && !blank(own) ==> assembled(Some(title), own, None, max_size) == Some(
            truncated(title + "\n\n"@ + own, max_size),
        ),
        blank(title) && !blank(own) ==> assembled(Some(title), own, None, max_size) == Some(
            truncated(own, max_size),
        ),
        !blank(own) && !blank(below) ==> assembled(None, own, Some(below), max_size) == Some(
            truncated(own + "\n\n"@ + below, max_size),
        ),
        !blank(title) && !blank(own) && !blank(below) ==> assembled(
            Some(title),
            own,
            Some(below),
            max_size,
        ) == Some(truncated(title + "\n\n"@ + own + "\n\n"@ + below, max_size)),
        blank(own) && !blank(below) ==> assembled(None, own, Some(below), max_size) == Some(
            truncated(below, max_size),
        ),
{
    reveal_with_fuel(joined, 4);
    let all = present(Some(title)) + present(Some(own)) + present(Some(below));
    if !blank(title) && !blank(own) && !blank(below) {
        assert(all =~= seq![title, own, below]);
        assert(all.drop_last() =~= seq![title, own]);
        assert(all.drop_last().drop_last() =~= seq![title]);
    }
    let two = present(Some(title)) + present(Some(own)) + present(None);
    if !blank(own) {
        if !blank(title) {
            assert(two =~= seq![title, own]);
            assert(two.drop_last() =~= seq![title]);
        } else {
            assert(two =~= seq![own]);
        }
    }
    let last = present(None) + present(Some(own)) + present(Some(below));
    if !blank(below) {
        if !blank(own) {
            assert(last =~= seq![own, below]);
            assert(last.drop_last() =~= seq![own]);
        } else {
            assert(last =~= seq![below]);
        }
    }
    let one = present(None) + present(Some(own)) + present(None);
    if !blank(own) {
        assert(one =~= seq![own]);
    }
}

/// A hash is written in lower case.
pub proof fn law_hexadecimal_digits(n: int)
    requires
        0 <= n < 16,
    ensures
        hex_digit(n) == "0123456789abcdef"@[n],
{
    reveal_strlit("0123456789abcdef");
}

/// The search for a root goes from parent to parent and ends at the node that has none.
pub proof fn law_roots_are_found(id: Seq<char>, left: nat, log: Seq<ReplyView>, root: Seq<char>)
    requires
        find_root_next(id, left, log) == StepView::Finish(OutcomeView::Id { id: root }),
    ensures
        was_answered(
            |l: Seq<ReplyView>| find_root_next(id, left, l),
            log,
            RequestView::LoadParent { id: root },
            ReplyView::Node { node: None },
        ),
        log.len() > 0,
        log[0] == (ReplyView::Node { node: None }) ==> root == id,
        log[0] matches ReplyView::Node { node: Some(parent) } ==> find_root_next(
            id,
            left,
            log.take(1),
        ) == StepView::Ask(RequestView::LoadParent { id: parent.id }),
    decreases left,
{
    let op = |l: Seq<ReplyView>| find_root_next(id, left, l);
    if let ReplyView::Node { node: Some(parent) } = log[0] {
        let less = (left - 1) as nat;
        let inner = |l: Seq<ReplyView>| find_root_next(parent.id, less, l);
        law_roots_are_found(parent.id, less, log.skip(1), root);
        assert forall|k: int| 1 <= k <= log.len() implies #[trigger] op(log.take(k)) == inner(
            log.skip(1).take(k - 1),
        ) by {
            assert(log.take(k)[0] == log[0]);
            assert(log.take(k).skip(1) =~= log.skip(1).take(k - 1));
        }
        lemma_answered_later(
            op,
            inner,
            log,
            1,
            RequestView::LoadParent { id: root },
            ReplyView::Node { node: None },
        );
        assert(op(log.take(1)) == inner(log.skip(1).take(0)));
        assert(log.skip(1).take(0).len() == 0);
        assert(less > 0);
    } else {
        assert(log.take(0).len() == 0);
        assert(asked_at(op, log, RequestView::LoadParent { id }, 0));
    }
}

/// A node is a root of its own exactly if it has no parent.
pub proof fn law_embedded_roots_have_no_parent(id: Seq<char>, parent: Option<NodeView>, value: bool)
    requires
        embedding_is_root_next(id, seq![ReplyView::Node { node: parent }]) == StepView::Finish(
            OutcomeView::Flag { value },
        ),
    ensures
        value <==> parent is None,
        embedding_is_root_next(id, Seq::empty()) == StepView::Ask(RequestView::LoadParent { id }),
{
}

/// After a change the root above the node is queued: its embeddings are marked as stale, or a marker is
/// made where there are none, and the embedder is woken. A root that cannot be embedded or is not there
/// is left alone.
pub proof fn law_changed_roots_are_queued(
    id: Seq<char>,
    root: Seq<char>,
    node_type: Seq<char>,
    embedded: bool,
)
    ensures
        ({
            let one = seq![ReplyView::Text { text: root }];
            let two = one.push(ReplyView::MaybeText { text: Some(node_type) });
            let three = two.push(ReplyView::Flag { value: true });
            let four = three.push(ReplyView::Flag { value: embedded });
            let nothing = StepView::Finish(OutcomeView::Nothing);
            &&& crate::queueing::queue_next(id, Seq::empty()) == StepView::Ask(
                RequestView::GetRoot { id },
            )
            &&& crate::queueing::queue_next(id, one) == StepView::Ask(
                RequestView::LoadNodeType { id: root },
            )
            &&& crate::queueing::queue_next(id, one.push(ReplyView::MaybeText { text: None }))
                == nothing
            &&& crate::queueing::queue_next(id, two) == StepView::Ask(
                RequestView::IsEmbeddable { node_type },
            )
            &&& crate::queueing::queue_next(id, two.push(ReplyView::Flag { value: false })) == nothing
            &&& crate::queueing::queue_next(id, three) == StepView::Ask(
                RequestView::HasEmbeddings { id: root },
            )
            &&& embedded ==> crate::queueing::queue_next(id, four) == StepView::Ask(
                RequestView::MarkStale { id: root },
            )
            &&& !embedded ==> crate::queueing::queue_next(id, four) == StepView::Ask(
                RequestView::CreateStaleMarker { id: root },
            )
            &&& crate::queueing::queue_next(id, four.push(ReplyView::Done)) == StepView::Ask(
                RequestView::WakeEmbedder,
            )
            &&& crate::queueing::queue_next(id, four.push(ReplyView::Done).push(ReplyView::Done))
                == nothing
        }),
{
    let four = seq![ReplyView::Text { text: root }].push(
        ReplyView::MaybeText { text: Some(node_type) },
    ).push(ReplyView::Flag { value: true }).push(ReplyView::Flag { value: embedded });
    let five = four.push(ReplyView::Done);
    let six = five.push(ReplyView::Done);
    assert(four.skip(1).skip(1)[0] == four[2]);
    assert(four.skip(1).skip(1).skip(1)[0] == four[3]);
    assert(five.skip(1).skip(1)[0] == five[2]);
    assert(five.skip(1).skip(1).skip(1)[0] == five[3]);
    assert(five.skip(1).skip(1).skip(1).skip(1)[0] == five[4]);
    assert(six.skip(1).skip(1)[0] == six[2]);
    assert(six.skip(1).skip(1).skip(1)[0] == six[3]);
    assert(six.skip(1).skip(1).skip(1).skip(1)[0] == six[4]);
    assert(six.skip(1).skip(1).skip(1).skip(1).skip(1)[0] == six[5]);
    let three = seq![ReplyView::Text { text: root }].push(
        ReplyView::MaybeText { text: Some(node_type) },
    ).push(ReplyView::Flag { value: true });
    assert(three.skip(1).skip(1)[0] == three[2]);
    let none = seq![ReplyView::Text { text: root }].push(
        ReplyView::MaybeText { text: Some(node_type) },
    ).push(ReplyView::Flag { value: false });
    assert(none.skip(1).skip(1)[0] == none[2]);
}

/// The way up to the root that is queued goes from parent to parent, and the queueing is that of the
/// node without one.
pub proof fn law_the_queued_root_is_the_topmost(
    id: Seq<char>,
    parent: Seq<char>,
    rest: Seq<ReplyView>,
    log: Seq<ReplyView>,
)
    ensures
        queue_walk_next(id, Seq::empty()) == StepView::Ask(RequestView::LoadParentId { id }),
        log.len() > 0 && log[0] == (ReplyView::MaybeText { text: Some(parent) }) ==> queue_walk_next(
            id,
            log,
        ) == queue_walk_next(parent, log.skip(1)),
        queue_walk_next(id, seq![ReplyView::MaybeText { text: None }]) == StepView::Ask(
            RequestView::LoadNodeType { id },
        ),
        queue_walk_next(id, seq![ReplyView::MaybeText { text: None }] + rest)
            == crate::queueing::queue_next(id, seq![ReplyView::Text { text: id }] + rest),
{
    assert((seq![ReplyView::MaybeText { text: None }] + rest).skip(1) =~= rest);
    assert((seq![ReplyView::Text { text: id }] + rest).skip(1) =~= rest);
}

/// By the embedder a root is queued likewise, as far as it contributes a text.
pub proof fn law_roots_are_queued(
    id: Seq<char>,
    root_id: Seq<char>,
    root: NodeView,
    text: Seq<char>,
    embedded: bool,
)
    ensures
        ({
            let one = seq![ReplyView::Text { text: root_id }];
            let two = one.push(ReplyView::Node { node: Some(root) });
            let three = two.push(ReplyView::MaybeText { text: Some(text) });
            let four = three.push(ReplyView::Flag { value: embedded });
            let nothing = StepView::Finish(OutcomeView::Nothing);
            &&& crate::embedding_queue::queue_next(id, Seq::empty()) == StepView::Ask(
                RequestView::FindRoot { id },
            )
            &&& crate::embedding_queue::queue_next(id, one) == StepView::Ask(
                RequestView::GetNode { id: root_id },
            )
            &&& crate::embedding_queue::queue_next(id, one.push(ReplyView::Node { node: None }))
                == nothing
            &&& crate::embedding_queue::queue_next(id, two) == StepView::Ask(
                RequestView::OwnContent { node: root },
            )
            &&& crate::embedding_queue::queue_next(id, two.push(ReplyView::MaybeText { text: None }))
                == nothing
            &&& crate::embedding_queue::queue_next(id, three) == StepView::Ask(
                RequestView::HasEmbeddings { id: root_id },
            )
            &&& embedded ==> crate::embedding_queue::queue_next(id, four) == StepView::Ask(
                RequestView::MarkStale { id: root_id },
            )
            &&& !embedded ==> crate::embedding_queue::queue_next(id, four) == StepView::Ask(
                RequestView::CreateStaleMarker { id: root_id },
            )
            &&& crate::embedding_queue::queue_next(id, four.push(ReplyView::Done)) == nothing
        }),
{
    let three = seq![ReplyView::Text { text: root_id }].push(ReplyView::Node { node: Some(root) }).push(
        ReplyView::MaybeText { text: Some(text) },
    );
    let none = seq![ReplyView::Text { text: root_id }].push(ReplyView::Node { node: Some(root) }).push(
        ReplyView::MaybeText { text: None },
    );
    let four = three.push(ReplyView::Flag { value: embedded });
    let five = four.push(ReplyView::Done);
    assert(none.skip(1).skip(1)[0] == none[2]);
    assert(three.skip(1).skip(1)[0] == three[2]);
    assert(four.skip(1).skip(1)[0] == four[2]);
    assert(four.skip(1).skip(1).skip(1)[0] == four[3]);
    assert(five.skip(1).skip(1)[0] == five[2]);
    assert(five.skip(1).skip(1).skip(1)[0] == five[3]);
    assert(five.skip(1).skip(1).skip(1).skip(1)[0] == five[4]);
}

/// The text of a root is asked of its type: its own part, and if it has one, the part below it.
pub proof fn law_texts_are_asked_of_the_type(
    node: NodeView,
    max_size: int,
    own: Seq<char>,
    below: Option<Seq<char>>,
)
    ensures
        extract_next(node, max_size, Seq::empty()) == StepView::Ask(RequestView::OwnContent { node }),
        extract_next(node, max_size, seq![ReplyView::MaybeText { text: None }]) == StepView::Finish(
            OutcomeView::Content { text: None },
        ),
        extract_next(node, max_size, seq![ReplyView::MaybeText { text: Some(own) }])
            == StepView::Ask(RequestView::AggregatedContent { node }),
        extract_next(
            node,
            max_size,
            seq![ReplyView::MaybeText { text: Some(own) }, ReplyView::MaybeText { text: below }],
        ) == StepView::Finish(
            OutcomeView::Content { text: assembled(node.title, own, below, max_size) },
        ),
{
}

proof fn lemma_chunks_embedded(
    root_id: Seq<char>,
    content: Seq<char>,
    chunks: Seq<(i32, i32, Seq<char>)>,
    i: nat,
    log: Seq<ReplyView>,
    j: int,
)
    requires
        i <= chunks.len(),
        embed_chunks_next(root_id, content, chunks, i, log) is Finish,
    ensures
        log.len() > chunks.len() - i,
        i <= j < chunks.len() ==> log[j - i] == ReplyView::Done && embed_chunks_next(
            root_id,
            content,
            chunks,
            i,
            log.take(j - i),
        ) == StepView::Ask(RequestView::EmbedText { text: chunks[j].2 }),
        embed_chunks_next(root_id, content, chunks, i, log.take(chunks.len() - i)) matches StepView::Ask(
            RequestView::StoreEmbeddings { root_id: under, content_hash: _, chunks: infos },
        ) && under == root_id && infos.len() == chunks.len(),
        log[chunks.len() - i] == ReplyView::Done,
    decreases chunks.len() - i,
{
    if i < chunks.len() {
        let rest = log.skip(1);
        lemma_chunks_embedded(root_id, content, chunks, i + 1, rest, j);
        let n = chunks.len() - i;
        assert(log.take(n)[0] == log[0]);
        assert(log.take(n).skip(1) =~= rest.take(n - 1));
        if i < j < chunks.len() {
            assert(log.take(j - i)[0] == log[0]);
            assert(log.take(j - i).skip(1) =~= rest.take(j - i - 1));
            assert(rest[j - i - 1] == log[j - i]);
        }
        if i == j {
            assert(log.take(0).len() == 0);
        }
    } else {
        assert(log.take(0).len() == 0);
    }
}

/// A root that was embedded has a vector for the text of each of its chunks, and they were stored under
/// the root.
pub proof fn law_embedded_roots_were_stored(
    root_id: Seq<char>,
    config: EmbeddingConfig,
    root: NodeView,
    content: Seq<char>,
    log: Seq<ReplyView>,
    j: int,
)
    requires
        log.len() >= 2,
        log[0] == (ReplyView::Node { node: Some(root) }),
        log[1] == (ReplyView::MaybeText { text: Some(content) }),
        embed_next(root_id, config, log) is Finish,
    ensures
        ({
            let chunks = chunks_of(content, config.max_bytes(), config.overlap_bytes());
            let op = |l: Seq<ReplyView>| embed_next(root_id, config, l);
            &&& embed_next(root_id, config, log.take(1)) == StepView::Ask(
                RequestView::ExtractContent { node: root },
            )
            &&& 0 <= j < chunks.len() ==> was_answered(
                op,
                log,
                RequestView::EmbedText { text: chunks[j].2 },
                ReplyView::Done,
            )
            &&& log.len() > chunks.len() + 2
            &&& log[chunks.len() as int + 2] == ReplyView::Done
            &&& (embed_next(root_id, config, log.take(chunks.len() as int + 2)) matches StepView::Ask(
                RequestView::StoreEmbeddings { root_id: under, content_hash: _, chunks: infos },
            ) && under == root_id && infos.len() == chunks.len())
        }),
{
    let chunks = chunks_of(content, config.max_bytes(), config.overlap_bytes());
    let op = |l: Seq<ReplyView>| embed_next(root_id, config, l);
    let inner = |l: Seq<ReplyView>| embed_chunks_next(root_id, content, chunks, 0, l);
    let rest = log.skip(2);
    assert(log.skip(1).skip(1) =~= rest);
    assert(log.skip(1)[0] == log[1]);
    lemma_chunks_embedded(root_id, content, chunks, 0, rest, j);
    assert forall|k: int| 2 <= k <= log.len() implies #[trigger] op(log.take(k)) == inner(
        rest.take(k - 2),
    ) by {
        assert(log.take(k)[0] == log[0]);
        assert(log.take(k).skip(1)[0] == log[1]);
        assert(log.take(k).skip(1).skip(1) =~= rest.take(k - 2));
    }
    assert(log.take(1)[0] == log[0]);
    assert(log.take(1).skip(1).len() == 0);
    assert(op(log.take(chunks.len() as int + 2)) == inner(rest.take(chunks.len() as int)));
    if 0 <= j < chunks.len() {
        assert(asked_at(inner, rest, RequestView::EmbedText { text: chunks[j].2 }, j));
        lemma_answered_later(
            op,
            inner,
            log,
            2,
            RequestView::EmbedText { text: chunks[j].2 },
            ReplyView::Done,
        );
    }
}

/// What is stored of a chunk says which one it is of how many, and where it begins and ends.
pub proof fn law_chunks_are_described(chunks: Seq<(i32, i32, Seq<char>)>, i: int)
    requires
        0 <= i < chunks.len() <= i32::MAX,
    ensures
        ({
            let info = crate::embedding_queue::chunk_infos(chunks)[i];
            &&& info.chunk_index == i
            &&& info.total_chunks == chunks.len()
            &&& info.chunk_start == chunks[i].0
            &&& info.chunk_end == chunks[i].1
            &&& encode_utf8(chunks[i].2).len() <= i32::MAX ==> 4 * info.token_count <= encode_utf8(
                chunks[i].2,
            ).len() < 4 * info.token_count + 4
        }),
{
}

proof fn lemma_stale(
    ids: Seq<Seq<char>>,
    i: nat,
    done: nat,
    max_retries: u32,
    log: Seq<ReplyView>,
    j: int,
)
    requires
        i <= ids.len(),
        stale_roots_next(ids, i, done, max_retries, log) is Finish,
    ensures
        i <= j < ids.len() ==> {
            let op = |l: Seq<ReplyView>| stale_roots_next(ids, i, done, max_retries, l);
            was_answered(op, log, RequestView::EmbedRoot { id: ids[j] }, ReplyView::Done) || exists|
                error: ErrorView,
            |
                #![trigger was_answered(op, log, RequestView::EmbedRoot { id: ids[j] },
                    ReplyView::Refused { error })]
                was_answered(
                    op,
                    log,
                    RequestView::EmbedRoot { id: ids[j] },
                    ReplyView::Refused { error },
                ) && was_asked(
                    op,
                    log,
                    RequestView::RecordEmbeddingError { id: ids[j], error, max_retries },
                )
        },
    decreases ids.len() - i,
{
    let op = |l: Seq<ReplyView>| stale_roots_next(ids, i, done, max_retries, l);
    if i < ids.len() {
        let embed = RequestView::EmbedRoot { id: ids[j] };
        if let ReplyView::Refused { error } = log[0] {
            let one = log.skip(1);
            assert(stale_roots_next(ids, i, done, max_retries, log) == stale_error_next(
                ids,
                i,
                done,
                max_retries,
                error,
                one,
            ));
            assert(one[0] == log[1]);
            assert(one.skip(1) =~= log.skip(2));
            lemma_stale(ids, i + 1, done, max_retries, log.skip(2), j);
            let inner = |l: Seq<ReplyView>| stale_roots_next(ids, i + 1, done, max_retries, l);
            assert forall|k: int| 2 <= k <= log.len() implies #[trigger] op(log.take(k)) == inner(
                log.skip(2).take(k - 2),
            ) by {
                assert(log.take(k)[0] == log[0]);
                assert(log.take(k).skip(1)[0] == log[1]);
                assert(log.take(k).skip(1).skip(1) =~= log.skip(2).take(k - 2));
                assert(stale_roots_next(ids, i, done, max_retries, log.take(k)) == stale_error_next(
                    ids,
                    i,
                    done,
                    max_retries,
                    error,
                    log.take(k).skip(1),
                ));
            }
            if i == j {
                assert(log.take(0).len() == 0);
                assert(asked_at(op, log, embed, 0));
                assert(log.take(1)[0] == log[0]);
                assert(log.take(1).skip(1).len() == 0);
                assert(stale_roots_next(ids, i, done, max_retries, log.take(1)) == stale_error_next(
                    ids,
                    i,
                    done,
                    max_retries,
                    error,
                    log.take(1).skip(1),
                ));
                assert(asked_at(
                    op,
                    log,
                    RequestView::RecordEmbeddingError { id: ids[j], error, max_retries },
                    1,
                ));
                assert(was_answered(op, log, embed, ReplyView::Refused { error }));
            } else if i < j < ids.len() {
                lemma_stale_later(op, inner, log, 2, ids[j], max_retries);
            }
        } else {
            lemma_stale(ids, i + 1, done + 1, max_retries, log.skip(1), j);
            let inner = |l: Seq<ReplyView>| stale_roots_next(ids, i + 1, done + 1, max_retries, l);
            assert forall|k: int| 1 <= k <= log.len() implies #[trigger] op(log.take(k)) == inner(
                log.skip(1).take(k - 1),
            ) by {
                assert(log.take(k)[0] == log[0]);
                assert(log.take(k).skip(1) =~= log.skip(1).take(k - 1));
            }
            if i == j {
                assert(log.take(0).len() == 0);
                assert(asked_at(op, log, embed, 0));
            } else if i < j < ids.len() {
                lemma_stale_later(op, inner, log, 1, ids[j], max_retries);
            }
        }
    }
}

proof fn lemma_stale_later(
    op: spec_fn(Seq<ReplyView>) -> StepView,
    inner: spec_fn(Seq<ReplyView>) -> StepView,
    log: Seq<ReplyView>,
    n: int,
    id: Seq<char>,
    max_retries: u32,
)
    requires
        0 <= n <= log.len(),
        forall|k: int| n <= k <= log.len() ==> #[trigger] op(log.take(k)) == inner(
            log.skip(n).take(k - n),
        ),
        was_answered(inner, log.skip(n), RequestView::EmbedRoot { id }, ReplyView::Done) || exists|
            error: ErrorView,
        |
            #![trigger was_answered(inner, log.skip(n), RequestView::EmbedRoot { id },
                ReplyView::Refused { error })]
            was_answered(
                inner,
                log.skip(n),
                RequestView::EmbedRoot { id },
                ReplyView::Refused { error },
            ) && was_asked(
                inner,
                log.skip(n),
                RequestView::RecordEmbeddingError { id, error, max_retries },
            ),
    ensures
        was_answered(op, log, RequestView::EmbedRoot { id }, ReplyView::Done) || exists|
            error: ErrorView,
        |
            #![trigger was_answered(op, log, RequestView::EmbedRoot { id },
                ReplyView::Refused { error })]
            was_answered(op, log, RequestView::EmbedRoot { id }, ReplyView::Refused { error })
                && was_asked(
                op,
                log,
                RequestView::RecordEmbeddingError { id, error, max_retries },
            ),
{
    let embed = RequestView::EmbedRoot { id };
    lemma_answered_later(op, inner, log, n, embed, ReplyView::Done);
    if !was_answered(inner, log.skip(n), embed, ReplyView::Done) {
        let error = choose|error: ErrorView|
            #![trigger was_answered(inner, log.skip(n), embed, ReplyView::Refused { error })]
            was_answered(inner, log.skip(n), embed, ReplyView::Refused { error }) && was_asked(
                inner,
                log.skip(n),
                RequestView::RecordEmbeddingError { id, error, max_retries },
            );
        lemma_answered_later(op, inner, log, n, embed, ReplyView::Refused { error });
        lemma_asked_later(
            op,
            inner,
            log,
            n,
            RequestView::RecordEmbeddingError { id, error, max_retries },
        );
    }
}

/// Of the stale roots that the store names each is embedded, or the failure is noted at it with its
/// error.
pub proof fn law_stale_roots_are_embedded(
    limit: Option<usize>,
    config: EmbeddingConfig,
    ids: Seq<Seq<char>>,
    log: Seq<ReplyView>,
    j: int,
)
    requires
        log.len() > 0,
        log[0] == (ReplyView::Texts { items: ids }),
        stale_next(limit, config, log) is Finish,
        0 <= j < ids.len(),
    ensures
        ({
            let op = |l: Seq<ReplyView>| stale_next(limit, config, l);
            let max_retries = config.max_retries;
            was_answered(op, log, RequestView::EmbedRoot { id: ids[j] }, ReplyView::Done) || exists|
                error: ErrorView,
            |
                #![trigger was_answered(op, log, RequestView::EmbedRoot { id: ids[j] },
                    ReplyView::Refused { error })]
                was_answered(
                    op,
                    log,
                    RequestView::EmbedRoot { id: ids[j] },
                    ReplyView::Refused { error },
                ) && was_asked(
                    op,
                    log,
                    RequestView::RecordEmbeddingError { id: ids[j], error, max_retries },
                )
        }),
{
    let op = |l: Seq<ReplyView>| stale_next(limit, config, l);
    let inner = |l: Seq<ReplyView>| stale_roots_next(ids, 0, 0, config.max_retries, l);
    lemma_stale(ids, 0, 0, config.max_retries, log.skip(1), j);
    assert forall|k: int| 1 <= k <= log.len() implies #[trigger] op(log.take(k)) == inner(
        log.skip(1).take(k - 1),
    ) by {
        assert(log.take(k)[0] == log[0]);
        assert(log.take(k).skip(1) =~= log.skip(1).take(k - 1));
    }
    lemma_stale_later(op, inner, log, 1, ids[j], config.max_retries);
}

/// Stale roots are asked for with the limit of the caller, or fifty, and with the settings; those that
/// were embedded are counted, those that failed are not.
pub proof fn law_embedded_roots_are_counted(
    limit: Option<usize>,
    config: EmbeddingConfig,
    a: Seq<char>,
    b: Seq<char>,
    error: ErrorView,
)
    ensures
        stale_next(limit, config, Seq::empty()) matches StepView::Ask(
            RequestView::StaleRoots { limit: most, debounce, max_retries },
        ) && debounce == config.debounce_duration_secs && max_retries == config.max_retries && (
        limit is None ==> most == 50) && (limit is Some && limit->0 <= i64::MAX ==> most == limit->0),
        stale_next(
            limit,
            config,
            seq![
                ReplyView::Texts { items: seq![a, b] },
                ReplyView::Refused { error },
                ReplyView::Done,
                ReplyView::Done,
            ],
        ) == StepView::Finish(OutcomeView::Count { count: 1 }),
        stale_next(
            limit,
            config,
            seq![
                ReplyView::Texts { items: seq![a, b] },
                ReplyView::Done,
                ReplyView::Done,
            ],
        ) == StepView::Finish(OutcomeView::Count { count: 2 }),
{
    reveal_with_fuel(stale_roots_next, 4);
    reveal_with_fuel(stale_error_next, 4);
    let log = seq![
        ReplyView::Texts { items: seq![a, b] },
        ReplyView::Refused { error },
        ReplyView::Done,
        ReplyView::Done,
    ];
    assert(log.skip(1).skip(1)[0] == log[2]);
    assert(log.skip(1).skip(1).skip(1)[0] == log[3]);
    let good = seq![ReplyView::Texts { items: seq![a, b] }, ReplyView::Done, ReplyView::Done];
    assert(good.skip(1).skip(1)[0] == good[2]);
}

/// Whether embeddings are waiting is what the store says, by the settings.
pub proof fn law_waiting_embeddings(config: EmbeddingConfig, value: bool)
    ensures
        pending_next(config, Seq::empty()) matches StepView::Ask(
            RequestView::HasPendingStale { debounce, max_retries },
        ) && debounce == config.debounce_duration_secs && max_retries == config.max_retries,
        pending_next(config, seq![ReplyView::Flag { value }]) == StepView::Finish(
            OutcomeView::Flag { value },
        ),
{
}

proof fn lemma_queued(roots: Seq<Seq<char>>, i: nat, log: Seq<ReplyView>, root: Seq<char>)
    requires
        i <= roots.len(),
        queue_roots_next(roots, i, log) is Finish,
        roots.skip(i as int).contains(root),
    ensures
        was_asked(
            |l: Seq<ReplyView>| queue_roots_next(roots, i, l),
            log,
            RequestView::QueueForEmbedding { id: root },
        ),
    decreases roots.len() - i,
{
    let op = |l: Seq<ReplyView>| queue_roots_next(roots, i, l);
    let left = roots.skip(i as int);
    let at = choose|at: int| 0 <= at < left.len() && left[at] == root;
    if at == 0 {
        assert(log.take(0).len() == 0);
        assert(asked_at(op, log, RequestView::QueueForEmbedding { id: root }, 0));
    } else {
        let inner = |l: Seq<ReplyView>| queue_roots_next(roots, i + 1, l);
        assert(roots.skip(i as int + 1)[at - 1] == root);
        lemma_queued(roots, i + 1, log.skip(1), root);
        assert forall|k: int| 1 <= k <= log.len() implies #[trigger] op(log.take(k)) == inner(
            log.skip(1).take(k - 1),
        ) by {
            assert(log.take(k)[0] == log[0]);
            assert(log.take(k).skip(1) =~= log.skip(1).take(k - 1));
        }
        lemma_asked_later(op, inner, log, 1, RequestView::QueueForEmbedding { id: root });
    }
}

proof fn lemma_queued_many(
    ids: Seq<Seq<char>>,
    i: nat,
    roots: Seq<Seq<char>>,
    log: Seq<ReplyView>,
    root: Seq<char>,
    j: int,
)
    requires
        i <= ids.len(),
        queue_many_next(ids, i, roots, log) is Finish,
    ensures
        log.len() >= ids.len() - i,
        i <= j < ids.len() ==> queue_many_next(ids, i, roots, log.take(j - i)) == StepView::Ask(
            RequestView::FindRoot { id: ids[j] },
        ),
        roots.contains(root) || (i <= j < ids.len() && log[j - i] == (ReplyView::Text { text: root }))
            ==> was_asked(
            |l: Seq<ReplyView>| queue_many_next(ids, i, roots, l),
            log,
            RequestView::QueueForEmbedding { id: root },
        ),
    decreases ids.len() - i,
{
    let op = |l: Seq<ReplyView>| queue_many_next(ids, i, roots, l);
    let request = RequestView::QueueForEmbedding { id: root };
    if i >= ids.len() {
        let inner = |l: Seq<ReplyView>| queue_roots_next(roots, 0, l);
        assert(roots.skip(0) =~= roots);
        assert(log.skip(0) =~= log);
        assert forall|k: int| 0 <= k <= log.len() implies #[trigger] op(log.take(k)) == inner(
            log.skip(0).take(k - 0),
        ) by {}
        if roots.contains(root) {
            lemma_queued(roots, 0, log, root);
            lemma_asked_later(op, inner, log, 0, request);
        }
    } else {
        let more = match log[0] {
            ReplyView::Text { text } => if roots.contains(text) {
                roots
            } else {
                roots.push(text)
            },
            _ => roots,
        };
        if let ReplyView::Text { text } = log[0] {
            crate::sequences::lemma_push_contains(roots, text);
        }
        let inner = |l: Seq<ReplyView>| queue_many_next(ids, i + 1, more, l);
        let rest = log.skip(1);
        lemma_queued_many(ids, i + 1, more, rest, root, j);
        assert forall|k: int| 1 <= k <= log.len() implies #[trigger] op(log.take(k)) == inner(
            rest.take(k - 1),
        ) by {
            assert(log.take(k)[0] == log[0]);
            assert(log.take(k).skip(1) =~= rest.take(k - 1));
        }
        lemma_asked_later(op, inner, log, 1, request);
        if i < j < ids.len() {
            assert(op(log.take(j - i)) == inner(rest.take(j - i - 1)));
            assert(rest[j - i - 1] == log[j - i]);
        } else if i == j {
            assert(log.take(0).len() == 0);
        }
    }
}

/// Of several nodes the root of each is looked for, and every root that was found is queued.
pub proof fn law_all_roots_are_queued(
    ids: Seq<Seq<char>>,
    log: Seq<ReplyView>,
    root: Seq<char>,
    j: int,
)
    requires
        queue_many_next(ids, 0, Seq::empty(), log) is Finish,
        0 <= j < ids.len(),
    ensures
        log.len() >= ids.len(),
        queue_many_next(ids, 0, Seq::empty(), log.take(j)) == StepView::Ask(
            RequestView::FindRoot { id: ids[j] },
        ),
        log[j] == (ReplyView::Text { text: root }) ==> was_asked(
            |l: Seq<ReplyView>| queue_many_next(ids, 0, Seq::empty(), l),
            log,
            RequestView::QueueForEmbedding { id: root },
        ),
{
    lemma_queued_many(ids, 0, Seq::empty(), log, root, j);
}

/// A type can be embedded exactly if a node of it with some text contributes a text.
pub proof fn law_embeddable_types(node_type: Seq<char>, now: i64, text: Option<Seq<char>>)
    ensures
        embeddable_next(node_type, now, Seq::empty()) matches StepView::Ask(
            RequestView::OwnContent { node },
        ) && node.node_type == node_type && node.content.len() > 0,
        embeddable_next(node_type, now, seq![ReplyView::MaybeText { text }]) matches StepView::Finish(
            OutcomeView::Flag { value },
        ) && (value <==> text is Some),
{
    reveal_strlit("probe content");
}

proof fn lemma_rules_read(
    properties: Json,
    names: Seq<Seq<char>>,
    i: nat,
    log: Seq<ReplyView>,
    j: int,
)
    requires
        i <= names.len() <= usize::MAX,
        playbook_rule_next(properties, names, i, log) is Finish,
    ensures
        log.len() > names.len() - i,
        i <= j < names.len() ==> log[j - i] == ReplyView::Done && playbook_rule_next(
            properties,
            names,
            i,
            log.take(j - i),
        ) == StepView::Ask(RequestView::ParseRule { properties, index: j as usize }),
        log[names.len() - i] == ReplyView::Done,
        playbook_rule_next(properties, names, i, log.take(names.len() - i)) == StepView::Ask(
            RequestView::ValidateRules { properties },
        ),
    decreases names.len() - i,
{
    if i < names.len() {
        let rest = log.skip(1);
        let n = names.len() - i;
        lemma_rules_read(properties, names, i + 1, rest, j);
        assert(log.take(n)[0] == log[0]);
        assert(log.take(n).skip(1) =~= rest.take(n - 1));
        if i < j < names.len() {
            assert(log.take(j - i)[0] == log[0]);
            assert(log.take(j - i).skip(1) =~= rest.take(j - i - 1));
            assert(rest[j - i - 1] == log[j - i]);
        }
        if i == j {
            assert(log.take(0).len() == 0);
        }
    } else {
        assert(log.take(0).len() == 0);
    }
}

/// A playbook that passes had its rules read, each of them, and all of them checked together.
pub proof fn law_passed_playbooks_were_checked(
    properties: Json,
    names: Seq<Seq<char>>,
    log: Seq<ReplyView>,
    j: int,
)
    requires
        names.len() <= usize::MAX,
        log.len() > 0,
        log[0] == (ReplyView::Texts { items: names }),
        playbook_next(properties, log) is Finish,
    ensures
        log.len() > names.len() + 1,
        playbook_next(properties, Seq::empty()) == StepView::Ask(
            RequestView::ParseRules { properties },
        ),
        0 <= j < names.len() ==> log[j + 1] == ReplyView::Done && playbook_next(
            properties,
            log.take(j + 1),
        ) == StepView::Ask(RequestView::ParseRule { properties, index: j as usize }),
        log[names.len() as int + 1] == ReplyView::Done,
        playbook_next(properties, log.take(names.len() as int + 1)) == StepView::Ask(
            RequestView::ValidateRules { properties },
        ),
{
    let rest = log.skip(1);
    let n = names.len() as int;
    lemma_rules_read(properties, names, 0, rest, j);
    assert(log.take(n + 1)[0] == log[0]);
    assert(log.take(n + 1).skip(1) =~= rest.take(n));
    if 0 <= j < names.len() {
        assert(log.take(j + 1)[0] == log[0]);
        assert(log.take(j + 1).skip(1) =~= rest.take(j));
        assert(rest[j] == log[j + 1]);
    }
}

/// Sizes in bytes are in the proportion of the sizes in tokens, and a single token has the width that
/// is taken for it.
pub proof fn law_sizes_are_in_proportion(config: EmbeddingConfig)
    ensures
        config.overlap_bytes() * config.max_tokens_per_chunk == config.max_bytes()
            * config.overlap_tokens,
        config.max_tokens_per_chunk == 1 ==> config.max_bytes() == config.chars_per_token_estimate,
        config.overlap_tokens == 1 ==> config.overlap_bytes() == config.chars_per_token_estimate,
        config.overlap_tokens <= config.max_tokens_per_chunk ==> config.overlap_bytes()
            <= config.max_bytes(),
{
    let max = config.max_tokens_per_chunk as int;
    let overlap = config.overlap_tokens as int;
    let width = config.chars_per_token_estimate as int;
    assert((overlap * width) * max == (max * width) * overlap) by (nonlinear_arith);
    assert(max == 1 ==> max * width == width) by (nonlinear_arith);
    assert(overlap == 1 ==> overlap * width == width) by (nonlinear_arith);
    assert(overlap <= max ==> overlap * width <= max * width) by (nonlinear_arith)
        requires
            width >= 0,
    ;
}

} // verus!
