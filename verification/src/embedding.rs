//! The embedding of roots.
//!
//! Only roots are embedded, each for the text of itself and of what lies below it. A long text is
//! split into chunks with a vector for each.

use crate::chunking::{
    chunk_of, chunk_ranges, law_chunks_are_sound, law_chunks_leave_no_gap, can_split, chunk_views,
    chunkable, chunks_of, find_boundary, floor_boundary, split_into_chunks,
};
use crate::hierarchy::optional_str;
use crate::node::{optional_text, texts};
use crate::protocol::group_replies;
use crate::text::{blank, is_blank, join, joined};
use sha2::Digest;
use vstd::prelude::*;
use vstd::string::*;
use vstd::utf8::{
    decode_utf8, encode_utf8, encode_utf8_decode_utf8, encode_utf8_valid_utf8, is_char_boundary,
};

verus! {

broadcast use group_replies;

/// The number of roots that are embedded in one go unless a caller says otherwise.
pub const DEFAULT_BATCH_SIZE: usize = 50;

/// The number of parents that are followed at most on the way to a root.
pub const MAX_PARENT_CHAIN_DEPTH: usize = 100;

/// How texts are embedded.
#[derive(Clone, Copy, Debug)]
pub struct EmbeddingConfig {
    /// The number of tokens of a chunk at most.
    pub max_tokens_per_chunk: usize,
    /// The number of tokens that a chunk shares with the next one.
    pub overlap_tokens: usize,
    /// The number of bytes that are taken for a token.
    pub chars_per_token_estimate: usize,
    /// The number of bytes of a text at most; the rest is cut off.
    pub max_content_size: usize,
    /// The number of seconds that embeddings stay stale before they are computed anew.
    pub debounce_duration_secs: u64,
    /// The number of attempts to embed a root.
    pub max_retries: u32,
}

impl Default for EmbeddingConfig {
    /// Chunks of 512 tokens with an overlap of 100 tokens, three bytes to a token, and half a
    /// minute of debounce. Neither texts nor attempts are limited.
    fn default() -> (r: EmbeddingConfig)
        ensures
            r == (EmbeddingConfig {
                max_tokens_per_chunk: 512,
                overlap_tokens: 100,
                chars_per_token_estimate: 3,
                max_content_size: usize::MAX,
                debounce_duration_secs: 30,
                max_retries: u32::MAX,
            }),
            r.is_usable(),
    {
        EmbeddingConfig {
            max_tokens_per_chunk: 512,
            overlap_tokens: 100,
            chars_per_token_estimate: 3,
            max_content_size: usize::MAX,
            debounce_duration_secs: 30,
            max_retries: u32::MAX,
        }
    }
}

impl EmbeddingConfig {
    /// The number of bytes of a chunk at most.
    pub open spec fn max_bytes(self) -> int {
        self.max_tokens_per_chunk * self.chars_per_token_estimate
    }

    /// The number of bytes that chunks share.
    pub open spec fn overlap_bytes(self) -> int {
        self.overlap_tokens * self.chars_per_token_estimate
    }

    /// The sizes of chunks can be counted.
    pub open spec fn is_usable(self) -> bool {
        self.max_bytes() <= usize::MAX && self.overlap_bytes() <= usize::MAX
    }

    /// The text can be split into chunks.
    pub open spec fn can_chunk(self, text: Seq<char>) -> bool {
        encode_utf8(text).len() > self.max_bytes() ==> chunkable(
            encode_utf8(text),
            0,
            self.max_bytes(),
            self.overlap_bytes(),
        )
    }
}

/// Decides what is embedded, and when.
#[derive(Clone, Copy, Debug)]
pub struct NodeEmbeddingService {
    pub config: EmbeddingConfig,
}

/// A text as the parts of a root make it: those that are not blank, with an empty line between
/// them. What is beyond the limit is cut off between two characters.
pub open spec fn assembled(
    title: Option<Seq<char>>,
    own: Seq<char>,
    aggregated: Option<Seq<char>>,
    max_size: int,
) -> Option<Seq<char>> {
    let parts = present(title) + present(Some(own)) + present(aggregated);
    if parts.len() == 0 {
        None
    } else {
        Some(truncated(joined(parts, "\n\n"@), max_size))
    }
}

/// A part, unless it is blank.
pub open spec fn present(part: Option<Seq<char>>) -> Seq<Seq<char>> {
    match part {
        Some(text) => if blank(text) {
            Seq::empty()
        } else {
            seq![text]
        },
        None => Seq::empty(),
    }
}

/// A text of at most some bytes.
pub open spec fn truncated(text: Seq<char>, max_size: int) -> Seq<char> {
    let bytes = encode_utf8(text);
    if bytes.len() > max_size {
        decode_utf8(bytes.subrange(0, floor_boundary(bytes, max_size)))
    } else {
        text
    }
}

/// What SHA-256 gives for some bytes.
pub uninterp spec fn sha256_digest(data: Seq<u8>) -> Seq<u8>;

/// Calls `sha2::Sha256::digest`. Claimed: the result depends on the bytes alone and has 32 bytes.
#[verifier::external_body]
fn sha256(data: &[u8]) -> (r: Vec<u8>)
    ensures
        r@ == sha256_digest(data@),
        r@.len() == 32,
{
    sha2::Sha256::digest(data).to_vec()
}

/// A hexadecimal digit.
pub open spec fn hex_digit(n: int) -> char {
    if n < 10 {
        (48 + n) as char
    } else {
        (87 + n) as char
    }
}

/// Bytes in hexadecimal digits, two for each.
pub open spec fn hex(bytes: Seq<u8>) -> Seq<char>
    decreases bytes.len(),
{
    if bytes.len() == 0 {
        Seq::empty()
    } else {
        hex(bytes.drop_last()).push(hex_digit(bytes.last() as int / 16)).push(
            hex_digit(bytes.last() as int % 16),
        )
    }
}

fn digit_of(n: u8) -> (r: char)
    requires
        n < 16,
    ensures
        r == hex_digit(n as int),
{
    if n < 10 {
        (48 + n) as char
    } else {
        (87 + n) as char
    }
}

fn to_hex(bytes: &Vec<u8>) -> (r: String)
    ensures
        r@ == hex(bytes@),
{
    let mut out = String::new();
    let mut i: usize = 0;
    proof {
        assert(bytes@.take(0) =~= Seq::empty());
    }
    while i < bytes.len()
        invariant
            i <= bytes@.len(),
            out@ == hex(bytes@.take(i as int)),
        decreases bytes@.len() - i,
    {
        proof {
            assert(bytes@.take(i + 1).drop_last() =~= bytes@.take(i as int));
        }
        out.push(digit_of(bytes[i] / 16));
        out.push(digit_of(bytes[i] % 16));
        i += 1;
    }
    proof {
        assert(bytes@.take(bytes@.len() as int) =~= bytes@);
    }
    out
}

/// Different bytes have different hexadecimal digits, and there are two digits to a byte.
pub proof fn law_hex_is_injective(a: Seq<u8>, b: Seq<u8>)
    ensures
        hex(a).len() == 2 * a.len(),
        hex(a) == hex(b) ==> a == b,
    decreases a.len(),
{
    lemma_hex_len(a);
    lemma_hex_len(b);
    if a.len() > 0 && b.len() > 0 {
        law_hex_is_injective(a.drop_last(), b.drop_last());
        if hex(a) == hex(b) {
            let x = hex(a);
            let y = hex(b);
            assert(x.len() == y.len());
            assert(x.last() == hex_digit(a.last() as int % 16));
            assert(y.last() == hex_digit(b.last() as int % 16));
            assert(x[x.len() - 2] == hex_digit(a.last() as int / 16));
            assert(y[y.len() - 2] == hex_digit(b.last() as int / 16));
            lemma_hex_digit(a.last() as int % 16, b.last() as int % 16);
            lemma_hex_digit(a.last() as int / 16, b.last() as int / 16);
            assert(x.drop_last().drop_last() =~= hex(a.drop_last()));
            assert(y.drop_last().drop_last() =~= hex(b.drop_last()));
            assert(a =~= a.drop_last().push(a.last()));
            assert(b =~= b.drop_last().push(b.last()));
        }
    } else if a.len() == b.len() {
        assert(a =~= b);
    }
}

proof fn lemma_hex_len(bytes: Seq<u8>)
    ensures
        hex(bytes).len() == 2 * bytes.len(),
    decreases bytes.len(),
{
    if bytes.len() > 0 {
        lemma_hex_len(bytes.drop_last());
    }
}

proof fn lemma_hex_digit(m: int, n: int)
    requires
        0 <= m < 16,
        0 <= n < 16,
        hex_digit(m) == hex_digit(n),
    ensures
        m == n,
{
    let a: int = if m < 10 {
        48 + m
    } else {
        87 + m
    };
    let b: int = if n < 10 {
        48 + n
    } else {
        87 + n
    };
    assert((a as char) as int == a);
    assert((b as char) as int == b);
}

impl NodeEmbeddingService {
    /// A service with the default configuration.
    pub fn new() -> (r: NodeEmbeddingService)
        ensures
            r.config == (EmbeddingConfig {
                max_tokens_per_chunk: 512,
                overlap_tokens: 100,
                chars_per_token_estimate: 3,
                max_content_size: usize::MAX,
                debounce_duration_secs: 30,
                max_retries: u32::MAX,
            }),
            r.config.is_usable(),
    {
        NodeEmbeddingService { config: EmbeddingConfig::default() }
    }

    /// A service with a configuration of its own.
    pub fn with_config(config: EmbeddingConfig) -> (r: NodeEmbeddingService)
        ensures
            r.config == config,
    {
        NodeEmbeddingService { config }
    }

    /// The configuration.
    pub fn config(&self) -> (r: &EmbeddingConfig)
        ensures
            *r == self.config,
    {
        &self.config
    }

    /// The nearest boundary between characters at or before a position; the end of the text for a
    /// position behind it.
    pub fn find_char_boundary(s: &str, index: usize) -> (r: usize)
        ensures
            r == floor_boundary(encode_utf8(s@), index as int),
            is_char_boundary(encode_utf8(s@), r as int),
    {
        find_boundary(s, index)
    }

    /// The hash by which changes of a text are noticed: 64 hexadecimal digits.
    pub fn compute_content_hash(content: &str) -> (r: String)
        ensures
            r@ == hex(sha256_digest(encode_utf8(content@))),
            r@.len() == 64,
    {
        let digest = sha256(content.as_bytes());
        proof {
            lemma_hex_len(digest@);
        }
        to_hex(&digest)
    }

    /// Splits a text into chunks: where each begins and ends, and its text. The chunks cover the
    /// text, as far as their places can be counted.
    pub fn chunk_content(&self, content: &str) -> (r: Vec<(i32, i32, String)>)
        requires
            self.config.is_usable(),
            self.config.can_chunk(content@),
        ensures
            chunk_views(r@) == chunks_of(
                content@,
                self.config.max_bytes(),
                self.config.overlap_bytes(),
            ),
            self.config.max_bytes() >= 1 && encode_utf8(content@).len() <= i32::MAX ==> {
                &&& r@.len() > 0
                &&& r@[0].0 == 0
                &&& r@.last().1 == encode_utf8(content@).len()
                &&& forall|i: int| #![trigger r@[i]]
                    0 <= i < r@.len() - 1 ==> r@[i].0 < r@[i + 1].0 <= r@[i].1
            },
    {
        let max: usize = self.config.max_tokens_per_chunk * self.config.chars_per_token_estimate;
        let overlap: usize = self.config.overlap_tokens * self.config.chars_per_token_estimate;
        let r = split_into_chunks(content, max, overlap);
        proof {
            let bytes = encode_utf8(content@);
            if max >= 1 && bytes.len() <= i32::MAX {
                encode_utf8_valid_utf8(content@);
                law_chunks_are_sound(bytes, max as int, overlap as int);
                law_chunks_leave_no_gap(bytes, max as int, overlap as int);
                let ranges = chunk_ranges(bytes, max as int, overlap as int);
                assert(chunk_views(r@).len() == ranges.len());
                assert forall|i: int| #![trigger r@[i]] 0 <= i < r@.len() implies r@[i].0
                    == ranges[i].0 && r@[i].1 == ranges[i].1 by {
                    assert(chunk_views(r@)[i] == chunk_of(bytes, ranges[i]));
                }
                assert forall|i: int| #![trigger r@[i]] 0 <= i < r@.len() - 1 implies r@[i].0 < r@[i
                    + 1].0 <= r@[i].1 by {
                    assert(r@[i + 1].0 == ranges[i + 1].0);
                }
            }
        }
        r
    }

    /// Whether a text can be split into chunks.
    pub fn can_chunk(&self, content: &str) -> (r: bool)
        requires
            self.config.is_usable(),
        ensures
            r == self.config.can_chunk(content@),
    {
        let max: usize = self.config.max_tokens_per_chunk * self.config.chars_per_token_estimate;
        let overlap: usize = self.config.overlap_tokens * self.config.chars_per_token_estimate;
        can_split(content, max, overlap)
    }

    /// Puts the parts of a text together.
    pub fn assemble_content(&self, title: Option<&str>, own: &str, aggregated: Option<&str>) -> (r:
        Option<String>)
        ensures
            optional_text(r) == assembled(
                optional_str(title),
                own@,
                optional_str(aggregated),
                self.config.max_content_size as int,
            ),
    {
        let mut parts: Vec<String> = Vec::new();
        proof {
            assert(texts(parts@) =~= Seq::empty());
        }
        add_part(&mut parts, title);
        add_part(&mut parts, Some(own));
        add_part(&mut parts, aggregated);
        proof {
            let all = present(optional_str(title)) + present(Some(own@)) + present(
                optional_str(aggregated),
            );
            assert(texts(parts@) =~= all);
            assert(parts@.map_values(|s: String| s@) =~= all);
        }
        if parts.len() == 0 {
            return None;
        }
        let full = join(&parts, "\n\n");
        Some(truncate(full, self.config.max_content_size))
    }
}

fn add_part(parts: &mut Vec<String>, part: Option<&str>)
    ensures
        texts(final(parts)@) == texts(old(parts)@) + present(optional_str(part)),
{
    let ghost before = texts(parts@);
    if let Some(text) = part {
        if !is_blank(text) {
            parts.push(text.to_string());
            proof {
                assert(texts(parts@) =~= before + seq![text@]);
            }
            return;
        }
    }
    proof {
        assert(before + Seq::empty() =~= before);
    }
}

fn truncate(text: String, max_size: usize) -> (r: String)
    ensures
        r@ == truncated(text@, max_size as int),
{
    let whole = text.as_str();
    proof {
        encode_utf8_valid_utf8(text@);
    }
    let size: usize = whole.as_bytes().len();
    if size <= max_size {
        return text;
    }
    let end = find_boundary(whole, max_size);
    let (head, _) = whole.split_at(end);
    proof {
        encode_utf8_decode_utf8(head@);
    }
    head.to_string()
}

} // verus!
