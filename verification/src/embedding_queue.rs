//! When roots are embedded: finding them, queueing them, and working off the queue.

use crate::chunking::{chunk_views, chunks_of, narrow, ChunkInfo};
use crate::embedding::{
    assembled, hex, sha256_digest, NodeEmbeddingService, EmbeddingConfig, DEFAULT_BATCH_SIZE,
    MAX_PARENT_CHAIN_DEPTH,
};
use crate::error::{ErrorView, NodeServiceError};
use crate::mentions::push_new;
use crate::node::{texts, Node, NodeView};
use crate::protocol::{
    group_replies, replies, replies_from, Outcome, OutcomeView, Reply, ReplyView, Request,
    RequestView, Step, StepView,
};
use vstd::prelude::*;
use vstd::string::*;
use vstd::utf8::encode_utf8;

verus! {

broadcast use group_replies;

pub open spec fn query_failure(what: Seq<char>, message: Seq<char>) -> StepView {
    StepView::Fail(ErrorView::QueryFailed(what + message))
}

fn query_failed(what: &str, message: &str) -> (r: Step)
    ensures
        r@ == query_failure(what@, message@),
{
    let mut text = what.to_string();
    text.append(message);
    Step::Fail(NodeServiceError::QueryFailed(text))
}

pub open spec fn nothing() -> StepView {
    StepView::Finish(OutcomeView::Nothing)
}

/// Whether a node has no parent.
pub open spec fn embedding_is_root_next(node_id: Seq<char>, log: Seq<ReplyView>) -> StepView {
    if log.len() == 0 {
        StepView::Ask(RequestView::LoadParent { id: node_id })
    } else {
        match log[0] {
            ReplyView::Failed { message } => query_failure("Failed to get parent: "@, message),
            ReplyView::Node { node } => StepView::Finish(
                OutcomeView::Flag { value: node is None },
            ),
            _ => StepView::Mismatch,
        }
    }
}

/// The way to the root above a node, of at most `left` parents.
pub open spec fn find_root_next(current: Seq<char>, left: nat, log: Seq<ReplyView>) -> StepView
    decreases left,
{
    if left == 0 {
        StepView::Fail(ErrorView::QueryFailed("Max parent chain depth (100) exceeded"@))
    } else if log.len() == 0 {
        StepView::Ask(RequestView::LoadParent { id: current })
    } else {
        match log[0] {
            ReplyView::Failed { message } => query_failure("Failed to get parent: "@, message),
            ReplyView::Node { node: Some(parent) } => find_root_next(
                parent.id,
                (left - 1) as nat,
                log.skip(1),
            ),
            ReplyView::Node { node: None } => StepView::Finish(OutcomeView::Id { id: current }),
            _ => StepView::Mismatch,
        }
    }
}

/// The text for which a root is embedded. A root whose type contributes nothing is not embedded.
pub open spec fn extract_next(node: NodeView, max_size: int, log: Seq<ReplyView>) -> StepView {
    if log.len() == 0 {
        StepView::Ask(RequestView::OwnContent { node })
    } else {
        match log[0] {
            ReplyView::MaybeText { text: None } => StepView::Finish(
                OutcomeView::Content { text: None },
            ),
            ReplyView::MaybeText { text: Some(own) } => extract_more_next(
                node,
                own,
                max_size,
                log.skip(1),
            ),
            _ => StepView::Mismatch,
        }
    }
}

pub open spec fn extract_more_next(
    node: NodeView,
    own: Seq<char>,
    max_size: int,
    log: Seq<ReplyView>,
) -> StepView {
    if log.len() == 0 {
        StepView::Ask(RequestView::AggregatedContent { node })
    } else {
        match log[0] {
            ReplyView::MaybeText { text: aggregated } => StepView::Finish(
                OutcomeView::Content { text: assembled(node.title, own, aggregated, max_size) },
            ),
            _ => StepView::Mismatch,
        }
    }
}

/// The embedding of a root.
pub open spec fn embed_next(
    root_id: Seq<char>,
    config: EmbeddingConfig,
    log: Seq<ReplyView>,
) -> StepView {
    if log.len() == 0 {
        StepView::Ask(RequestView::GetNode { id: root_id })
    } else {
        match log[0] {
            ReplyView::Refused { error } => StepView::Fail(error),
            ReplyView::Node { node: None } => StepView::Fail(
                ErrorView::NodeNotFound { id: root_id },
            ),
            ReplyView::Node { node: Some(root) } => embed_content_next(
                root_id,
                root,
                config,
                log.skip(1),
            ),
            _ => StepView::Mismatch,
        }
    }
}

/// A root without a text loses the embeddings that it had.
pub open spec fn embed_content_next(
    root_id: Seq<char>,
    root: NodeView,
    config: EmbeddingConfig,
    log: Seq<ReplyView>,
) -> StepView {
    if log.len() == 0 {
        StepView::Ask(RequestView::ExtractContent { node: root })
    } else {
        match log[0] {
            ReplyView::Refused { error } => StepView::Fail(error),
            ReplyView::MaybeText { text: None } => embed_none_next(root_id, log.skip(1)),
            ReplyView::MaybeText { text: Some(content) } => embed_chunks_next(
                root_id,
                content,
                chunks_of(content, config.max_bytes(), config.overlap_bytes()),
                0,
                log.skip(1),
            ),
            _ => StepView::Mismatch,
        }
    }
}

pub open spec fn embed_none_next(root_id: Seq<char>, log: Seq<ReplyView>) -> StepView {
    if log.len() == 0 {
        StepView::Ask(RequestView::DeleteEmbeddings { id: root_id })
    } else {
        match log[0] {
            ReplyView::Failed { message } => query_failure(
                "Failed to delete embeddings: "@,
                message,
            ),
            ReplyView::Done => nothing(),
            _ => StepView::Mismatch,
        }
    }
}

/// The vectors of the chunks from position `i` on are computed.
pub open spec fn embed_chunks_next(
    root_id: Seq<char>,
    content: Seq<char>,
    chunks: Seq<(i32, i32, Seq<char>)>,
    i: nat,
    log: Seq<ReplyView>,
) -> StepView
    decreases chunks.len() - i,
{
    if i >= chunks.len() {
        embed_store_next(root_id, content, chunks, log)
    } else if log.len() == 0 {
        StepView::Ask(RequestView::EmbedText { text: chunks[i as int].2 })
    } else {
        match log[0] {
            ReplyView::Failed { message } => StepView::Fail(
                ErrorView::SerializationError("Embedding generation failed: "@ + message),
            ),
            ReplyView::Done => embed_chunks_next(root_id, content, chunks, i + 1, log.skip(1)),
            _ => StepView::Mismatch,
        }
    }
}

/// What is stored of each chunk beside its vector. Four bytes are taken for a token.
pub open spec fn chunk_infos(chunks: Seq<(i32, i32, Seq<char>)>) -> Seq<ChunkInfo> {
    Seq::new(
        chunks.len(),
        |i: int|
            ChunkInfo {
                chunk_index: i as i32,
                chunk_start: chunks[i].0,
                chunk_end: chunks[i].1,
                total_chunks: chunks.len() as i32,
                token_count: (encode_utf8(chunks[i].2).len() / 4) as i32,
            },
    )
}

pub open spec fn embed_store_next(
    root_id: Seq<char>,
    content: Seq<char>,
    chunks: Seq<(i32, i32, Seq<char>)>,
    log: Seq<ReplyView>,
) -> StepView {
    if log.len() == 0 {
        StepView::Ask(
            RequestView::StoreEmbeddings {
                root_id,
                content_hash: hex(sha256_digest(encode_utf8(content))),
                chunks: chunk_infos(chunks),
            },
        )
    } else {
        match log[0] {
            ReplyView::Failed { message } => query_failure(
                "Failed to store embeddings: "@,
                message,
            ),
            ReplyView::Done => nothing(),
            _ => StepView::Mismatch,
        }
    }
}

/// The embedding of roots whose embeddings are stale.
pub open spec fn stale_next(
    limit: Option<usize>,
    config: EmbeddingConfig,
    log: Seq<ReplyView>,
) -> StepView {
    if log.len() == 0 {
        StepView::Ask(
            RequestView::StaleRoots {
                limit: (match limit {
                    Some(n) => n,
                    None => DEFAULT_BATCH_SIZE,
                }) as i64,
                debounce: config.debounce_duration_secs,
                max_retries: config.max_retries,
            },
        )
    } else {
        match log[0] {
            ReplyView::Failed { message } => query_failure(
                "Failed to query stale embeddings: "@,
                message,
            ),
            ReplyView::Texts { items } => stale_roots_next(
                items,
                0,
                0,
                config.max_retries,
                log.skip(1),
            ),
            _ => StepView::Mismatch,
        }
    }
}

/// The roots from position `i` on are embedded; `done` counts those that were. A failure is noted
/// and does not stop the others.
pub open spec fn stale_roots_next(
    ids: Seq<Seq<char>>,
    i: nat,
    done: nat,
    max_retries: u32,
    log: Seq<ReplyView>,
) -> StepView
    decreases ids.len() - i, 1nat,
{
    if i >= ids.len() {
        StepView::Finish(OutcomeView::Count { count: done as usize })
    } else if log.len() == 0 {
        StepView::Ask(RequestView::EmbedRoot { id: ids[i as int] })
    } else {
        match log[0] {
            ReplyView::Done => stale_roots_next(ids, i + 1, done + 1, max_retries, log.skip(1)),
            ReplyView::Refused { error } => stale_error_next(
                ids,
                i,
                done,
                max_retries,
                error,
                log.skip(1),
            ),
            _ => StepView::Mismatch,
        }
    }
}

pub open spec fn stale_error_next(
    ids: Seq<Seq<char>>,
    i: nat,
    done: nat,
    max_retries: u32,
    error: ErrorView,
    log: Seq<ReplyView>,
) -> StepView
    decreases ids.len() - i, 0nat,
{
    if i >= ids.len() {
        StepView::Mismatch
    } else if log.len() == 0 {
        StepView::Ask(RequestView::RecordEmbeddingError { id: ids[i as int], error, max_retries })
    } else {
        match log[0] {
            ReplyView::Done => stale_roots_next(ids, i + 1, done, max_retries, log.skip(1)),
            ReplyView::Failed { message: _ } => stale_roots_next(
                ids,
                i + 1,
                done,
                max_retries,
                log.skip(1),
            ),
            _ => StepView::Mismatch,
        }
    }
}

/// Whether embeddings became stale too recently to be computed.
pub open spec fn pending_next(config: EmbeddingConfig, log: Seq<ReplyView>) -> StepView {
    if log.len() == 0 {
        StepView::Ask(
            RequestView::HasPendingStale {
                debounce: config.debounce_duration_secs,
                max_retries: config.max_retries,
            },
        )
    } else {
        match log[0] {
            ReplyView::Failed { message } => query_failure(
                "Failed to check pending stale embeddings: "@,
                message,
            ),
            ReplyView::Flag { value } => StepView::Finish(OutcomeView::Flag { value }),
            _ => StepView::Mismatch,
        }
    }
}

/// The queueing of the root above a node.
pub open spec fn queue_next(node_id: Seq<char>, log: Seq<ReplyView>) -> StepView {
    if log.len() == 0 {
        StepView::Ask(RequestView::FindRoot { id: node_id })
    } else {
        match log[0] {
            ReplyView::Refused { error } => StepView::Fail(error),
            ReplyView::Text { text: root_id } => queue_root_next(root_id, log.skip(1)),
            _ => StepView::Mismatch,
        }
    }
}

pub open spec fn queue_root_next(root_id: Seq<char>, log: Seq<ReplyView>) -> StepView {
    if log.len() == 0 {
        StepView::Ask(RequestView::GetNode { id: root_id })
    } else {
        match log[0] {
            ReplyView::Refused { error } => StepView::Fail(error),
            ReplyView::Node { node: None } => nothing(),
            ReplyView::Node { node: Some(root) } => queue_check_next(root_id, root, log.skip(1)),
            _ => StepView::Mismatch,
        }
    }
}

/// A root whose type contributes nothing is not queued.
pub open spec fn queue_check_next(
    root_id: Seq<char>,
    root: NodeView,
    log: Seq<ReplyView>,
) -> StepView {
    if log.len() == 0 {
        StepView::Ask(RequestView::OwnContent { node: root })
    } else {
        match log[0] {
            ReplyView::MaybeText { text: None } => nothing(),
            ReplyView::MaybeText { text: Some(_) } => queue_exists_next(root_id, log.skip(1)),
            _ => StepView::Mismatch,
        }
    }
}

pub open spec fn queue_exists_next(root_id: Seq<char>, log: Seq<ReplyView>) -> StepView {
    if log.len() == 0 {
        StepView::Ask(RequestView::HasEmbeddings { id: root_id })
    } else {
        match log[0] {
            ReplyView::Failed { message } => query_failure(
                "Failed to check embeddings: "@,
                message,
            ),
            ReplyView::Flag { value } => queue_mark_next(root_id, value, log.skip(1)),
            _ => StepView::Mismatch,
        }
    }
}

pub open spec fn queue_mark_next(
    root_id: Seq<char>,
    exists_already: bool,
    log: Seq<ReplyView>,
) -> StepView {
    if log.len() == 0 {
        if exists_already {
            StepView::Ask(RequestView::MarkStale { id: root_id })
        } else {
            StepView::Ask(RequestView::CreateStaleMarker { id: root_id })
        }
    } else {
        match log[0] {
            ReplyView::Failed { message } => if exists_already {
                query_failure("Failed to mark embedding stale: "@, message)
            } else {
                query_failure("Failed to create stale marker: "@, message)
            },
            ReplyView::Done => nothing(),
            _ => StepView::Mismatch,
        }
    }
}

/// The roots above some nodes are found, from position `i` on. A node whose root is not found is
/// left out.
pub open spec fn queue_many_next(
    ids: Seq<Seq<char>>,
    i: nat,
    roots: Seq<Seq<char>>,
    log: Seq<ReplyView>,
) -> StepView
    decreases ids.len() - i,
{
    if i >= ids.len() {
        queue_roots_next(roots, 0, log)
    } else if log.len() == 0 {
        StepView::Ask(RequestView::FindRoot { id: ids[i as int] })
    } else {
        match log[0] {
            ReplyView::Refused { error: _ } => queue_many_next(ids, i + 1, roots, log.skip(1)),
            ReplyView::Text { text } => queue_many_next(
                ids,
                i + 1,
                if roots.contains(text) {
                    roots
                } else {
                    roots.push(text)
                },
                log.skip(1),
            ),
            _ => StepView::Mismatch,
        }
    }
}

/// The roots from position `i` on are queued, each once. That one cannot be queued does not stop the
/// others.
pub open spec fn queue_roots_next(roots: Seq<Seq<char>>, i: nat, log: Seq<ReplyView>) -> StepView
    decreases roots.len() - i,
{
    if i >= roots.len() {
        nothing()
    } else if log.len() == 0 {
        StepView::Ask(RequestView::QueueForEmbedding { id: roots[i as int] })
    } else {
        match log[0] {
            ReplyView::Done => queue_roots_next(roots, i + 1, log.skip(1)),
            ReplyView::Refused { error: _ } => queue_roots_next(roots, i + 1, log.skip(1)),
            _ => StepView::Mismatch,
        }
    }
}

impl NodeEmbeddingService {
    /// Whether a node has no parent.
    pub fn is_root_node(&self, node_id: &str, log: &Vec<Reply>) -> (r: Step)
        ensures
            r@ == embedding_is_root_next(node_id@, replies(log@)),
    {
        if log.len() == 0 {
            return Step::Ask(Request::LoadParent { id: node_id.to_string() });
        }
        match &log[0] {
            Reply::Failed { message } => query_failed("Failed to get parent: ", message.as_str()),
            Reply::Node { node } => Step::Finish(Outcome::Flag { value: node.is_none() }),
            _ => Step::Mismatch,
        }
    }

    /// The identifier of the root above a node.
    pub fn find_root_id(&self, node_id: &str, log: &Vec<Reply>) -> (r: Step)
        ensures
            r@ == find_root_next(node_id@, MAX_PARENT_CHAIN_DEPTH as nat, replies(log@)),
    {
        let ghost want = find_root_next(node_id@, MAX_PARENT_CHAIN_DEPTH as nat, replies(log@));
        let mut current: &str = node_id;
        let mut i: usize = 0;
        while i < MAX_PARENT_CHAIN_DEPTH
            invariant
                i <= MAX_PARENT_CHAIN_DEPTH,
                i <= log@.len(),
                want == find_root_next(
                    current@,
                    (MAX_PARENT_CHAIN_DEPTH - i) as nat,
                    replies_from(log@, i as int),
                ),
            decreases MAX_PARENT_CHAIN_DEPTH - i,
        {
            if i >= log.len() {
                return Step::Ask(Request::LoadParent { id: current.to_string() });
            }
            match &log[i] {
                Reply::Failed { message } => {
                    return query_failed("Failed to get parent: ", message.as_str());
                },
                Reply::Node { node: Some(parent) } => {
                    current = parent.id.as_str();
                },
                Reply::Node { node: None } => {
                    return Step::Finish(Outcome::Id { id: current.to_string() });
                },
                _ => {
                    return Step::Mismatch;
                },
            }
            i += 1;
        }
        Step::Fail(
            NodeServiceError::QueryFailed("Max parent chain depth (100) exceeded".to_string()),
        )
    }

    /// The text for which a root is embedded: its title, its own text and that of what lies around
    /// it.
    pub fn extract_content_for_embedding(&self, node: &Node, log: &Vec<Reply>) -> (r: Step)
        ensures
            r@ == extract_next(node@, self.config.max_content_size as int, replies(log@)),
    {
        if log.len() == 0 {
            return Step::Ask(Request::OwnContent { node: node.clone() });
        }
        let own = match &log[0] {
            Reply::MaybeText { text: None } => {
                return Step::Finish(Outcome::Content { text: None });
            },
            Reply::MaybeText { text: Some(own) } => own,
            _ => {
                return Step::Mismatch;
            },
        };
        if log.len() == 1 {
            return Step::Ask(Request::AggregatedContent { node: node.clone() });
        }
        match &log[1] {
            Reply::MaybeText { text } => {
                let title = match &node.title {
                    Some(t) => Some(t.as_str()),
                    None => None,
                };
                let aggregated = match text {
                    Some(t) => Some(t.as_str()),
                    None => None,
                };
                let text = self.assemble_content(title, own.as_str(), aggregated);
                Step::Finish(Outcome::Content { text })
            },
            _ => Step::Mismatch,
        }
    }

    /// Embeds a root.
    pub fn embed_root_node(&self, root_id: &str, log: &Vec<Reply>) -> (r: Step)
        requires
            self.config.is_usable(),
            log@.len() > 1 ==> (log@[1]@ matches ReplyView::MaybeText { text: Some(content) }
                ==> self.config.can_chunk(content)),
        ensures
            r@ == embed_next(root_id@, self.config, replies(log@)),
    {
        if log.len() == 0 {
            return Step::Ask(Request::GetNode { id: root_id.to_string() });
        }
        let root = match &log[0] {
            Reply::Refused { error } => {
                return Step::Fail(error.clone());
            },
            Reply::Node { node: None } => {
                return Step::Fail(NodeServiceError::NodeNotFound { id: root_id.to_string() });
            },
            Reply::Node { node: Some(root) } => root,
            _ => {
                return Step::Mismatch;
            },
        };
        if log.len() == 1 {
            return Step::Ask(Request::ExtractContent { node: root.clone() });
        }
        match &log[1] {
            Reply::Refused { error } => Step::Fail(error.clone()),
            Reply::MaybeText { text: None } => embed_none(root_id, log),
            Reply::MaybeText { text: Some(content) } => self.embed_chunks(
                root_id,
                content.as_str(),
                log,
            ),
            _ => Step::Mismatch,
        }
    }

    fn embed_chunks(&self, root_id: &str, content: &str, log: &Vec<Reply>) -> (r: Step)
        requires
            self.config.is_usable(),
            self.config.can_chunk(content@),
            log@.len() >= 2,
        ensures
            r@ == embed_chunks_next(
                root_id@,
                content@,
                chunks_of(content@, self.config.max_bytes(), self.config.overlap_bytes()),
                0,
                replies_from(log@, 2),
            ),
    {
        let chunks = self.chunk_content(content);
        let ghost all = chunk_views(chunks@);
        let ghost want = embed_chunks_next(root_id@, content@, all, 0, replies_from(log@, 2));
        let mut i: usize = 0;
        while i < chunks.len()
            invariant
                i <= chunks@.len() == all.len(),
                i + 2 <= log@.len(),
                want == embed_chunks_next(
                    root_id@,
                    content@,
                    all,
                    i as nat,
                    replies_from(log@, i + 2),
                ),
            decreases chunks@.len() - i,
        {
            proof {
                assert(log.len() == log@.len());
                assert(all[i as int].2 == chunks@[i as int].2@);
            }
            if i + 2 >= log.len() {
                return Step::Ask(Request::EmbedText { text: chunks[i].2.clone() });
            }
            match &log[i + 2] {
                Reply::Failed { message } => {
                    let mut text = "Embedding generation failed: ".to_string();
                    text.append(message.as_str());
                    return Step::Fail(NodeServiceError::SerializationError(text));
                },
                Reply::Done => {},
                _ => {
                    return Step::Mismatch;
                },
            }
            i += 1;
        }
        proof {
            assert(log.len() == log@.len());
        }
        if i + 2 >= log.len() {
            return Step::Ask(
                Request::StoreEmbeddings {
                    root_id: root_id.to_string(),
                    content_hash: NodeEmbeddingService::compute_content_hash(content),
                    chunks: describe_chunks(&chunks),
                },
            );
        }
        match &log[i + 2] {
            Reply::Failed { message } => query_failed(
                "Failed to store embeddings: ",
                message.as_str(),
            ),
            Reply::Done => Step::Finish(Outcome::Nothing),
            _ => Step::Mismatch,
        }
    }

    /// Embeds roots whose embeddings are stale, and counts them.
    pub fn process_stale_embeddings(&self, limit: Option<usize>, log: &Vec<Reply>) -> (r: Step)
        ensures
            r@ == stale_next(limit, self.config, replies(log@)),
    {
        if log.len() == 0 {
            let batch_size: usize = match limit {
                Some(n) => n,
                None => DEFAULT_BATCH_SIZE,
            };
            return Step::Ask(
                Request::StaleRoots {
                    limit: #[verifier::truncate]
                    (batch_size as i64),
                    debounce: self.config.debounce_duration_secs,
                    max_retries: self.config.max_retries,
                },
            );
        }
        match &log[0] {
            Reply::Failed { message } => query_failed(
                "Failed to query stale embeddings: ",
                message.as_str(),
            ),
            Reply::Texts { items } => self.embed_stale(items, log),
            _ => Step::Mismatch,
        }
    }

    fn embed_stale(&self, ids: &Vec<String>, log: &Vec<Reply>) -> (r: Step)
        requires
            log@.len() > 0,
        ensures
            r@ == stale_roots_next(
                texts(ids@),
                0,
                0,
                self.config.max_retries,
                replies_from(log@, 1),
            ),
    {
        let ghost all = texts(ids@);
        let max_retries: u32 = self.config.max_retries;
        let ghost want = stale_roots_next(all, 0, 0, max_retries, replies_from(log@, 1));
        let mut done: usize = 0;
        let mut at: usize = 1;
        let mut i: usize = 0;
        while i < ids.len()
            invariant
                done <= i <= ids@.len() == all.len(),
                at <= log@.len(),
                want == stale_roots_next(
                    all,
                    i as nat,
                    done as nat,
                    max_retries,
                    replies_from(log@, at as int),
                ),
            decreases ids@.len() - i,
        {
            proof {
                assert(all[i as int] == ids@[i as int]@);
            }
            if at >= log.len() {
                return Step::Ask(Request::EmbedRoot { id: ids[i].clone() });
            }
            match &log[at] {
                Reply::Done => {
                    at += 1;
                    done += 1;
                },
                Reply::Refused { error } => {
                    at += 1;
                    proof {
                        assert(want == stale_error_next(
                            all,
                            i as nat,
                            done as nat,
                            max_retries,
                            error@,
                            replies_from(log@, at as int),
                        ));
                    }
                    if at >= log.len() {
                        return Step::Ask(
                            Request::RecordEmbeddingError {
                                id: ids[i].clone(),
                                error: error.clone(),
                                max_retries,
                            },
                        );
                    }
                    match &log[at] {
                        Reply::Done => {},
                        Reply::Failed { message: _ } => {},
                        _ => {
                            return Step::Mismatch;
                        },
                    }
                    at += 1;
                },
                _ => {
                    return Step::Mismatch;
                },
            }
            i += 1;
        }
        Step::Finish(Outcome::Count { count: done })
    }

    /// Whether embeddings became stale too recently to be computed.
    pub fn has_pending_stale_embeddings(&self, log: &Vec<Reply>) -> (r: Step)
        ensures
            r@ == pending_next(self.config, replies(log@)),
    {
        if log.len() == 0 {
            return Step::Ask(
                Request::HasPendingStale {
                    debounce: self.config.debounce_duration_secs,
                    max_retries: self.config.max_retries,
                },
            );
        }
        match &log[0] {
            Reply::Failed { message } => query_failed(
                "Failed to check pending stale embeddings: ",
                message.as_str(),
            ),
            Reply::Flag { value } => Step::Finish(Outcome::Flag { value: *value }),
            _ => Step::Mismatch,
        }
    }

    /// Queues the root above a node, if its type can be embedded.
    pub fn queue_for_embedding(&self, node_id: &str, log: &Vec<Reply>) -> (r: Step)
        ensures
            r@ == queue_next(node_id@, replies(log@)),
    {
        if log.len() == 0 {
            return Step::Ask(Request::FindRoot { id: node_id.to_string() });
        }
        let root_id = match &log[0] {
            Reply::Refused { error } => {
                return Step::Fail(error.clone());
            },
            Reply::Text { text } => text,
            _ => {
                return Step::Mismatch;
            },
        };
        if log.len() == 1 {
            return Step::Ask(Request::GetNode { id: root_id.clone() });
        }
        let root = match &log[1] {
            Reply::Refused { error } => {
                return Step::Fail(error.clone());
            },
            Reply::Node { node: None } => {
                return Step::Finish(Outcome::Nothing);
            },
            Reply::Node { node: Some(root) } => root,
            _ => {
                return Step::Mismatch;
            },
        };
        if log.len() == 2 {
            return Step::Ask(Request::OwnContent { node: root.clone() });
        }
        match &log[2] {
            Reply::MaybeText { text: None } => Step::Finish(Outcome::Nothing),
            Reply::MaybeText { text: Some(_) } => mark_root(root_id.as_str(), log),
            _ => Step::Mismatch,
        }
    }

    /// Queues the roots above some nodes, each once.
    pub fn queue_nodes_for_embedding(&self, node_ids: &Vec<String>, log: &Vec<Reply>) -> (r: Step)
        ensures
            r@ == queue_many_next(texts(node_ids@), 0, Seq::empty(), replies(log@)),
    {
        let ghost all = texts(node_ids@);
        let ghost want = queue_many_next(all, 0, Seq::empty(), replies(log@));
        let mut roots: Vec<String> = Vec::new();
        let mut i: usize = 0;
        proof {
            assert(texts(roots@) =~= Seq::empty());
        }
        while i < node_ids.len()
            invariant
                i <= node_ids@.len() == all.len(),
                i <= log@.len(),
                texts(roots@).no_duplicates(),
                want == queue_many_next(
                    all,
                    i as nat,
                    texts(roots@),
                    replies_from(log@, i as int),
                ),
            decreases node_ids@.len() - i,
        {
            proof {
                assert(all[i as int] == node_ids@[i as int]@);
            }
            if i >= log.len() {
                return Step::Ask(Request::FindRoot { id: node_ids[i].clone() });
            }
            match &log[i] {
                Reply::Refused { error: _ } => {},
                Reply::Text { text } => {
                    push_new(&mut roots, text.as_str());
                },
                _ => {
                    return Step::Mismatch;
                },
            }
            i += 1;
        }
        queue_roots(&roots, log, i)
    }

    /// Removes the embeddings of a node.
    pub fn delete_node_embeddings(&self, node_id: &str, log: &Vec<Reply>) -> (r: Step)
        ensures
            r@ == embed_none_next(node_id@, replies(log@)),
    {
        if log.len() == 0 {
            return Step::Ask(Request::DeleteEmbeddings { id: node_id.to_string() });
        }
        match &log[0] {
            Reply::Failed { message } => query_failed(
                "Failed to delete embeddings: ",
                message.as_str(),
            ),
            Reply::Done => Step::Finish(Outcome::Nothing),
            _ => Step::Mismatch,
        }
    }
}

fn embed_none(root_id: &str, log: &Vec<Reply>) -> (r: Step)
    requires
        log@.len() >= 2,
    ensures
        r@ == embed_none_next(root_id@, replies_from(log@, 2)),
{
    if log.len() == 2 {
        return Step::Ask(Request::DeleteEmbeddings { id: root_id.to_string() });
    }
    match &log[2] {
        Reply::Failed { message } => query_failed(
            "Failed to delete embeddings: ",
            message.as_str(),
        ),
        Reply::Done => Step::Finish(Outcome::Nothing),
        _ => Step::Mismatch,
    }
}

fn describe_chunks(chunks: &Vec<(i32, i32, String)>) -> (r: Vec<ChunkInfo>)
    ensures
        r@ == chunk_infos(chunk_views(chunks@)),
{
    let ghost all = chunk_infos(chunk_views(chunks@));
    let mut out: Vec<ChunkInfo> = Vec::new();
    let mut i: usize = 0;
    while i < chunks.len()
        invariant
            i <= chunks@.len() == all.len(),
            out@ == all.take(i as int),
            all == chunk_infos(chunk_views(chunks@)),
        decreases chunks@.len() - i,
    {
        let size: usize = chunks[i].2.as_str().as_bytes().len();
        let info = ChunkInfo {
            chunk_index: narrow(i),
            chunk_start: chunks[i].0,
            chunk_end: chunks[i].1,
            total_chunks: narrow(chunks.len()),
            token_count: narrow(size / 4),
        };
        out.push(info);
        proof {
            assert(info == all[i as int]);
            assert(out@ =~= all.take(i + 1));
        }
        i += 1;
    }
    proof {
        assert(all.take(all.len() as int) =~= all);
    }
    out
}

fn mark_root(root_id: &str, log: &Vec<Reply>) -> (r: Step)
    requires
        log@.len() >= 3,
    ensures
        r@ == queue_exists_next(root_id@, replies_from(log@, 3)),
{
    if log.len() == 3 {
        return Step::Ask(Request::HasEmbeddings { id: root_id.to_string() });
    }
    let known = match &log[3] {
        Reply::Failed { message } => {
            return query_failed("Failed to check embeddings: ", message.as_str());
        },
        Reply::Flag { value } => *value,
        _ => {
            return Step::Mismatch;
        },
    };
    if log.len() == 4 {
        if known {
            return Step::Ask(Request::MarkStale { id: root_id.to_string() });
        }
        return Step::Ask(Request::CreateStaleMarker { id: root_id.to_string() });
    }
    match &log[4] {
        Reply::Failed { message } => {
            if known {
                query_failed("Failed to mark embedding stale: ", message.as_str())
            } else {
                query_failed("Failed to create stale marker: ", message.as_str())
            }
        },
        Reply::Done => Step::Finish(Outcome::Nothing),
        _ => Step::Mismatch,
    }
}

fn queue_roots(roots: &Vec<String>, log: &Vec<Reply>, from: usize) -> (r: Step)
    requires
        from <= log@.len(),
    ensures
        r@ == queue_roots_next(texts(roots@), 0, replies_from(log@, from as int)),
{
    let ghost all = texts(roots@);
    let ghost want = queue_roots_next(all, 0, replies_from(log@, from as int));
    let mut at: usize = from;
    let mut i: usize = 0;
    while i < roots.len()
        invariant
            i <= roots@.len() == all.len(),
            at <= log@.len(),
            want == queue_roots_next(all, i as nat, replies_from(log@, at as int)),
        decreases roots@.len() - i,
    {
        proof {
            assert(all[i as int] == roots@[i as int]@);
        }
        if at >= log.len() {
            return Step::Ask(Request::QueueForEmbedding { id: roots[i].clone() });
        }
        match &log[at] {
            Reply::Done => {},
            Reply::Refused { error: _ } => {},
            _ => {
                return Step::Mismatch;
            },
        }
        at += 1;
        i += 1;
    }
    Step::Finish(Outcome::Nothing)
}

/// The way to a root is bounded: after that many replies nothing more is asked.
pub proof fn law_root_search_is_bounded(current: Seq<char>, left: nat, log: Seq<ReplyView>)
    requires
        log.len() >= left,
    ensures
        !(find_root_next(current, left, log) is Ask),
    decreases left,
{
    if left > 0 {
        match log[0] {
            ReplyView::Node { node: Some(parent) } => {
                law_root_search_is_bounded(parent.id, (left - 1) as nat, log.skip(1));
            },
            _ => {},
        }
    }
}

/// A root that cannot be embedded does not stop the others: once the stale roots are known the
/// operation does not fail, and it counts no more roots than there are.
pub proof fn law_failures_do_not_stop_the_batch(
    ids: Seq<Seq<char>>,
    i: nat,
    done: nat,
    max_retries: u32,
    log: Seq<ReplyView>,
)
    requires
        done <= i <= ids.len() <= usize::MAX,
    ensures
        !(stale_roots_next(ids, i, done, max_retries, log) is Fail),
        stale_roots_next(ids, i, done, max_retries, log) matches StepView::Finish(outcome)
            ==> outcome matches OutcomeView::Count { count } && done <= count <= ids.len(),
    decreases ids.len() - i,
{
    if i < ids.len() && log.len() > 0 {
        match log[0] {
            ReplyView::Done => {
                law_failures_do_not_stop_the_batch(ids, i + 1, done + 1, max_retries, log.skip(1));
            },
            ReplyView::Refused { error } => {
                let rest = log.skip(1);
                assert(stale_roots_next(ids, i, done, max_retries, log) == stale_error_next(
                    ids,
                    i,
                    done,
                    max_retries,
                    error,
                    rest,
                ));
                if rest.len() > 0 {
                    law_failures_do_not_stop_the_batch(ids, i + 1, done, max_retries, rest.skip(1));
                }
            },
            _ => {},
        }
    }
}

/// A root is marked only if its type contributes something to its embedding.
pub proof fn law_only_embeddable_roots_are_marked(node_id: Seq<char>, log: Seq<ReplyView>)
    requires
        queue_next(node_id, log) matches StepView::Ask(request) && (request is MarkStale
            || request is CreateStaleMarker),
    ensures
        log.len() > 2,
        log[2] matches ReplyView::MaybeText { text: Some(_) },
{
}

/// A root without a text loses its embeddings, and nothing is embedded.
pub proof fn law_roots_without_text_lose_their_embeddings(
    root_id: Seq<char>,
    root: NodeView,
    config: EmbeddingConfig,
    log: Seq<ReplyView>,
)
    requires
        log.len() == 2,
        log[0] == (ReplyView::Node { node: Some(root) }),
        log[1] == (ReplyView::MaybeText { text: None }),
    ensures
        embed_next(root_id, config, log) == StepView::Ask(
            RequestView::DeleteEmbeddings { id: root_id },
        ),
{
}

/// Embeddings are stored only once there is a vector for every chunk, with the hash of the whole
/// text.
pub proof fn law_embeddings_are_stored_whole(
    root_id: Seq<char>,
    content: Seq<char>,
    chunks: Seq<(i32, i32, Seq<char>)>,
    i: nat,
    log: Seq<ReplyView>,
)
    requires
        i <= chunks.len(),
        embed_chunks_next(root_id, content, chunks, i, log) matches StepView::Ask(
            RequestView::StoreEmbeddings { root_id: _, content_hash: _, chunks: _ },
        ),
    ensures
        log.len() == chunks.len() - i,
        forall|k: int| 0 <= k < log.len() ==> #[trigger] log[k] == ReplyView::Done,
        embed_chunks_next(root_id, content, chunks, i, log) == StepView::Ask(
            RequestView::StoreEmbeddings {
                root_id,
                content_hash: hex(sha256_digest(encode_utf8(content))),
                chunks: chunk_infos(chunks),
            },
        ),
    decreases chunks.len() - i,
{
    if i < chunks.len() {
        let rest = log.skip(1);
        law_embeddings_are_stored_whole(root_id, content, chunks, i + 1, rest);
        assert forall|k: int| 0 <= k < log.len() implies #[trigger] log[k] == ReplyView::Done by {
            if k > 0 {
                assert(rest[k - 1] == log[k]);
            }
        }
    }
}

/// Of several nodes each root is queued once.
pub proof fn law_roots_are_queued_once(
    ids: Seq<Seq<char>>,
    i: nat,
    roots: Seq<Seq<char>>,
    log: Seq<ReplyView>,
) -> (queued: (Seq<Seq<char>>, Seq<ReplyView>))
    requires
        roots.no_duplicates(),
        i <= ids.len(),
        log.len() >= ids.len() - i,
        !(queue_many_next(ids, i, roots, log) is Mismatch),
    ensures
        queued.0.no_duplicates(),
        queue_many_next(ids, i, roots, log) == queue_roots_next(queued.0, 0, queued.1),
    decreases ids.len() - i,
{
    if i >= ids.len() {
        (roots, log)
    } else {
        match log[0] {
            ReplyView::Text { text } => {
                let more = if roots.contains(text) {
                    roots
                } else {
                    roots.push(text)
                };
                law_roots_are_queued_once(ids, i + 1, more, log.skip(1))
            },
            _ => law_roots_are_queued_once(ids, i + 1, roots, log.skip(1)),
        }
    }
}

} // verus!
