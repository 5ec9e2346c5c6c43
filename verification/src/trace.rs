//! What an operation asked for in the course of a conversation.

use crate::protocol::{ReplyView, RequestView, StepView};
use vstd::prelude::*;

verus! {

/// After the first `k` replies the operation made the request, and a reply to it followed.
pub open spec fn asked_at(
    next: spec_fn(Seq<ReplyView>) -> StepView,
    log: Seq<ReplyView>,
    request: RequestView,
    k: int,
) -> bool {
    0 <= k < log.len() && next(log.take(k)) == StepView::Ask(request)
}

/// The operation made the request at some point of the conversation and was answered.
pub open spec fn was_asked(
    next: spec_fn(Seq<ReplyView>) -> StepView,
    log: Seq<ReplyView>,
    request: RequestView,
) -> bool {
    exists|k: int| #[trigger] asked_at(next, log, request, k)
}

/// The operation made the request at some point of the conversation, and this was the reply.
pub open spec fn was_answered(
    next: spec_fn(Seq<ReplyView>) -> StepView,
    log: Seq<ReplyView>,
    request: RequestView,
    reply: ReplyView,
) -> bool {
    exists|k: int| #[trigger] asked_at(next, log, request, k) && log[k] == reply
}

/// What is asked in the rest of a conversation is asked in it.
pub proof fn lemma_asked_later(
    op: spec_fn(Seq<ReplyView>) -> StepView,
    inner: spec_fn(Seq<ReplyView>) -> StepView,
    log: Seq<ReplyView>,
    n: int,
    request: RequestView,
)
    requires
        0 <= n <= log.len(),
        forall|k: int| n <= k <= log.len() ==> #[trigger] op(log.take(k)) == inner(
            log.skip(n).take(k - n),
        ),
    ensures
        was_asked(inner, log.skip(n), request) ==> was_asked(op, log, request),
{
    if was_asked(inner, log.skip(n), request) {
        let k = choose|k: int| #[trigger] asked_at(inner, log.skip(n), request, k);
        assert(op(log.take(k + n)) == inner(log.skip(n).take(k)));
        assert(asked_at(op, log, request, k + n));
    }
}

/// What is asked and answered in the rest of a conversation is asked and answered in it.
pub proof fn lemma_answered_later(
    op: spec_fn(Seq<ReplyView>) -> StepView,
    inner: spec_fn(Seq<ReplyView>) -> StepView,
    log: Seq<ReplyView>,
    n: int,
    request: RequestView,
    reply: ReplyView,
)
    requires
        0 <= n <= log.len(),
        forall|k: int| n <= k <= log.len() ==> #[trigger] op(log.take(k)) == inner(
            log.skip(n).take(k - n),
        ),
    ensures
        was_answered(inner, log.skip(n), request, reply) ==> was_answered(op, log, request, reply),
{
    if was_answered(inner, log.skip(n), request, reply) {
        let k = choose|k: int|
            #[trigger] asked_at(inner, log.skip(n), request, k) && log.skip(n)[k] == reply;
        assert(op(log.take(k + n)) == inner(log.skip(n).take(k)));
        assert(asked_at(op, log, request, k + n));
    }
}

} // verus!
