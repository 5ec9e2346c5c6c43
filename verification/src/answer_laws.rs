//! What the operations that answer requests of other operations promise.

use crate::answers::{own_step, reply_of};
use crate::error::ErrorView;
use crate::ids::calendar_date;
use crate::linking_laws::{law_mentions_follow_the_content, syncing};
use crate::mentions::mentions_in;
use crate::node::{BulkNodeView, NodeUpdateView, NodeView};
use crate::protocol::{OutcomeView, ReplyView, RequestView, StepView};
use crate::trace::{asked_at, was_asked};
use vstd::prelude::*;

verus! {

/// The operation that answers the request, as a function of the replies.
pub open spec fn answering(
    request: RequestView,
    now: i64,
    fresh: Seq<char>,
) -> spec_fn(Seq<ReplyView>) -> StepView {
    |l: Seq<ReplyView>| own_step(request, now, fresh, l)->0
}

/// A request that the library answers itself comes down to one about the same node.
pub proof fn law_requests_are_about_the_same_node(
    id: Seq<char>,
    other: Seq<char>,
    after: Option<Seq<char>>,
    version: i64,
    update: NodeUpdateView,
    node: NodeView,
    now: i64,
    fresh: Seq<char>,
)
    ensures
        ({
            let none = Seq::<ReplyView>::empty();
            let first = |r: RequestView| own_step(r, now, fresh, none);
            &&& first(RequestView::GetNode { id }) == Some(StepView::Ask(RequestView::LoadNode { id }))
            &&& first(RequestView::NodeExists { id }) == Some(StepView::Ask(RequestView::LoadNode { id }))
            &&& first(RequestView::GetParent { id }) == Some(
                StepView::Ask(RequestView::LoadParent { id }),
            )
            &&& first(RequestView::GetChildren { id }) == Some(
                StepView::Ask(RequestView::LoadChildren { id }),
            )
            &&& first(RequestView::GetRoot { id }) == Some(
                StepView::Ask(RequestView::LoadParentId { id }),
            )
            &&& first(RequestView::IsRoot { id }) == Some(StepView::Ask(RequestView::GetParent { id }))
            &&& id != other ==> first(RequestView::IsDescendant { ancestor: other, id }) == Some(
                StepView::Ask(RequestView::GetParent { id }),
            )
            &&& first(RequestView::IsDescendant { ancestor: id, id }) == Some(
                StepView::Finish(OutcomeView::Flag { value: true }),
            )
            &&& calendar_date(id) ==> first(RequestView::EnsureDate { id }) == Some(
                StepView::Ask(RequestView::LoadNode { id }),
            )
            &&& !calendar_date(id) ==> first(RequestView::EnsureDate { id }) == Some(
                StepView::Finish(OutcomeView::Nothing),
            )
            &&& first(RequestView::CreateParentEdge { child: id, parent: other, after }) == Some(
                StepView::Ask(RequestView::StoreMove { id, parent: Some(other), after }),
            )
            &&& first(RequestView::QueueRoot { id }) == Some(StepView::Ask(RequestView::GetRoot { id }))
            &&& id != other ==> first(RequestView::CreateMention { from: id, to: other }) == Some(
                StepView::Ask(RequestView::NodeExists { id }),
            )
            &&& first(RequestView::DeleteMention { from: id, to: other }) == Some(
                StepView::Ask(RequestView::StoreUnmention { from: id, to: other }),
            )
            &&& first(RequestView::DeleteNode { id, expected_version: version }) == Some(
                StepView::Ask(RequestView::LoadNode { id }),
            )
            &&& first(RequestView::ReorderChild { id, after }) == Some(
                StepView::Ask(RequestView::GetNode { id }),
            )
            &&& first(RequestView::BumpVersion { id, expected_version: version }) == Some(
                StepView::Ask(RequestView::GetNode { id }),
            )
            &&& !update.empty() ==> first(
                RequestView::VersionedUpdate { id, expected_version: version, update },
            ) == Some(StepView::Ask(RequestView::GetNode { id }))
            &&& first(RequestView::PopulateMentions { node }) == Some(
                StepView::Ask(RequestView::LoadMentions { id: node.id }),
            )
            &&& (first(RequestView::CreateNode { node }) matches Some(
                StepView::Ask(RequestView::ValidateBehavior { node: checked }),
            ) && checked.id == node.id && checked.content == node.content)
            &&& first(RequestView::ValidatePlaybook { properties: node.properties }) == Some(
                StepView::Ask(RequestView::ParseRules { properties: node.properties }),
            )
        }),
{
    let none = Seq::<ReplyView>::empty();
    let first = |r: RequestView| own_step(r, now, fresh, none);
    assert(first(RequestView::GetRoot { id }) == Some(
        StepView::Ask(RequestView::LoadParentId { id }),
    ));
    assert(id != other ==> first(RequestView::IsDescendant { ancestor: other, id }) == Some(
        StepView::Ask(RequestView::GetParent { id }),
    ));
}

/// The versions that callers name are those that the store is asked to go by.
pub proof fn law_versions_are_handed_on(
    id: Seq<char>,
    version: i64,
    node: NodeView,
    root: Seq<char>,
    now: i64,
    fresh: Seq<char>,
)
    ensures
        own_step(
            RequestView::BumpVersion { id, expected_version: version },
            now,
            fresh,
            seq![ReplyView::Node { node: Some(node) }],
        ) matches Some(
            StepView::Ask(RequestView::StoreVersionedUpdate { id: i, expected_version: v, update: _ }),
        ) && i == id && v == version,
        own_step(
            RequestView::DeleteNode { id, expected_version: version },
            now,
            fresh,
            seq![
                ReplyView::Node { node: Some(node) },
                ReplyView::Text { text: root },
                ReplyView::Nodes { nodes: Seq::empty() },
            ],
        ) == Some(StepView::Ask(RequestView::StoreVersionedDelete { id, expected_version: version })),
{
    let log = seq![
        ReplyView::Node { node: Some(node) },
        ReplyView::Text { text: root },
        ReplyView::Nodes { nodes: Seq::empty() },
    ];
    assert(log.skip(1).skip(1)[0] == log[2]);
}

/// When a content changes, each node that the new one mentions and the old one does not is mentioned
/// from then on, but for the node itself and its parent, and each that only the old one mentions is not.
pub proof fn law_mentions_follow_a_change_of_content(
    id: Seq<char>,
    old_content: Seq<char>,
    new_content: Seq<char>,
    parent: Option<Seq<char>>,
    now: i64,
    fresh: Seq<char>,
    log: Seq<ReplyView>,
    m: Seq<char>,
)
    requires
        log.len() > 0,
        log[0] == (ReplyView::MaybeText { text: parent }),
        own_step(RequestView::SyncMentions { id, old_content, new_content }, now, fresh, log)
            matches Some(StepView::Finish(_)),
    ensures
        mentions_in(new_content).contains(m) && !mentions_in(old_content).contains(m) && m != id
            && parent != Some(m) ==> was_asked(
            answering(RequestView::SyncMentions { id, old_content, new_content }, now, fresh),
            log,
            RequestView::CreateMention { from: id, to: m },
        ),
        mentions_in(old_content).contains(m) && !mentions_in(new_content).contains(m) && m != id
            ==> was_asked(
            answering(RequestView::SyncMentions { id, old_content, new_content }, now, fresh),
            log,
            RequestView::DeleteMention { from: id, to: m },
        ),
{
    let old = mentions_in(old_content);
    let new = mentions_in(new_content);
    let op = answering(RequestView::SyncMentions { id, old_content, new_content }, now, fresh);
    law_mentions_follow_the_content(id, old, new, parent, log, m);
    let create = RequestView::CreateMention { from: id, to: m };
    let delete = RequestView::DeleteMention { from: id, to: m };
    if was_asked(syncing(id, old, new), log, create) {
        let k = choose|k: int| #[trigger] asked_at(syncing(id, old, new), log, create, k);
        assert(asked_at(op, log, create, k));
    }
    if was_asked(syncing(id, old, new), log, delete) {
        let k = choose|k: int| #[trigger] asked_at(syncing(id, old, new), log, delete, k);
        assert(asked_at(op, log, delete, k));
    }
}

/// A mention that a content makes may not lead to the root of the node.
pub proof fn law_mentions_are_guarded_by_the_root(
    from: Seq<char>,
    to: Seq<char>,
    now: i64,
    fresh: Seq<char>,
)
    requires
        from != to,
    ensures
        own_step(
            RequestView::CreateMention { from, to },
            now,
            fresh,
            seq![ReplyView::Flag { value: true }, ReplyView::Flag { value: true }],
        ) == Some(StepView::Ask(RequestView::GetRoot { id: from })),
        own_step(
            RequestView::CreateMention { from, to },
            now,
            fresh,
            seq![
                ReplyView::Flag { value: true },
                ReplyView::Flag { value: true },
                ReplyView::Text { text: to },
            ],
        ) matches Some(StepView::Fail(_)),
{
    let log = seq![
        ReplyView::Flag { value: true },
        ReplyView::Flag { value: true },
        ReplyView::Text { text: to },
    ];
    assert(log.skip(1).skip(1)[0] == log[2]);
}

/// All nodes of a type are looked for without any other condition.
pub proof fn law_types_are_queried_whole(node_type: Seq<char>, now: i64, fresh: Seq<char>)
    ensures
        own_step(RequestView::QueryByType { node_type }, now, fresh, Seq::empty()) matches Some(
            StepView::Ask(RequestView::QueryStore { query }),
        ) && query.node_type == Some(node_type) && query.id is None && query.content_contains is None
            && query.title_contains is None && query.mentioned_by is None && query.limit is None
            && query.offset is None,
{
}

/// Every node of an import that another operation asks for is announced.
pub proof fn law_requested_imports_are_announced(
    nodes: Seq<BulkNodeView>,
    now: i64,
    fresh: Seq<char>,
    log: Seq<ReplyView>,
    stored: Seq<BulkNodeView>,
    root_only: bool,
)
    requires
        own_step(RequestView::BulkCreateHierarchy { nodes }, now, fresh, log) == Some(
            StepView::Ask(RequestView::StoreHierarchy { nodes: stored, root_only }),
        ),
    ensures
        !root_only,
        stored.len() == nodes.len(),
{
    crate::bulk_laws::law_imports_store_what_is_given(
        nodes,
        crate::bulk::ImportKind::Announced,
        now,
        log,
        stored,
        root_only,
        0,
    );
}

/// What an operation ends with is what its caller gets as the reply: its error if it failed, and else
/// what it found.
pub proof fn law_outcomes_are_handed_back(
    error: ErrorView,
    id: Seq<char>,
    node: Option<NodeView>,
    nodes: Seq<NodeView>,
    ids: Seq<Seq<char>>,
    value: bool,
)
    ensures
        reply_of(StepView::Fail(error)) == Some(ReplyView::Refused { error }),
        reply_of(StepView::Finish(OutcomeView::Nothing)) == Some(ReplyView::Done),
        reply_of(StepView::Finish(OutcomeView::Id { id })) == Some(ReplyView::Text { text: id }),
        reply_of(StepView::Finish(OutcomeView::MaybeNode { node })) == Some(ReplyView::Node { node }),
        reply_of(StepView::Finish(OutcomeView::Flag { value })) == Some(ReplyView::Flag { value }),
        reply_of(StepView::Finish(OutcomeView::Deleted { existed: value })) == Some(
            ReplyView::Flag { value },
        ),
        reply_of(StepView::Finish(OutcomeView::Nodes { nodes })) == Some(ReplyView::Nodes { nodes }),
        reply_of(StepView::Finish(OutcomeView::Ids { ids })) == Some(ReplyView::Texts { items: ids }),
        reply_of(StepView::Finish(OutcomeView::Title { title: Some(id) })) == Some(
            ReplyView::MaybeText { text: Some(id) },
        ),
        reply_of(StepView::Ask(RequestView::WakeEmbedder)) is None,
        reply_of(StepView::Mismatch) is None,
{
}

} // verus!
