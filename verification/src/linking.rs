//! Storing mentions, and keeping them in line with the content of nodes.

use crate::error::{ErrorView, NodeServiceError};
use crate::events::{DomainEvent, DomainEventView, RelationshipEvent, RelationshipEventView};
use crate::ids::{calendar_date, is_date_node_id};
use crate::json::{Json, Object, Value};
use crate::mentions::{extract_mentions, list_contains, mentions_in};
use crate::node::{optional_text, texts};
use crate::protocol::{
    group_replies, replies, replies_from, Outcome, OutcomeView, Reply, ReplyView, Request,
    RequestView, Step, StepView,
};
use crate::service::NodeService;
use crate::text::same_text;
use vstd::prelude::*;
use vstd::string::*;

verus! {

broadcast use group_replies;

/// A mention as events describe it.
pub open spec fn mention_created(id: Seq<char>, from: Seq<char>, to: Seq<char>) -> DomainEventView {
    DomainEventView::RelationshipCreated {
        relationship: RelationshipEventView {
            id,
            from_id: from,
            to_id: to,
            relationship_type: "mentions"@,
            properties: Json::Object(Map::empty()),
        },
    }
}

pub open spec fn mention_deleted(id: Seq<char>, from: Seq<char>, to: Seq<char>) -> DomainEventView {
    DomainEventView::RelationshipDeleted {
        id,
        from_id: from,
        to_id: to,
        relationship_type: "mentions"@,
    }
}

pub open spec fn self_mention() -> ErrorView {
    ErrorView::ValidationFailed("Cannot create self-referencing mention"@)
}

pub open spec fn own_root_mention() -> ErrorView {
    ErrorView::ValidationFailed("Cannot mention own root (root-level self-reference)"@)
}

pub open spec fn own_parent_mention() -> ErrorView {
    ErrorView::ValidationFailed("Cannot mention own parent (root-level self-reference)"@)
}

/// What keeps a node from mentioning another, besides that they are the same: `Root` if it is the
/// root above the node, `Parent` if it is the parent.
#[derive(Clone, Copy, Debug, PartialEq, Eq, Structural)]
pub enum MentionGuard {
    Root,
    Parent,
}

/// The storing of a mention. Both nodes exist, and the guard lets it pass.
pub open spec fn mention_next(
    from: Seq<char>,
    to: Seq<char>,
    guard: MentionGuard,
    log: Seq<ReplyView>,
) -> StepView {
    if from == to {
        StepView::Fail(self_mention())
    } else if log.len() == 0 {
        StepView::Ask(RequestView::NodeExists { id: from })
    } else {
        match log[0] {
            ReplyView::Refused { error } => StepView::Fail(error),
            ReplyView::Flag { value: false } => StepView::Fail(ErrorView::NodeNotFound { id: from }),
            ReplyView::Flag { value: true } => mention_target_next(from, to, guard, log.skip(1)),
            _ => StepView::Mismatch,
        }
    }
}

pub open spec fn mention_target_next(
    from: Seq<char>,
    to: Seq<char>,
    guard: MentionGuard,
    log: Seq<ReplyView>,
) -> StepView {
    if log.len() == 0 {
        StepView::Ask(RequestView::NodeExists { id: to })
    } else {
        match log[0] {
            ReplyView::Refused { error } => StepView::Fail(error),
            ReplyView::Flag { value: false } => StepView::Fail(ErrorView::NodeNotFound { id: to }),
            ReplyView::Flag { value: true } => mention_guard_next(from, to, guard, log.skip(1)),
            _ => StepView::Mismatch,
        }
    }
}

/// The guard. That the root cannot be found is a failure; that the parent cannot is not.
pub open spec fn mention_guard_next(
    from: Seq<char>,
    to: Seq<char>,
    guard: MentionGuard,
    log: Seq<ReplyView>,
) -> StepView {
    match guard {
        MentionGuard::Root => if log.len() == 0 {
            StepView::Ask(RequestView::GetRoot { id: from })
        } else {
            match log[0] {
                ReplyView::Refused { error } => StepView::Fail(error),
                ReplyView::Text { text: root } => if root == to {
                    StepView::Fail(own_root_mention())
                } else {
                    mention_store_next(from, to, Seq::empty(), log.skip(1))
                },
                _ => StepView::Mismatch,
            }
        },
        MentionGuard::Parent => if log.len() == 0 {
            StepView::Ask(RequestView::GetParent { id: from })
        } else {
            match log[0] {
                ReplyView::Node { node: Some(parent) } if parent.id == to => StepView::Fail(
                    own_parent_mention(),
                ),
                ReplyView::Node { node: _ } | ReplyView::Refused { error: _ } => mention_store_next(
                    from,
                    to,
                    "Failed to insert mention: "@,
                    log.skip(1),
                ),
                _ => StepView::Mismatch,
            }
        },
    }
}

/// A mention that is new is announced; one that was there already is not. `prefix` introduces the
/// message of a failure.
pub open spec fn mention_store_next(
    from: Seq<char>,
    to: Seq<char>,
    prefix: Seq<char>,
    log: Seq<ReplyView>,
) -> StepView {
    if log.len() == 0 {
        StepView::Ask(RequestView::StoreMention { from, to })
    } else {
        match log[0] {
            ReplyView::Failed { message } => StepView::Fail(ErrorView::QueryFailed(prefix + message)),
            ReplyView::MaybeText { text: None } => StepView::Finish(OutcomeView::Nothing),
            ReplyView::MaybeText { text: Some(id) } => announce_next(
                mention_created(id, from, to),
                log.skip(1),
            ),
            _ => StepView::Mismatch,
        }
    }
}

pub open spec fn announce_next(event: DomainEventView, log: Seq<ReplyView>) -> StepView {
    if log.len() == 0 {
        StepView::Ask(RequestView::Emit { event })
    } else {
        match log[0] {
            ReplyView::Done => StepView::Finish(OutcomeView::Nothing),
            _ => StepView::Mismatch,
        }
    }
}

/// The removal of a mention. One that was not there is removed without an event.
pub open spec fn unmention_next(
    from: Seq<char>,
    to: Seq<char>,
    prefix: Seq<char>,
    log: Seq<ReplyView>,
) -> StepView {
    if log.len() == 0 {
        StepView::Ask(RequestView::StoreUnmention { from, to })
    } else {
        match log[0] {
            ReplyView::Failed { message } => StepView::Fail(ErrorView::QueryFailed(prefix + message)),
            ReplyView::MaybeText { text: None } => StepView::Finish(OutcomeView::Nothing),
            ReplyView::MaybeText { text: Some(id) } => announce_next(
                mention_deleted(id, from, to),
                log.skip(1),
            ),
            _ => StepView::Mismatch,
        }
    }
}

impl NodeService {
    /// Stores that a node mentions another, which is neither the node nor the root above it.
    pub fn create_mention(
        &self,
        mentioning_node_id: &str,
        mentioned_node_id: &str,
        log: &Vec<Reply>,
    ) -> (r: Step)
        ensures
            r@ == mention_next(
                mentioning_node_id@,
                mentioned_node_id@,
                MentionGuard::Root,
                replies(log@),
            ),
    {
        NodeService::mention(mentioning_node_id, mentioned_node_id, MentionGuard::Root, log)
    }

    /// Stores that a node mentions another, which is neither the node nor its parent.
    pub fn add_mention(&self, source_id: &str, target_id: &str, log: &Vec<Reply>) -> (r: Step)
        ensures
            r@ == mention_next(source_id@, target_id@, MentionGuard::Parent, replies(log@)),
    {
        NodeService::mention(source_id, target_id, MentionGuard::Parent, log)
    }

    fn mention(from: &str, to: &str, guard: MentionGuard, log: &Vec<Reply>) -> (r: Step)
        ensures
            r@ == mention_next(from@, to@, guard, replies(log@)),
    {
        if same_text(from, to) {
            return Step::Fail(
                NodeServiceError::ValidationFailed(
                    "Cannot create self-referencing mention".to_owned(),
                ),
            );
        }
        if log.len() == 0 {
            return Step::Ask(Request::NodeExists { id: from.to_owned() });
        }
        match &log[0] {
            Reply::Refused { error } => {
                return Step::Fail(error.clone());
            },
            Reply::Flag { value } => {
                if !*value {
                    return Step::Fail(NodeServiceError::node_not_found(from));
                }
            },
            _ => {
                return Step::Mismatch;
            },
        }
        if log.len() == 1 {
            return Step::Ask(Request::NodeExists { id: to.to_owned() });
        }
        match &log[1] {
            Reply::Refused { error } => {
                return Step::Fail(error.clone());
            },
            Reply::Flag { value } => {
                if !*value {
                    return Step::Fail(NodeServiceError::node_not_found(to));
                }
            },
            _ => {
                return Step::Mismatch;
            },
        }
        NodeService::guard_mention(from, to, guard, log, 2)
    }

    fn guard_mention(from: &str, to: &str, guard: MentionGuard, log: &Vec<Reply>, at: usize) -> (r: Step)
        requires
            at <= log@.len(),
        ensures
            r@ == mention_guard_next(from@, to@, guard, replies_from(log@, at as int)),
    {
        match guard {
            MentionGuard::Root => {
                if at >= log.len() {
                    return Step::Ask(Request::GetRoot { id: from.to_owned() });
                }
                match &log[at] {
                    Reply::Refused { error } => Step::Fail(error.clone()),
                    Reply::Text { text: root } => {
                        if same_text(root.as_str(), to) {
                            Step::Fail(
                                NodeServiceError::ValidationFailed(
                                    "Cannot mention own root (root-level self-reference)".to_owned(),
                                ),
                            )
                        } else {
                            let none = String::new();
                            NodeService::store_mention(from, to, none.as_str(), log, at + 1)
                        }
                    },
                    _ => Step::Mismatch,
                }
            },
            MentionGuard::Parent => {
                if at >= log.len() {
                    return Step::Ask(Request::GetParent { id: from.to_owned() });
                }
                match &log[at] {
                    Reply::Node { node: Some(parent) } => {
                        if same_text(parent.id.as_str(), to) {
                            return Step::Fail(
                                NodeServiceError::ValidationFailed(
                                    "Cannot mention own parent (root-level self-reference)".to_owned(),
                                ),
                            );
                        }
                    },
                    Reply::Node { node: None } => {},
                    Reply::Refused { error: _ } => {},
                    _ => {
                        return Step::Mismatch;
                    },
                }
                NodeService::store_mention(from, to, "Failed to insert mention: ", log, at + 1)
            },
        }
    }

    fn store_mention(from: &str, to: &str, prefix: &str, log: &Vec<Reply>, at: usize) -> (r: Step)
        requires
            at <= log@.len(),
        ensures
            r@ == mention_store_next(from@, to@, prefix@, replies_from(log@, at as int)),
    {
        if at >= log.len() {
            return Step::Ask(Request::StoreMention { from: from.to_owned(), to: to.to_owned() });
        }
        match &log[at] {
            Reply::Failed { message } => {
                let mut text = prefix.to_owned();
                text.append(message.as_str());
                Step::Fail(NodeServiceError::QueryFailed(text))
            },
            Reply::MaybeText { text: None } => Step::Finish(Outcome::Nothing),
            Reply::MaybeText { text: Some(id) } => {
                let empty = Object::new();
                let event = DomainEvent::RelationshipCreated {
                    relationship: RelationshipEvent {
                        id: id.clone(),
                        from_id: from.to_owned(),
                        to_id: to.to_owned(),
                        relationship_type: "mentions".to_owned(),
                        properties: Value::Object(empty),
                    },
                };
                NodeService::announce(event, log, at + 1)
            },
            _ => Step::Mismatch,
        }
    }

    pub(crate) fn announce(event: DomainEvent, log: &Vec<Reply>, at: usize) -> (r: Step)
        requires
            at <= log@.len(),
        ensures
            r@ == announce_next(event@, replies_from(log@, at as int)),
    {
        if at >= log.len() {
            return Step::Ask(Request::Emit { event });
        }
        match &log[at] {
            Reply::Done => Step::Finish(Outcome::Nothing),
            _ => Step::Mismatch,
        }
    }

    /// Removes the mention of a node by another.
    pub fn delete_mention(
        &self,
        mentioning_node_id: &str,
        mentioned_node_id: &str,
        log: &Vec<Reply>,
    ) -> (r: Step)
        ensures
            r@ == unmention_next(
                mentioning_node_id@,
                mentioned_node_id@,
                Seq::empty(),
                replies(log@),
            ),
    {
        let none = String::new();
        NodeService::unmention(mentioning_node_id, mentioned_node_id, none.as_str(), log)
    }

    /// Removes the mention of a node by another.
    pub fn remove_mention(&self, source_id: &str, target_id: &str, log: &Vec<Reply>) -> (r: Step)
        ensures
            r@ == unmention_next(
                source_id@,
                target_id@,
                "Failed to delete mention: "@,
                replies(log@),
            ),
    {
        NodeService::unmention(source_id, target_id, "Failed to delete mention: ", log)
    }

    fn unmention(from: &str, to: &str, prefix: &str, log: &Vec<Reply>) -> (r: Step)
        ensures
            r@ == unmention_next(from@, to@, prefix@, replies(log@)),
    {
        if log.len() == 0 {
            return Step::Ask(Request::StoreUnmention { from: from.to_owned(), to: to.to_owned() });
        }
        match &log[0] {
            Reply::Failed { message } => {
                let mut text = prefix.to_owned();
                text.append(message.as_str());
                Step::Fail(NodeServiceError::QueryFailed(text))
            },
            Reply::MaybeText { text: None } => Step::Finish(Outcome::Nothing),
            Reply::MaybeText { text: Some(id) } => {
                let event = DomainEvent::RelationshipDeleted {
                    id: id.clone(),
                    from_id: from.to_owned(),
                    to_id: to.to_owned(),
                    relationship_type: "mentions".to_owned(),
                };
                NodeService::announce(event, log, 1)
            },
            _ => Step::Mismatch,
        }
    }
}

/// A mention is stored only between two nodes that exist and differ.
pub proof fn law_no_node_mentions_itself(
    from: Seq<char>,
    to: Seq<char>,
    guard: MentionGuard,
    log: Seq<ReplyView>,
)
    requires
        mention_next(from, to, guard, log) matches StepView::Ask(RequestView::StoreMention {
            from: _,
            to: _,
        }),
    ensures
        mention_next(from, to, guard, log) == StepView::Ask(RequestView::StoreMention { from, to }),
        from != to,
        log[0] == (ReplyView::Flag { value: true }),
        log[1] == (ReplyView::Flag { value: true }),
        guard == MentionGuard::Root ==> (log[2] matches ReplyView::Text { text: root } && root != to),
        guard == MentionGuard::Parent ==> (log[2] matches ReplyView::Node { node: Some(parent) }
            ==> parent.id != to),
{
}

/// Whether a mention that the content gained is stored: not if it is the node itself or its parent.
pub open spec fn is_added(
    node_id: Seq<char>,
    parent: Option<Seq<char>>,
    old: Seq<Seq<char>>,
    m: Seq<char>,
) -> bool {
    !old.contains(m) && m != node_id && parent != Some(m)
}

/// Whether a mention that the content lost is removed: not if it is the node itself.
pub open spec fn is_removed(node_id: Seq<char>, new: Seq<Seq<char>>, m: Seq<char>) -> bool {
    !new.contains(m) && m != node_id
}

/// The mentions to store, in the order in which the new content has them.
pub open spec fn mentions_to_add(
    node_id: Seq<char>,
    parent: Option<Seq<char>>,
    old: Seq<Seq<char>>,
    new: Seq<Seq<char>>,
) -> Seq<Seq<char>> {
    new.filter(|m: Seq<char>| is_added(node_id, parent, old, m))
}

/// The mentions to remove, in the order in which the old content had them.
pub open spec fn mentions_to_remove(
    node_id: Seq<char>,
    old: Seq<Seq<char>>,
    new: Seq<Seq<char>>,
) -> Seq<Seq<char>> {
    old.filter(|m: Seq<char>| is_removed(node_id, new, m))
}

/// The bringing of stored mentions in line with the content. What fails for one mention does not
/// keep the others from being brought in line.
pub open spec fn sync_next(
    node_id: Seq<char>,
    old: Seq<Seq<char>>,
    new: Seq<Seq<char>>,
    log: Seq<ReplyView>,
) -> StepView {
    if log.len() == 0 {
        StepView::Ask(RequestView::LoadParentId { id: node_id })
    } else {
        match log[0] {
            ReplyView::Failed { message } => StepView::Fail(ErrorView::QueryFailed(message)),
            ReplyView::MaybeText { text: parent } => sync_add_next(
                node_id,
                mentions_to_add(node_id, parent, old, new),
                mentions_to_remove(node_id, old, new),
                log.skip(1),
            ),
            _ => StepView::Mismatch,
        }
    }
}

/// A date that is mentioned is made to exist first.
pub open spec fn sync_add_next(
    node_id: Seq<char>,
    adds: Seq<Seq<char>>,
    removes: Seq<Seq<char>>,
    log: Seq<ReplyView>,
) -> StepView
    decreases adds.len(), 1nat,
{
    if adds.len() == 0 {
        sync_remove_next(node_id, removes, log)
    } else if !calendar_date(adds[0]) {
        sync_store_next(node_id, adds, removes, log)
    } else if log.len() == 0 {
        StepView::Ask(RequestView::EnsureDate { id: adds[0] })
    } else {
        match log[0] {
            ReplyView::Done | ReplyView::Refused { error: _ } => sync_store_next(
                node_id,
                adds,
                removes,
                log.skip(1),
            ),
            _ => StepView::Mismatch,
        }
    }
}

pub open spec fn sync_store_next(
    node_id: Seq<char>,
    adds: Seq<Seq<char>>,
    removes: Seq<Seq<char>>,
    log: Seq<ReplyView>,
) -> StepView
    decreases adds.len(), 0nat,
{
    if adds.len() == 0 {
        StepView::Mismatch
    } else if log.len() == 0 {
        StepView::Ask(RequestView::CreateMention { from: node_id, to: adds[0] })
    } else {
        match log[0] {
            ReplyView::Done | ReplyView::Refused { error: _ } => sync_add_next(
                node_id,
                adds.skip(1),
                removes,
                log.skip(1),
            ),
            _ => StepView::Mismatch,
        }
    }
}

pub open spec fn sync_remove_next(
    node_id: Seq<char>,
    removes: Seq<Seq<char>>,
    log: Seq<ReplyView>,
) -> StepView
    decreases removes.len(),
{
    if removes.len() == 0 {
        StepView::Finish(OutcomeView::Nothing)
    } else if log.len() == 0 {
        StepView::Ask(RequestView::DeleteMention { from: node_id, to: removes[0] })
    } else {
        match log[0] {
            ReplyView::Done | ReplyView::Refused { error: _ } => sync_remove_next(
                node_id,
                removes.skip(1),
                log.skip(1),
            ),
            _ => StepView::Mismatch,
        }
    }
}

fn select_added(node_id: &str, parent: &Option<String>, old: &Vec<String>, new: &Vec<String>) -> (r: Vec<
    String,
>)
    ensures
        texts(r@) == mentions_to_add(
            node_id@,
            optional_text(*parent),
            texts(old@),
            texts(new@),
        ),
{
    let ghost keep = |m: Seq<char>| is_added(node_id@, optional_text(*parent), texts(old@), m);
    let ghost all = texts(new@);
    let mut out: Vec<String> = Vec::new();
    proof {
        reveal(Seq::filter);
        assert(texts(out@) =~= Seq::empty());
    }
    let mut i: usize = 0;
    while i < new.len()
        invariant
            i <= new@.len() == all.len(),
            texts(out@) == all.take(i as int).filter(keep),
        decreases new@.len() - i,
    {
        proof {
            reveal(Seq::filter);
            assert(all.take(i + 1).drop_last() =~= all.take(i as int));
            assert(all.take(i + 1).last() == new@[i as int]@);
        }
        let is_parent = match parent {
            Some(p) => same_text(p.as_str(), new[i].as_str()),
            None => false,
        };
        if !list_contains(old, new[i].as_str()) && !same_text(new[i].as_str(), node_id) && !is_parent {
            let ghost before = texts(out@);
            out.push(new[i].clone());
            proof {
                assert(texts(out@) =~= before.push(new@[i as int]@));
            }
        }
        i += 1;
    }
    proof {
        assert(all.take(all.len() as int) =~= all);
    }
    out
}

fn select_removed(node_id: &str, old: &Vec<String>, new: &Vec<String>) -> (r: Vec<String>)
    ensures
        texts(r@) == mentions_to_remove(node_id@, texts(old@), texts(new@)),
{
    let ghost keep = |m: Seq<char>| is_removed(node_id@, texts(new@), m);
    let ghost all = texts(old@);
    let mut out: Vec<String> = Vec::new();
    proof {
        reveal(Seq::filter);
        assert(texts(out@) =~= Seq::empty());
    }
    let mut i: usize = 0;
    while i < old.len()
        invariant
            i <= old@.len() == all.len(),
            texts(out@) == all.take(i as int).filter(keep),
        decreases old@.len() - i,
    {
        proof {
            reveal(Seq::filter);
            assert(all.take(i + 1).drop_last() =~= all.take(i as int));
            assert(all.take(i + 1).last() == old@[i as int]@);
        }
        if !list_contains(new, old[i].as_str()) && !same_text(old[i].as_str(), node_id) {
            let ghost before = texts(out@);
            out.push(old[i].clone());
            proof {
                assert(texts(out@) =~= before.push(old@[i as int]@));
            }
        }
        i += 1;
    }
    proof {
        assert(all.take(all.len() as int) =~= all);
    }
    out
}

impl NodeService {
    /// Brings the stored mentions of a node in line with a change of its content.
    pub fn sync_mentions(
        &self,
        node_id: &str,
        old_content: &str,
        new_content: &str,
        log: &Vec<Reply>,
    ) -> (r: Step)
        ensures
            r@ == sync_next(
                node_id@,
                mentions_in(old_content@),
                mentions_in(new_content@),
                replies(log@),
            ),
    {
        let old = extract_mentions(old_content);
        let new = extract_mentions(new_content);
        NodeService::sync_mention_lists(node_id, &old, &new, log)
    }

    /// Brings the stored mentions of a node in line: `old` are those that its content had, `new`
    /// those that it has.
    pub fn sync_mention_lists(
        node_id: &str,
        old: &Vec<String>,
        new: &Vec<String>,
        log: &Vec<Reply>,
    ) -> (r: Step)
        ensures
            r@ == sync_next(node_id@, texts(old@), texts(new@), replies(log@)),
    {
        if log.len() == 0 {
            return Step::Ask(Request::LoadParentId { id: node_id.to_owned() });
        }
        let parent = match &log[0] {
            Reply::Failed { message } => {
                return Step::Fail(NodeServiceError::QueryFailed(message.clone()));
            },
            Reply::MaybeText { text } => text,
            _ => {
                return Step::Mismatch;
            },
        };
        let adds = select_added(node_id, parent, old, new);
        let removes = select_removed(node_id, old, new);
        let ghost want = sync_next(node_id@, texts(old@), texts(new@), replies(log@));
        let ghost all_adds = texts(adds@);
        let ghost all_removes = texts(removes@);
        let mut at: usize = 1;
        let mut i: usize = 0;
        proof {
            assert(all_adds.skip(0) =~= all_adds);
        }
        while i < adds.len()
            invariant
                i <= adds@.len() == all_adds.len(),
                at <= log@.len(),
                want == sync_add_next(
                    node_id@,
                    all_adds.skip(i as int),
                    all_removes,
                    replies_from(log@, at as int),
                ),
            decreases adds@.len() - i,
        {
            let ghost rest = all_adds.skip(i as int);
            proof {
                assert(rest[0] == adds@[i as int]@);
                assert(rest.skip(1) =~= all_adds.skip(i + 1));
            }
            if is_date_node_id(adds[i].as_str()) {
                if at >= log.len() {
                    return Step::Ask(Request::EnsureDate { id: adds[i].clone() });
                }
                match &log[at] {
                    Reply::Done => {},
                    Reply::Refused { error: _ } => {},
                    _ => {
                        return Step::Mismatch;
                    },
                }
                at += 1;
            }
            proof {
                assert(want == sync_store_next(
                    node_id@,
                    rest,
                    all_removes,
                    replies_from(log@, at as int),
                ));
            }
            if at >= log.len() {
                return Step::Ask(
                    Request::CreateMention { from: node_id.to_owned(), to: adds[i].clone() },
                );
            }
            match &log[at] {
                Reply::Done => {},
                Reply::Refused { error: _ } => {},
                _ => {
                    return Step::Mismatch;
                },
            }
            at += 1;
            i += 1;
        }
        proof {
            assert(all_adds.skip(i as int).len() == 0);
            assert(all_removes.skip(0) =~= all_removes);
        }
        let mut k: usize = 0;
        while k < removes.len()
            invariant
                k <= removes@.len() == all_removes.len(),
                at <= log@.len(),
                want == sync_remove_next(
                    node_id@,
                    all_removes.skip(k as int),
                    replies_from(log@, at as int),
                ),
            decreases removes@.len() - k,
        {
            let ghost rest = all_removes.skip(k as int);
            proof {
                assert(rest[0] == removes@[k as int]@);
                assert(rest.skip(1) =~= all_removes.skip(k + 1));
            }
            if at >= log.len() {
                return Step::Ask(
                    Request::DeleteMention { from: node_id.to_owned(), to: removes[k].clone() },
                );
            }
            match &log[at] {
                Reply::Done => {},
                Reply::Refused { error: _ } => {},
                _ => {
                    return Step::Mismatch;
                },
            }
            at += 1;
            k += 1;
        }
        Step::Finish(Outcome::Nothing)
    }
}

proof fn lemma_filter_contains(s: Seq<Seq<char>>, p: spec_fn(Seq<char>) -> bool)
    ensures
        forall|x: Seq<char>| #[trigger] s.filter(p).contains(x) <==> s.contains(x) && p(x),
    decreases s.len(),
{
    reveal(Seq::filter);
    if s.len() > 0 {
        let front = s.drop_last();
        lemma_filter_contains(front, p);
        crate::sequences::lemma_push_contains(front, s.last());
        assert(front.push(s.last()) =~= s);
        crate::sequences::lemma_push_contains(front.filter(p), s.last());
        assert forall|x: Seq<char>| #[trigger] s.filter(p).contains(x) <==> s.contains(x) && p(x) by {
            assert(front.filter(p).contains(x) <==> front.contains(x) && p(x));
        }
    }
}

/// The nodes of a list that a node may mention: not itself and not its parent.
pub open spec fn mentionable(
    node_id: Seq<char>,
    parent: Option<Seq<char>>,
    mentions: Seq<Seq<char>>,
) -> Set<Seq<char>> {
    Set::new(|m: Seq<char>| mentions.contains(m) && m != node_id && parent != Some(m))
}

/// If the stored mentions were those of the old content, then adding and removing makes them those
/// of the new content.
pub proof fn law_sync_reaches_the_new_mentions(
    node_id: Seq<char>,
    parent: Option<Seq<char>>,
    old: Seq<Seq<char>>,
    new: Seq<Seq<char>>,
)
    ensures
        mentionable(node_id, parent, old).union(
            mentions_to_add(node_id, parent, old, new).to_set(),
        ).difference(mentions_to_remove(node_id, old, new).to_set()) == mentionable(
            node_id,
            parent,
            new,
        ),
{
    let keep = |m: Seq<char>| is_added(node_id, parent, old, m);
    let drop = |m: Seq<char>| is_removed(node_id, new, m);
    lemma_filter_contains(new, keep);
    lemma_filter_contains(old, drop);
    let adds = mentions_to_add(node_id, parent, old, new);
    let removes = mentions_to_remove(node_id, old, new);
    assert forall|m: Seq<char>|
        mentionable(node_id, parent, old).union(adds.to_set()).difference(removes.to_set()).contains(m)
            <==> mentionable(node_id, parent, new).contains(m) by {
        assert(adds.contains(m) <==> new.contains(m) && keep(m));
        assert(removes.contains(m) <==> old.contains(m) && drop(m));
    }
    assert(mentionable(node_id, parent, old).union(adds.to_set()).difference(removes.to_set())
        =~= mentionable(node_id, parent, new));
}

/// What both contents mention is neither stored anew nor removed.
pub proof fn law_sync_leaves_the_rest(
    node_id: Seq<char>,
    parent: Option<Seq<char>>,
    old: Seq<Seq<char>>,
    new: Seq<Seq<char>>,
    m: Seq<char>,
)
    requires
        old.contains(m),
        new.contains(m),
    ensures
        !mentions_to_add(node_id, parent, old, new).contains(m),
        !mentions_to_remove(node_id, old, new).contains(m),
{
    lemma_filter_contains(new, |m: Seq<char>| is_added(node_id, parent, old, m));
    lemma_filter_contains(old, |m: Seq<char>| is_removed(node_id, new, m));
}

} // verus!
