//! What failures mean.

use crate::bulk::{bulk_behavior_next, bulk_create_next, bulk_schema_next};
use crate::create::{
    create_next, create_with_parent_next, ensure_date_next, sibling_check_next, sibling_pause_next,
    title_next, CreateNodeParamsView, SIBLING_ATTEMPTS,
};
use crate::error::ErrorView;
use crate::hierarchy::{
    bump_next, move_next, move_unchecked_next, node_exists_next, reorder_child_next, reorder_next,
};
use crate::hits::SearchHitView;
use crate::ids::calendar_date;
use crate::linking::{
    mention_next, sync_add_next, sync_remove_next, sync_store_next, unmention_next, MentionGuard,
};
use crate::node::{NodeUpdateView, NodeView};
use crate::protocol::{ReplyView, RequestView, StepView};
use crate::reading::get_next;
use crate::relationships::{defined_next, relate_next, EdgeView, FollowUp};
use crate::removal::{delete_children_next, delete_next};
use crate::search::{keyword_hit, search_fill_next, search_next};
use crate::update::{update_next, update_unchecked_next, update_versioned_next};
use crate::upsert::{upsert_next, UpsertView};
use vstd::prelude::*;

verus! {

/// The request goes to another operation, or to a check, which may refuse it with an error.
pub open spec fn may_be_refused(request: RequestView) -> bool {
    ||| request is GetNode
    ||| request is GetRoot
    ||| request is NodeExists
    ||| request is IsDescendant
    ||| request is IsRoot
    ||| request is ValidateBehavior
    ||| request is ValidatePlaybook
    ||| request is ComputeTitle
    ||| request is CreateNode
    ||| request is BumpVersion
    ||| request is ReorderChild
    ||| request is VersionedUpdate
    ||| request is PopulateMentions
    ||| request is Migrate
    ||| request is LoadRelationships
}

/// The request goes to the store, which may fail with a message.
pub open spec fn may_fail(request: RequestView) -> bool {
    ||| request is LoadNode
    ||| request is LoadSchema
    ||| request is StoreMove
    ||| request is StoreUpdate
    ||| request is StoreSchemaUpdate
    ||| request is StoreVersionedUpdate
    ||| request is InsertNode
    ||| request is InsertSchemaNode
    ||| request is StoreMention
    ||| request is StoreUnmention
    ||| request is StoreUpsert
    ||| request is FindEdge
    ||| request is HasEdge
    ||| request is Relate
    ||| request is DeleteEdge
    ||| request is AddToCollection
    ||| request is LoadMemberOrder
    ||| request is NextChildOrder
}

/// A refused request ends the operation with the same error, and a failed one ends it with an error.
pub open spec fn ends_on_failure(
    next: spec_fn(Seq<ReplyView>) -> StepView,
    log: Seq<ReplyView>,
    error: ErrorView,
    message: Seq<char>,
) -> bool {
    next(log) matches StepView::Ask(request) ==> {
        &&& may_be_refused(request) ==> next(log.push(ReplyView::Refused { error })) == StepView::Fail(
            error,
        )
        &&& may_fail(request) ==> next(log.push(ReplyView::Failed { message })) is Fail
    }
}

proof fn lemma_pushed(x: ReplyView)
    ensures
        forall|s: Seq<ReplyView>| s.len() > 0 ==> #[trigger] s.push(x).skip(1) == s.skip(1).push(x),
{
    assert forall|s: Seq<ReplyView>| s.len() > 0 implies #[trigger] s.push(x).skip(1) == s.skip(1).push(
        x,
    ) by {
        assert(s.push(x).skip(1) =~= s.skip(1).push(x));
    }
}

/// A creation ends with the first failure.
pub proof fn law_creations_end_on_failure(
    node: NodeView,
    log: Seq<ReplyView>,
    error: ErrorView,
    message: Seq<char>,
)
    ensures
        ends_on_failure(|l: Seq<ReplyView>| create_next(node, l), log, error, message),
{
    lemma_pushed(ReplyView::Refused { error });
    lemma_pushed(ReplyView::Failed { message });
}

/// Moves and changes of place end with the first failure.
pub proof fn law_moves_end_on_failure(
    id: Seq<char>,
    version: i64,
    parent: Option<Seq<char>>,
    after: Option<Seq<char>>,
    log: Seq<ReplyView>,
    error: ErrorView,
    message: Seq<char>,
)
    ensures
        ends_on_failure(|l: Seq<ReplyView>| move_next(id, version, parent, after, l), log, error, message),
        ends_on_failure(|l: Seq<ReplyView>| move_unchecked_next(id, parent, after, l), log, error, message),
        ends_on_failure(|l: Seq<ReplyView>| reorder_next(id, version, after, l), log, error, message),
        ends_on_failure(|l: Seq<ReplyView>| reorder_child_next(id, after, l), log, error, message),
        ends_on_failure(|l: Seq<ReplyView>| bump_next(id, version, l), log, error, message),
        ends_on_failure(|l: Seq<ReplyView>| node_exists_next(id, l), log, error, message),
{
    lemma_pushed(ReplyView::Refused { error });
    lemma_pushed(ReplyView::Failed { message });
}

/// Updates end with the first failure. That mentions cannot be brought in line is none.
pub proof fn law_updates_end_on_failure(
    id: Seq<char>,
    version: i64,
    update: NodeUpdateView,
    log: Seq<ReplyView>,
    error: ErrorView,
    message: Seq<char>,
)
    ensures
        ends_on_failure(|l: Seq<ReplyView>| update_next(id, version, update, l), log, error, message),
        ends_on_failure(|l: Seq<ReplyView>| update_unchecked_next(id, update, l), log, error, message),
        ends_on_failure(|l: Seq<ReplyView>| update_versioned_next(id, version, update, l), log, error, message),
        update_unchecked_next(id, update, log) matches StepView::Ask(
            RequestView::SyncMentions { id: _, old_content: _, new_content: _ },
        ) ==> update_unchecked_next(id, update, log.push(ReplyView::Refused { error })) is Finish,
        update_versioned_next(id, version, update, log) matches StepView::Ask(
            RequestView::SyncMentions { id: _, old_content: _, new_content: _ },
        ) ==> update_versioned_next(id, version, update, log.push(ReplyView::Refused { error })) is Finish,
{
    lemma_pushed(ReplyView::Refused { error });
    lemma_pushed(ReplyView::Failed { message });
}

/// Mentions end with the first failure. That the parent cannot be found is none.
pub proof fn law_mentions_end_on_failure(
    from: Seq<char>,
    to: Seq<char>,
    prefix: Seq<char>,
    log: Seq<ReplyView>,
    error: ErrorView,
    message: Seq<char>,
)
    ensures
        ends_on_failure(|l: Seq<ReplyView>| mention_next(from, to, MentionGuard::Root, l), log, error, message),
        ends_on_failure(|l: Seq<ReplyView>| mention_next(from, to, MentionGuard::Parent, l), log, error, message),
        ends_on_failure(|l: Seq<ReplyView>| unmention_next(from, to, prefix, l), log, error, message),
        mention_next(from, to, MentionGuard::Parent, log) == StepView::Ask(
            RequestView::GetParent { id: from },
        ) ==> mention_next(from, to, MentionGuard::Parent, log.push(ReplyView::Refused { error }))
            == StepView::Ask(RequestView::StoreMention { from, to }),
{
    lemma_pushed(ReplyView::Refused { error });
    lemma_pushed(ReplyView::Failed { message });
}

/// The creation and the deletion of an edge end with the first failure.
pub proof fn law_edges_end_on_failure(
    e: EdgeView,
    log: Seq<ReplyView>,
    error: ErrorView,
    message: Seq<char>,
)
    ensures
        ends_on_failure(|l: Seq<ReplyView>| relate_next(e, l), log, error, message),
        ends_on_failure(
            |l: Seq<ReplyView>| defined_next(e.source, e.name, FollowUp::Delete(e.target), l),
            log,
            error,
            message,
        ),
{
    lemma_pushed(ReplyView::Refused { error });
    lemma_pushed(ReplyView::Failed { message });
}

/// The reading of a node, the making of a date and the storing of a node under a parent end with the
/// first failure.
pub proof fn law_others_end_on_failure(
    id: Seq<char>,
    now: i64,
    u: UpsertView,
    log: Seq<ReplyView>,
    error: ErrorView,
    message: Seq<char>,
)
    ensures
        ends_on_failure(|l: Seq<ReplyView>| get_next(id, now, l), log, error, message),
        ends_on_failure(|l: Seq<ReplyView>| ensure_date_next(id, now, l), log, error, message),
        ends_on_failure(|l: Seq<ReplyView>| upsert_next(u, l), log, error, message),
{
    lemma_pushed(ReplyView::Refused { error });
    lemma_pushed(ReplyView::Failed { message });
}

/// A type whose title template cannot be found has none: the title is that of the content.
pub proof fn law_missing_templates_are_no_failure(
    node: NodeView,
    is_root: Option<bool>,
    error: ErrorView,
)
    ensures
        title_next(node, is_root, seq![ReplyView::Refused { error }]) == title_next(
            node,
            is_root,
            seq![ReplyView::MaybeText { text: None }],
        ),
{
    assert(seq![ReplyView::Refused { error }].skip(1) =~= seq![ReplyView::MaybeText { text: None }].skip(
        1,
    ));
}

/// An update of a node that has another version, or is gone, is a conflict, and names the version that
/// the node has; that of a node that is gone is zero.
pub proof fn law_conflicts_name_both_versions(
    id: Seq<char>,
    version: i64,
    update: NodeUpdateView,
    node: Option<NodeView>,
)
    requires
        !update.empty(),
    ensures
        update_next(id, version, update, seq![ReplyView::Node { node: None }]) == StepView::Ask(
            RequestView::LoadNode { id },
        ),
        update_next(
            id,
            version,
            update,
            seq![ReplyView::Node { node: None }, ReplyView::Node { node }],
        ) matches StepView::Fail(
            ErrorView::VersionConflict { node_id, expected_version, actual_version },
        ) && node_id == id && expected_version == version && (node is None ==> actual_version == 0) && (
        node is Some ==> actual_version == (node->0).version),
{
}

/// The request of a creation under a parent that may not be refused: all but those that look for the
/// sibling.
pub open spec fn creation_needs(request: RequestView) -> bool {
    ||| request is EnsureDate
    ||| request is NodeExists
    ||| request is GetChildren
    ||| request is ComputeTitle
    ||| request is CreateNode
    ||| request is CreateParentEdge
}

proof fn lemma_sibling_refused(
    params: CreateNodeParamsView,
    fresh: Seq<char>,
    now: i64,
    sibling: Seq<char>,
    attempts: nat,
    log: Seq<ReplyView>,
    error: ErrorView,
)
    ensures
        sibling_check_next(params, fresh, now, sibling, attempts, log) matches StepView::Ask(request)
            && creation_needs(request) ==> sibling_check_next(
            params,
            fresh,
            now,
            sibling,
            attempts,
            log.push(ReplyView::Refused { error }),
        ) == StepView::Fail(error),
    decreases log.len(),
{
    let more = log.push(ReplyView::Refused { error });
    lemma_pushed(ReplyView::Refused { error });
    if attempts > 0 && log.len() > 0 {
        assert(more[0] == log[0]);
        let fewer = (attempts - 1) as nat;
        let n: int = if log[0] matches ReplyView::Node { node: Some(_) } {
            2
        } else {
            1
        };
        if log.len() > n {
            assert(more.skip(1)[0] == log.skip(1)[0]);
            let pause = if n == 2 {
                log.skip(1).skip(1)
            } else {
                log.skip(1)
            };
            assert(pause.push(ReplyView::Refused { error })[0] == pause[0]);
            lemma_sibling_refused(params, fresh, now, sibling, fewer, pause.skip(1), error);
            assert(sibling_pause_next(params, fresh, now, sibling, attempts, pause) == (
            match pause[0] {
                ReplyView::Done => sibling_check_next(
                    params,
                    fresh,
                    now,
                    sibling,
                    fewer,
                    pause.skip(1),
                ),
                _ => StepView::Mismatch,
            }));
            let further = pause.push(ReplyView::Refused { error });
            assert(sibling_pause_next(params, fresh, now, sibling, attempts, further) == (
            match further[0] {
                ReplyView::Done => sibling_check_next(
                    params,
                    fresh,
                    now,
                    sibling,
                    fewer,
                    further.skip(1),
                ),
                _ => StepView::Mismatch,
            }));
        } else if n == 2 && log.len() == 2 {
            assert(more.skip(1)[0] == log.skip(1)[0]);
        }
    }
}

/// A creation under a parent ends with the first refusal. That the sibling cannot be found is none.
pub proof fn law_child_creations_end_on_failure(
    params: CreateNodeParamsView,
    fresh: Seq<char>,
    now: i64,
    log: Seq<ReplyView>,
    error: ErrorView,
)
    ensures
        create_with_parent_next(params, fresh, now, log) matches StepView::Ask(request)
            && creation_needs(request) ==> create_with_parent_next(
            params,
            fresh,
            now,
            log.push(ReplyView::Refused { error }),
        ) == StepView::Fail(error),
{
    lemma_pushed(ReplyView::Refused { error });
    if let Some(sibling) = params.insert_after_node_id {
        lemma_sibling_refused(params, fresh, now, sibling, SIBLING_ATTEMPTS as nat, log, error);
        lemma_sibling_refused(
            params,
            fresh,
            now,
            sibling,
            SIBLING_ATTEMPTS as nat,
            log.skip(1).skip(1),
            error,
        );
    }
}

proof fn lemma_children_refused(
    id: Seq<char>,
    version: i64,
    root: Option<Seq<char>>,
    children: Seq<NodeView>,
    log: Seq<ReplyView>,
    error: ErrorView,
    message: Seq<char>,
)
    ensures
        delete_children_next(id, version, root, children, log) matches StepView::Ask(request) ==> {
            &&& !(request is GetChildren)
            &&& request is DeleteNode ==> delete_children_next(
                id,
                version,
                root,
                children,
                log.push(ReplyView::Refused { error }),
            ) == StepView::Fail(error)
            &&& request is StoreVersionedDelete || request is LoadNode ==> delete_children_next(
                id,
                version,
                root,
                children,
                log.push(ReplyView::Failed { message }),
            ) is Fail
        },
    decreases children.len(),
{
    lemma_pushed(ReplyView::Refused { error });
    lemma_pushed(ReplyView::Failed { message });
    if children.len() > 0 && log.len() > 0 {
        lemma_children_refused(id, version, root, children.skip(1), log.skip(1), error, message);
        assert(log.push(ReplyView::Refused { error })[0] == log[0]);
        assert(log.push(ReplyView::Failed { message })[0] == log[0]);
    }
}

/// A deletion ends with the first failure: that a child cannot be deleted keeps its parent.
pub proof fn law_deletions_end_on_failure(
    id: Seq<char>,
    version: i64,
    log: Seq<ReplyView>,
    error: ErrorView,
    message: Seq<char>,
)
    ensures
        delete_next(id, version, log) matches StepView::Ask(request) ==> {
            &&& request is DeleteNode || request is GetChildren ==> delete_next(
                id,
                version,
                log.push(ReplyView::Refused { error }),
            ) == StepView::Fail(error)
            &&& request is StoreVersionedDelete || request is LoadNode ==> delete_next(
                id,
                version,
                log.push(ReplyView::Failed { message }),
            ) is Fail
        },
{
    lemma_pushed(ReplyView::Refused { error });
    lemma_pushed(ReplyView::Failed { message });
    if log.len() >= 3 {
        let rest = log.skip(1).skip(1).skip(1);
        let root = match log.skip(1)[0] {
            ReplyView::Text { text } => Some(text),
            _ => None,
        };
        if let ReplyView::Nodes { nodes } = log.skip(1).skip(1)[0] {
            lemma_children_refused(id, version, root, nodes, rest, error, message);
        }
    }
}

proof fn lemma_batch_refused(
    left: Seq<NodeView>,
    all: Seq<NodeView>,
    log: Seq<ReplyView>,
    error: ErrorView,
    message: Seq<char>,
)
    ensures
        bulk_behavior_next(left, all, log) matches StepView::Ask(request) ==> {
            &&& request is ValidateBehavior ==> bulk_behavior_next(
                left,
                all,
                log.push(ReplyView::Refused { error }),
            ) == StepView::Fail(error)
            &&& request is LoadSchema || request is StoreBatch ==> bulk_behavior_next(
                left,
                all,
                log.push(ReplyView::Failed { message }),
            ) is Fail
        },
    decreases left.len(),
{
    lemma_pushed(ReplyView::Refused { error });
    lemma_pushed(ReplyView::Failed { message });
    if left.len() > 0 && log.len() > 0 {
        let a = log.push(ReplyView::Refused { error });
        let b = log.push(ReplyView::Failed { message });
        let one = log.skip(1);
        assert(a[0] == log[0] && b[0] == log[0]);
        assert(bulk_behavior_next(left, all, log) == (match log[0] {
            ReplyView::Refused { error } => StepView::Fail(error),
            ReplyView::Done => bulk_schema_next(left, all, one),
            _ => StepView::Mismatch,
        }));
        assert(bulk_behavior_next(left, all, a) == (match log[0] {
            ReplyView::Refused { error } => StepView::Fail(error),
            ReplyView::Done => bulk_schema_next(left, all, a.skip(1)),
            _ => StepView::Mismatch,
        }));
        assert(bulk_behavior_next(left, all, b) == (match log[0] {
            ReplyView::Refused { error } => StepView::Fail(error),
            ReplyView::Done => bulk_schema_next(left, all, b.skip(1)),
            _ => StepView::Mismatch,
        }));
        if left[0].node_type == "schema"@ {
            lemma_batch_refused(left.skip(1), all, one, error, message);
        } else if one.len() > 0 {
            assert(a.skip(1)[0] == one[0] && b.skip(1)[0] == one[0]);
            lemma_batch_refused(left.skip(1), all, one.skip(1), error, message);
        }
    }
}

/// The creation of several nodes ends with the first failure.
pub proof fn law_batches_end_on_failure(
    nodes: Seq<NodeView>,
    log: Seq<ReplyView>,
    error: ErrorView,
    message: Seq<char>,
)
    ensures
        bulk_create_next(nodes, log) matches StepView::Ask(request) ==> {
            &&& request is ValidateBehavior ==> bulk_create_next(
                nodes,
                log.push(ReplyView::Refused { error }),
            ) == StepView::Fail(error)
            &&& request is LoadSchema || request is StoreBatch ==> bulk_create_next(
                nodes,
                log.push(ReplyView::Failed { message }),
            ) is Fail
        },
{
    lemma_batch_refused(nodes, nodes, log, error, message);
}

/// Once its parent is known the mentions of a node are brought in line whatever fails on the way.
pub proof fn law_mentions_are_brought_in_line(
    id: Seq<char>,
    adds: Seq<Seq<char>>,
    removes: Seq<Seq<char>>,
    log: Seq<ReplyView>,
)
    ensures
        !(sync_add_next(id, adds, removes, log) is Fail),
    decreases adds.len(), removes.len(),
{
    if adds.len() > 0 {
        let one = log.skip(1);
        let fewer = adds.skip(1);
        law_mentions_are_brought_in_line(id, fewer, removes, one);
        law_mentions_are_brought_in_line(id, fewer, removes, one.skip(1));
        if calendar_date(adds[0]) {
            if log.len() > 0 && (log[0] is Done || log[0] is Refused) {
                assert(sync_add_next(id, adds, removes, log) == sync_store_next(
                    id,
                    adds,
                    removes,
                    one,
                ));
            }
        } else {
            assert(sync_add_next(id, adds, removes, log) == sync_store_next(id, adds, removes, log));
        }
    } else if removes.len() > 0 {
        law_mentions_are_brought_in_line(id, adds, removes.skip(1), log.skip(1));
        assert(sync_add_next(id, adds, removes.skip(1), log.skip(1)) == sync_remove_next(
            id,
            removes.skip(1),
            log.skip(1),
        ));
    }
}

/// A search fails where the query cannot be embedded or either search fails. That a root which the
/// keywords found cannot be loaded is no failure.
pub proof fn law_searches_end_on_failure(
    query: Seq<char>,
    limit: usize,
    threshold: u64,
    message: Seq<char>,
    results: Seq<SearchHitView>,
    ids: Seq<Seq<char>>,
    i: nat,
    log: Seq<ReplyView>,
)
    ensures
        search_next(query, limit, threshold, seq![ReplyView::Failed { message }]) is Fail,
        search_next(
            query,
            limit,
            threshold,
            seq![ReplyView::Done, ReplyView::VectorSearchFailed { message }],
        ) is Fail,
        search_next(
            query,
            limit,
            threshold,
            seq![ReplyView::Done, ReplyView::KeywordSearchFailed { message }],
        ) is Fail,
        !(search_fill_next(results, ids, i, log) is Fail),
    decreases ids.len() - i,
{
    if i < ids.len() && log.len() > 0 {
        let more = match log[0] {
            ReplyView::Node { node: Some(node) } => results.push(keyword_hit(ids[i as int], node)),
            _ => results,
        };
        law_searches_end_on_failure(query, limit, threshold, message, more, ids, i + 1, log.skip(1));
    }
}

} // verus!
