//! What mentions and relationships promise.

use crate::error::ErrorView;
use crate::events::DomainEventView;
use crate::ids::calendar_date;
use crate::json::Json;
use crate::linking::{
    mention_next, mentions_to_add, mentions_to_remove, sync_add_next, sync_next, sync_remove_next,
    sync_store_next, unmention_next, MentionGuard,
};
use crate::node::{NodeView, RelationshipCardinality, SchemaRelationshipView};
use crate::protocol::{OutcomeView, ReplyView, RequestView, StepView};
use crate::relationships::{
    completeness_edges_next, completeness_next, defined_at, defined_next, get_related_next, inbound,
    inbound_of, is_builtin, law_completeness, related_nodes_next, relate_next, type_graph, EdgeView,
    FollowUp, SchemaSummaryView,
};
use crate::trace::{asked_at, lemma_asked_later, was_asked};
use vstd::prelude::*;

verus! {

/// A mention is owed between two nodes that are there, unless the one mentions itself or, by the one
/// way, its root, and by the other, its parent. It is stored from the one to the other; one that is new
/// is told of, one that was there is not.
pub proof fn law_mentions(
    from: Seq<char>,
    to: Seq<char>,
    root: Seq<char>,
    parent: NodeView,
    id: Seq<char>,
    log: Seq<ReplyView>,
)
    ensures
        from == to ==> mention_next(from, to, MentionGuard::Root, log) matches StepView::Fail(
            ErrorView::ValidationFailed(_),
        ),
        from == to ==> mention_next(from, to, MentionGuard::Parent, log) matches StepView::Fail(
            ErrorView::ValidationFailed(_),
        ),
        from != to ==> {
            let yes = ReplyView::Flag { value: true };
            let no = ReplyView::Flag { value: false };
            let two = seq![yes, yes];
            let rooted = two.push(ReplyView::Text { text: root });
            let placed = two.push(ReplyView::Node { node: Some(parent) });
            let store = StepView::Ask(RequestView::StoreMention { from, to });
            &&& mention_next(from, to, MentionGuard::Root, Seq::empty()) == StepView::Ask(
                RequestView::NodeExists { id: from },
            )
            &&& mention_next(from, to, MentionGuard::Root, seq![no]) == StepView::Fail(
                ErrorView::NodeNotFound { id: from },
            )
            &&& mention_next(from, to, MentionGuard::Root, seq![yes]) == StepView::Ask(
                RequestView::NodeExists { id: to },
            )
            &&& mention_next(from, to, MentionGuard::Root, seq![yes, no]) == StepView::Fail(
                ErrorView::NodeNotFound { id: to },
            )
            &&& mention_next(from, to, MentionGuard::Root, two) == StepView::Ask(
                RequestView::GetRoot { id: from },
            )
            &&& mention_next(from, to, MentionGuard::Parent, two) == StepView::Ask(
                RequestView::GetParent { id: from },
            )
            &&& root == to ==> (mention_next(from, to, MentionGuard::Root, rooted) matches StepView::Fail(
                ErrorView::ValidationFailed(_),
            ))
            &&& parent.id == to ==> (mention_next(from, to, MentionGuard::Parent, placed)
                matches StepView::Fail(ErrorView::ValidationFailed(_)))
            &&& root != to ==> {
                &&& mention_next(from, to, MentionGuard::Root, rooted) == store
                &&& mention_next(
                    from,
                    to,
                    MentionGuard::Root,
                    rooted.push(ReplyView::MaybeText { text: None }),
                ) == StepView::Finish(OutcomeView::Nothing)
                &&& is_mention_event(
                    mention_next(
                        from,
                        to,
                        MentionGuard::Root,
                        rooted.push(ReplyView::MaybeText { text: Some(id) }),
                    ),
                    from,
                    to,
                    id,
                )
                &&& mention_next(
                    from,
                    to,
                    MentionGuard::Root,
                    rooted.push(ReplyView::MaybeText { text: Some(id) }).push(ReplyView::Done),
                ) == StepView::Finish(OutcomeView::Nothing)
            }
            &&& parent.id != to ==> {
                &&& mention_next(from, to, MentionGuard::Parent, placed) == store
                &&& mention_next(
                    from,
                    to,
                    MentionGuard::Parent,
                    placed.push(ReplyView::MaybeText { text: None }),
                ) == StepView::Finish(OutcomeView::Nothing)
                &&& is_mention_event(
                    mention_next(
                        from,
                        to,
                        MentionGuard::Parent,
                        placed.push(ReplyView::MaybeText { text: Some(id) }),
                    ),
                    from,
                    to,
                    id,
                )
            }
            &&& mention_next(
                from,
                to,
                MentionGuard::Parent,
                two.push(ReplyView::Node { node: None }),
            ) == store
        },
{
}

/// The step tells of a new mention from the one node to the other.
pub open spec fn is_mention_event(
    step: StepView,
    from: Seq<char>,
    to: Seq<char>,
    id: Seq<char>,
) -> bool {
    step matches StepView::Ask(
        RequestView::Emit { event: DomainEventView::RelationshipCreated { relationship } },
    ) && relationship.id == id && relationship.from_id == from && relationship.to_id == to
        && relationship.relationship_type == "mentions"@
}

/// A mention that is stored ends well, and one that ends well was stored.
pub proof fn law_finished_mentions_were_stored(
    from: Seq<char>,
    to: Seq<char>,
    guard: MentionGuard,
    log: Seq<ReplyView>,
)
    requires
        mention_next(from, to, guard, log) is Finish,
    ensures
        log.len() >= 4,
        mention_next(from, to, guard, log.take(3)) == StepView::Ask(
            RequestView::StoreMention { from, to },
        ),
        log[3] is MaybeText,
{
    assert(log.take(3)[0] == log[0]);
    assert(log.take(3).skip(1)[0] == log[1]);
    assert(log.take(3).skip(1).skip(1)[0] == log[2]);
    assert(log.skip(1).skip(1)[0] == log[2]);
}

/// A mention is removed from the one node to the other; one that was there is told of.
pub proof fn law_removed_mentions(from: Seq<char>, to: Seq<char>, prefix: Seq<char>, id: Seq<char>)
    ensures
        unmention_next(from, to, prefix, Seq::empty()) == StepView::Ask(
            RequestView::StoreUnmention { from, to },
        ),
        unmention_next(from, to, prefix, seq![ReplyView::MaybeText { text: None }])
            == StepView::Finish(OutcomeView::Nothing),
        unmention_next(from, to, prefix, seq![ReplyView::MaybeText { text: Some(id) }])
            matches StepView::Ask(
            RequestView::Emit {
                event: DomainEventView::RelationshipDeleted {
                    id: i,
                    from_id,
                    to_id,
                    relationship_type,
                },
            },
        ) && i == id && from_id == from && to_id == to && relationship_type == "mentions"@,
        unmention_next(
            from,
            to,
            prefix,
            seq![ReplyView::MaybeText { text: Some(id) }, ReplyView::Done],
        ) == StepView::Finish(OutcomeView::Nothing),
{
}

/// The bringing in line of mentions, as a function of the replies.
pub open spec fn syncing(
    id: Seq<char>,
    old: Seq<Seq<char>>,
    new: Seq<Seq<char>>,
) -> spec_fn(Seq<ReplyView>) -> StepView {
    |l: Seq<ReplyView>| sync_next(id, old, new, l)
}

proof fn lemma_syncing(
    id: Seq<char>,
    adds: Seq<Seq<char>>,
    removes: Seq<Seq<char>>,
    log: Seq<ReplyView>,
    m: Seq<char>,
)
    requires
        sync_add_next(id, adds, removes, log) is Finish,
    ensures
        ({
            let op = |l: Seq<ReplyView>| sync_add_next(id, adds, removes, l);
            &&& adds.contains(m) ==> was_asked(
                op,
                log,
                RequestView::CreateMention { from: id, to: m },
            )
            &&& adds.contains(m) && calendar_date(m) ==> was_asked(
                op,
                log,
                RequestView::EnsureDate { id: m },
            )
            &&& removes.contains(m) ==> was_asked(
                op,
                log,
                RequestView::DeleteMention { from: id, to: m },
            )
        }),
    decreases adds.len(), removes.len(),
{
    let op = |l: Seq<ReplyView>| sync_add_next(id, adds, removes, l);
    let create = RequestView::CreateMention { from: id, to: m };
    let date = RequestView::EnsureDate { id: m };
    let delete = RequestView::DeleteMention { from: id, to: m };
    if adds.len() > 0 {
        let dated: int = if calendar_date(adds[0]) {
            1
        } else {
            0
        };
        let n = dated + 1;
        let rest = log.skip(n);
        let fewer = adds.skip(1);
        let inner = |l: Seq<ReplyView>| sync_add_next(id, fewer, removes, l);
        if dated == 1 {
            assert(log.skip(1).skip(1) =~= rest);
            assert(sync_add_next(id, adds, removes, log) == sync_store_next(
                id,
                adds,
                removes,
                log.skip(1),
            ));
        } else {
            assert(sync_add_next(id, adds, removes, log) == sync_store_next(id, adds, removes, log));
        }
        assert(sync_add_next(id, adds, removes, log) == sync_add_next(id, fewer, removes, rest));
        lemma_syncing(id, fewer, removes, rest, m);
        assert forall|k: int| n <= k <= log.len() implies #[trigger] op(log.take(k)) == inner(
            rest.take(k - n),
        ) by {
            let head = log.take(k);
            assert(head[0] == log[0]);
            if dated == 1 {
                assert(head.skip(1)[0] == log[1]);
                assert(log.skip(1)[0] == log[1]);
                assert(head.skip(1).skip(1) =~= rest.take(k - n));
                assert(sync_add_next(id, adds, removes, head) == sync_store_next(
                    id,
                    adds,
                    removes,
                    head.skip(1),
                ));
            } else {
                assert(head.skip(1) =~= rest.take(k - n));
                assert(sync_add_next(id, adds, removes, head) == sync_store_next(
                    id,
                    adds,
                    removes,
                    head,
                ));
            }
        }
        if adds[0] == m {
            if dated == 1 {
                assert(log.take(0).len() == 0);
                assert(asked_at(op, log, date, 0));
                assert(log.take(1)[0] == log[0]);
                assert(log.take(1).skip(1).len() == 0);
                assert(sync_add_next(id, adds, removes, log.take(1)) == sync_store_next(
                    id,
                    adds,
                    removes,
                    log.take(1).skip(1),
                ));
                assert(asked_at(op, log, create, 1));
            } else {
                assert(sync_add_next(id, adds, removes, log.take(0)) == sync_store_next(
                    id,
                    adds,
                    removes,
                    log.take(0),
                ));
                assert(asked_at(op, log, create, 0));
            }
        } else if adds.contains(m) {
            let i = choose|i: int| 0 <= i < adds.len() && adds[i] == m;
            assert(fewer[i - 1] == m);
        }
        lemma_asked_later(op, inner, log, n, create);
        lemma_asked_later(op, inner, log, n, date);
        lemma_asked_later(op, inner, log, n, delete);
    } else if removes.len() > 0 {
        let rest = log.skip(1);
        let fewer = removes.skip(1);
        let inner = |l: Seq<ReplyView>| sync_add_next(id, adds, fewer, l);
        assert(sync_add_next(id, adds, removes, log) == sync_remove_next(id, removes, log));
        assert(sync_add_next(id, adds, fewer, rest) == sync_remove_next(id, fewer, rest));
        lemma_syncing(id, adds, fewer, rest, m);
        assert forall|k: int| 1 <= k <= log.len() implies #[trigger] op(log.take(k)) == inner(
            rest.take(k - 1),
        ) by {
            let head = log.take(k);
            assert(head[0] == log[0]);
            assert(head.skip(1) =~= rest.take(k - 1));
            assert(sync_add_next(id, adds, removes, head) == sync_remove_next(id, removes, head));
        }
        if removes[0] == m {
            assert(sync_add_next(id, adds, removes, log.take(0)) == sync_remove_next(
                id,
                removes,
                log.take(0),
            ));
            assert(asked_at(op, log, delete, 0));
        } else if removes.contains(m) {
            let i = choose|i: int| 0 <= i < removes.len() && removes[i] == m;
            assert(fewer[i - 1] == m);
        }
        lemma_asked_later(op, inner, log, 1, delete);
    }
}

/// When the mentions of a node are brought in line with its new content, every mention that it gained
/// is stored, but for the node itself and its parent, a date is made sure of before; and every mention
/// that it lost is removed, but for the node itself.
pub proof fn law_mentions_follow_the_content(
    id: Seq<char>,
    old: Seq<Seq<char>>,
    new: Seq<Seq<char>>,
    parent: Option<Seq<char>>,
    log: Seq<ReplyView>,
    m: Seq<char>,
)
    requires
        sync_next(id, old, new, log) is Finish,
        log[0] == (ReplyView::MaybeText { text: parent }),
    ensures
        new.contains(m) && !old.contains(m) && m != id && parent != Some(m) ==> was_asked(
            syncing(id, old, new),
            log,
            RequestView::CreateMention { from: id, to: m },
        ),
        new.contains(m) && !old.contains(m) && m != id && parent != Some(m) && calendar_date(m)
            ==> was_asked(syncing(id, old, new), log, RequestView::EnsureDate { id: m }),
        old.contains(m) && !new.contains(m) && m != id ==> was_asked(
            syncing(id, old, new),
            log,
            RequestView::DeleteMention { from: id, to: m },
        ),
        asked_at(syncing(id, old, new), log, RequestView::LoadParentId { id }, 0),
{
    let adds = mentions_to_add(id, parent, old, new);
    let removes = mentions_to_remove(id, old, new);
    lemma_syncing(id, adds, removes, log.skip(1), m);
    let op = syncing(id, old, new);
    let inner = |l: Seq<ReplyView>| sync_add_next(id, adds, removes, l);
    assert forall|k: int| 1 <= k <= log.len() implies #[trigger] op(log.take(k)) == inner(
        log.skip(1).take(k - 1),
    ) by {
        assert(log.take(k)[0] == log[0]);
        assert(log.take(k).skip(1) =~= log.skip(1).take(k - 1));
    }
    lemma_asked_later(op, inner, log, 1, RequestView::CreateMention { from: id, to: m });
    lemma_asked_later(op, inner, log, 1, RequestView::EnsureDate { id: m });
    lemma_asked_later(op, inner, log, 1, RequestView::DeleteMention { from: id, to: m });
    assert(log.take(0).len() == 0);
    if new.contains(m) && !old.contains(m) && m != id && parent != Some(m) {
        let i = choose|i: int| 0 <= i < new.len() && new[i] == m;
        new.lemma_filter_contains(|x: Seq<char>| crate::linking::is_added(id, parent, old, x), i);
    }
    if old.contains(m) && !new.contains(m) && m != id {
        let i = choose|i: int| 0 <= i < old.len() && old[i] == m;
        old.lemma_filter_contains(|x: Seq<char>| crate::linking::is_removed(id, new, x), i);
    }
}

/// The relationships that every node has.
pub proof fn law_builtin_relationships(name: Seq<char>)
    ensures
        is_builtin(name) <==> name == "member_of"@ || name == "has_child"@ || name == "mentions"@,
{
}

/// The relationships with a name that a schema defines: the first of them counts.
pub proof fn law_the_first_definition_counts(defined: Seq<SchemaRelationshipView>, name: Seq<char>, i: int)
    ensures
        0 <= defined_at(defined, name) <= defined.len(),
        defined_at(defined, name) < defined.len() ==> defined[defined_at(defined, name)].name == name,
        0 <= i < defined.len() && defined[i].name == name ==> defined_at(defined, name) <= i,
    decreases defined.len(),
{
    if defined.len() > 0 {
        law_the_first_definition_counts(defined.drop_last(), name, i);
    }
}

/// An edge is stored from its source to its target under its name. What the caller gives for it is in
/// what is stored, a child has an order besides; a relationship that a schema defines takes the data as
/// they are.
pub proof fn law_edges_store_what_is_given(
    e: EdgeView,
    log: Seq<ReplyView>,
    source: Seq<char>,
    target: Seq<char>,
    name: Seq<char>,
    properties: Json,
    key: Seq<char>,
    value: Json,
)
    requires
        relate_next(e, log) == StepView::Ask(
            RequestView::Relate { source, target, relationship: name, properties },
        ),
    ensures
        source == e.source,
        target == e.target,
        name == e.name,
        !is_builtin(e.name) ==> properties == e.data,
        e.data.member(key) == Some(value) ==> properties.member(key) == Some(value),
        key != "order"@ || e.name != "has_child"@ ==> (properties.member(key) == Some(value)
            ==> e.data.member(key) == Some(value)),
        e.name == "has_child"@ ==> properties.member("order"@) is Some,
        e.name == "has_child"@ && e.data.member("order"@) is None ==> log.last() == (ReplyView::Order {
            order: properties.member("order"@)->0,
        }),
        log.contains(ReplyView::MaybeText { text: None }),
{
    if e.name == "has_child"@ && e.data.member("order"@) is None {
        assert(log.last() == log.skip(1).skip(1).skip(1)[0]) by {
            assert(log.len() == 4);
        }
    }
    if is_builtin(e.name) {
        assert(log[2] == log.skip(1).skip(1)[0]);
    } else {
        assert(log[3] == log.skip(1).skip(1).skip(1)[0]);
        if log.len() > 4 {
            assert(log[4] == log.skip(1).skip(1).skip(1).skip(1)[0]);
        }
    }
}

/// An edge is owed where nothing speaks against it, and one that is there already is left as it is.
pub proof fn law_edges_are_owed(
    e: EdgeView,
    source: NodeView,
    target: NodeView,
    defined: Seq<SchemaRelationshipView>,
    id: Seq<char>,
    order: Json,
)
    ensures
        e.name == "mentions"@ ==> {
            let two = seq![
                ReplyView::Node { node: Some(source) },
                ReplyView::Node { node: Some(target) },
            ];
            &&& relate_next(e, two) == StepView::Ask(
                RequestView::FindEdge { source: e.source, target: e.target, relationship: e.name },
            )
            &&& relate_next(e, two.push(ReplyView::MaybeText { text: Some(id) })) == StepView::Finish(
                OutcomeView::Nothing,
            )
            &&& (relate_next(e, two.push(ReplyView::MaybeText { text: None })) matches StepView::Ask(
                RequestView::Relate { source: _, target: _, relationship: _, properties: _ },
            ))
            &&& relate_next(
                e,
                two.push(ReplyView::MaybeText { text: None }).push(
                    ReplyView::MaybeText { text: Some(id) },
                ).push(ReplyView::Done),
            ) == StepView::Finish(OutcomeView::Nothing)
        },
        e.name == "member_of"@ && e.data.member("order"@) is None && target.node_type
            == "collection"@ ==> {
            let two = seq![
                ReplyView::Node { node: Some(source) },
                ReplyView::Node { node: Some(target) },
            ];
            let three = two.push(ReplyView::MaybeText { text: Some(id) });
            let four = three.push(ReplyView::MaybeOrder { order: Some(order) });
            &&& relate_next(e, two) == StepView::Ask(
                RequestView::AddToCollection { source: e.source, target: e.target },
            )
            &&& relate_next(e, three) == StepView::Ask(
                RequestView::LoadMemberOrder { source: e.source, target: e.target },
            )
            &&& (relate_next(e, four) matches StepView::Ask(
                RequestView::Emit { event: DomainEventView::RelationshipCreated { relationship } },
            ) && relationship.id == id && relationship.from_id == e.source && relationship.to_id
                == e.target && relationship.relationship_type == e.name
                && relationship.properties.member("order"@) == Some(order))
            &&& relate_next(e, four.push(ReplyView::Done)) == StepView::Finish(OutcomeView::Nothing)
        },
        !is_builtin(e.name) && defined_at(defined, e.name) < defined.len() && defined[defined_at(
            defined,
            e.name,
        )].target_type == Some(target.node_type) && defined[defined_at(defined, e.name)].cardinality
            != RelationshipCardinality::One ==> {
            let one = seq![ReplyView::Node { node: Some(source) }];
            let two = one.push(ReplyView::Relationships { relationships: Some(defined) });
            let three = two.push(ReplyView::Node { node: Some(target) });
            let four = three.push(ReplyView::MaybeText { text: None });
            let five = four.push(ReplyView::MaybeText { text: Some(id) });
            &&& relate_next(e, one) == StepView::Ask(
                RequestView::LoadRelationships { node_type: source.node_type },
            )
            &&& relate_next(e, two) == StepView::Ask(RequestView::GetNode { id: e.target })
            &&& relate_next(e, three) == StepView::Ask(
                RequestView::FindEdge { source: e.source, target: e.target, relationship: e.name },
            )
            &&& relate_next(e, four) == StepView::Ask(
                RequestView::Relate {
                    source: e.source,
                    target: e.target,
                    relationship: e.name,
                    properties: e.data,
                },
            )
            &&& (relate_next(e, five) matches StepView::Ask(
                RequestView::Emit { event: DomainEventView::RelationshipCreated { relationship } },
            ) && relationship.id == id && relationship.from_id == e.source && relationship.to_id
                == e.target && relationship.relationship_type == e.name && relationship.properties
                == e.data)
            &&& relate_next(e, five.push(ReplyView::Done)) == StepView::Finish(OutcomeView::Nothing)
        },
{
    law_the_first_definition_counts(defined, e.name, 0);
    reveal_strlit("member_of");
    reveal_strlit("has_child");
    reveal_strlit("mentions");
    assert("member_of"@[0] != "has_child"@[0]);
    assert("member_of"@.len() != "mentions"@.len());
    assert("has_child"@.len() != "mentions"@.len());
    let two = seq![ReplyView::Node { node: Some(source) }, ReplyView::Node { node: Some(target) }];
    let found = two.push(ReplyView::MaybeText { text: Some(id) });
    let none = two.push(ReplyView::MaybeText { text: None });
    let four = none.push(ReplyView::MaybeText { text: Some(id) }).push(ReplyView::Done);
    assert(found.skip(1).skip(1)[0] == found[2]);
    assert(none.skip(1).skip(1)[0] == none[2]);
    assert(four.skip(1).skip(1)[0] == four[2]);
    assert(four.skip(1).skip(1).skip(1)[0] == four[3]);
    assert(four.skip(1).skip(1).skip(1).skip(1)[0] == four[4]);
    let d1 = seq![ReplyView::Node { node: Some(source) }];
    let d2 = d1.push(ReplyView::Relationships { relationships: Some(defined) });
    let d3 = d2.push(ReplyView::Node { node: Some(target) });
    let d4 = d3.push(ReplyView::MaybeText { text: None });
    let d5 = d4.push(ReplyView::MaybeText { text: Some(id) });
    let d6 = d5.push(ReplyView::Done);
    assert(d3.skip(1).skip(1)[0] == d3[2]);
    assert(d4.skip(1).skip(1)[0] == d4[2]);
    assert(d5.skip(1).skip(1)[0] == d5[2]);
    assert(d6.skip(1).skip(1)[0] == d6[2]);
    assert(d4.skip(1).skip(1).skip(1)[0] == d4[3]);
    assert(d5.skip(1).skip(1).skip(1)[0] == d5[3]);
    assert(d6.skip(1).skip(1).skip(1)[0] == d6[3]);
    assert(d5.skip(1).skip(1).skip(1).skip(1)[0] == d5[4]);
    assert(d6.skip(1).skip(1).skip(1).skip(1)[0] == d6[4]);
    assert(d6.skip(1).skip(1).skip(1).skip(1).skip(1)[0] == d6[5]);
}

/// An edge that may not be is refused: from or to a node that is not there, as a member of something
/// that is no collection, of a relationship that no schema defines, to a target of another type, and a
/// second one where one is allowed.
pub proof fn law_bad_edges_are_refused(
    e: EdgeView,
    log: Seq<ReplyView>,
    source: NodeView,
    target: NodeView,
    defined: Seq<SchemaRelationshipView>,
    expected: Seq<char>,
)
    requires
        log.len() > 0,
    ensures
        log[0] == (ReplyView::Node { node: None }) ==> relate_next(e, log) == StepView::Fail(
            ErrorView::NodeNotFound { id: e.source },
        ),
        log[0] == (ReplyView::Node { node: Some(source) }) && log.len() > 1 ==> {
            &&& is_builtin(e.name) && log[1] == (ReplyView::Node { node: None }) ==> relate_next(e, log)
                == StepView::Fail(ErrorView::NodeNotFound { id: e.target })
            &&& e.name == "member_of"@ && log[1] == (ReplyView::Node { node: Some(target) })
                && target.node_type != "collection"@ ==> (relate_next(e, log) matches StepView::Fail(
                ErrorView::InvalidUpdate(_),
            ))
            &&& !is_builtin(e.name) && log[1] == (ReplyView::Relationships { relationships: None })
                ==> (relate_next(e, log) matches StepView::Fail(ErrorView::SchemaNotFound(_)))
            &&& !is_builtin(e.name) && log[1] == (ReplyView::Relationships {
                relationships: Some(defined),
            }) ==> {
                let at = defined_at(defined, e.name);
                &&& at >= defined.len() ==> (relate_next(e, log) matches StepView::Fail(
                    ErrorView::RelationshipNotFound(_),
                ))
                &&& at < defined.len() && log.len() > 2 && log[2] == (ReplyView::Node { node: None })
                    ==> relate_next(e, log) == StepView::Fail(ErrorView::NodeNotFound { id: e.target })
                &&& at < defined.len() && log.len() > 2 && log[2] == (ReplyView::Node {
                    node: Some(target),
                }) && defined[at].target_type == Some(expected) && target.node_type != expected
                    ==> (relate_next(e, log) matches StepView::Fail(ErrorView::TargetTypeMismatch(_)))
                &&& at < defined.len() && log.len() > 3 && log[2] == (ReplyView::Node {
                    node: Some(target),
                }) && (defined[at].target_type is None || defined[at].target_type == Some(
                    target.node_type,
                )) && defined[at].cardinality == RelationshipCardinality::One && log[3] == (
                ReplyView::Flag { value: true }) ==> (relate_next(e, log) matches StepView::Fail(
                    ErrorView::CardinalityViolation(_),
                ))
            }
        },
{
    assert(log.len() > 1 ==> log.skip(1)[0] == log[1]);
    assert(log.len() > 2 ==> log.skip(1).skip(1)[0] == log[2]);
    assert(log.len() > 3 ==> log.skip(1).skip(1).skip(1)[0] == log[3]);
}

/// An edge is deleted between these nodes under this name, whether it was there or not; one that was
/// there is told of. What its source or its schema does not know is refused.
pub proof fn law_deleted_edges(
    source: Seq<char>,
    name: Seq<char>,
    target: Seq<char>,
    node: NodeView,
    id: Seq<char>,
)
    ensures
        defined_next(
            source,
            name,
            FollowUp::Delete(target),
            seq![ReplyView::Node { node: None }],
        ) == StepView::Fail(ErrorView::NodeNotFound { id: source }),
        is_builtin(name) ==> {
            let one = seq![ReplyView::Node { node: Some(node) }];
            let none = one.push(ReplyView::MaybeText { text: None });
            let some = one.push(ReplyView::MaybeText { text: Some(id) });
            let delete = StepView::Ask(
                RequestView::DeleteEdge { source, target, relationship: name },
            );
            &&& defined_next(source, name, FollowUp::Delete(target), one) == StepView::Ask(
                RequestView::FindEdge { source, target, relationship: name },
            )
            &&& defined_next(source, name, FollowUp::Delete(target), none) == delete
            &&& defined_next(source, name, FollowUp::Delete(target), some) == delete
            &&& defined_next(
                source,
                name,
                FollowUp::Delete(target),
                none.push(ReplyView::Done),
            ) == StepView::Finish(OutcomeView::Nothing)
            &&& (defined_next(
                source,
                name,
                FollowUp::Delete(target),
                some.push(ReplyView::Done),
            ) matches StepView::Ask(
                RequestView::Emit {
                    event: DomainEventView::RelationshipDeleted {
                        id: i,
                        from_id,
                        to_id,
                        relationship_type,
                    },
                },
            ) && i == id && from_id == source && to_id == target && relationship_type == name)
            &&& defined_next(
                source,
                name,
                FollowUp::Delete(target),
                some.push(ReplyView::Done).push(ReplyView::Done),
            ) == StepView::Finish(OutcomeView::Nothing)
        },
        !is_builtin(name) ==> {
            let one = seq![ReplyView::Node { node: Some(node) }];
            &&& defined_next(source, name, FollowUp::Delete(target), one) == StepView::Ask(
                RequestView::LoadRelationships { node_type: node.node_type },
            )
            &&& (defined_next(
                source,
                name,
                FollowUp::Delete(target),
                one.push(ReplyView::Relationships { relationships: None }),
            ) matches StepView::Fail(ErrorView::SchemaNotFound(_)))
        },
{
}

proof fn lemma_related(
    ids: Seq<Seq<char>>,
    before: Seq<NodeView>,
    log: Seq<ReplyView>,
    found: Seq<NodeView>,
    i: int,
)
    requires
        related_nodes_next(ids, before, log) == StepView::Finish(OutcomeView::Nodes { nodes: found }),
    ensures
        log.len() >= ids.len(),
        before.len() <= found.len() <= before.len() + ids.len(),
        forall|k: int| 0 <= k < before.len() ==> #[trigger] found[k] == before[k],
        0 <= i < ids.len() ==> related_nodes_next(ids, before, log.take(i)) == StepView::Ask(
            RequestView::GetNode { id: ids[i] },
        ),
        0 <= i < ids.len() && log[i] is Node && log[i]->Node_node is Some ==> found.contains(
            log[i]->Node_node->0,
        ),
        before.len() <= i < found.len() ==> exists|k: int|
            0 <= k < ids.len() && #[trigger] log[k] == (ReplyView::Node { node: Some(found[i]) }),
    decreases ids.len(),
{
    if ids.len() > 0 {
        let rest = log.skip(1);
        let fewer = ids.skip(1);
        let more = match log[0] {
            ReplyView::Node { node: Some(node) } => before.push(node),
            _ => before,
        };
        lemma_related(fewer, more, rest, found, i - 1);
        lemma_related(fewer, more, rest, found, i);
        if 0 < i < ids.len() {
            assert(log.take(i)[0] == log[0]);
            assert(log.take(i).skip(1) =~= rest.take(i - 1));
            assert(rest[i - 1] == log[i]);
            assert(fewer[i - 1] == ids[i]);
        }
        if i == 0 {
            assert(log.take(0).len() == 0);
            if let ReplyView::Node { node: Some(node) } = log[0] {
                assert(found[before.len() as int] == more[before.len() as int]);
            }
        }
        assert forall|k: int| 0 <= k < before.len() implies #[trigger] found[k] == before[k] by {
            assert(found[k] == more[k]);
        }
        if before.len() <= i < found.len() {
            if i < more.len() {
                assert(found[i] == more[i]);
                assert(log[0] == (ReplyView::Node { node: Some(found[i]) }));
            } else {
                let k = choose|k: int|
                    0 <= k < fewer.len() && #[trigger] rest[k] == (ReplyView::Node {
                        node: Some(found[i]),
                    });
                assert(log[k + 1] == rest[k]);
            }
        }
    }
}

/// The nodes that are related to a node: those at the other ends of its edges of this name, outward or
/// inward as the caller says, as far as they are there.
pub proof fn law_related_nodes(
    id: Seq<char>,
    name: Seq<char>,
    node: NodeView,
    ids: Seq<Seq<char>>,
    tail: Seq<ReplyView>,
    found: Seq<NodeView>,
    i: int,
    direction: Seq<char>,
    log: Seq<ReplyView>,
)
    ensures
        get_related_next(id, name, "in"@, Seq::empty()) == StepView::Ask(
            RequestView::LoadRelated { id, relationship: name, outgoing: false },
        ),
        is_builtin(name) ==> get_related_next(
            id,
            name,
            "out"@,
            seq![ReplyView::Node { node: Some(node) }],
        ) == StepView::Ask(RequestView::LoadRelated { id, relationship: name, outgoing: true }),
        direction != "in"@ && direction != "out"@ ==> get_related_next(id, name, direction, log)
            matches StepView::Fail(ErrorView::InvalidUpdate(_)),
        get_related_next(id, name, "in"@, seq![ReplyView::Texts { items: ids }] + tail)
            == StepView::Finish(OutcomeView::Nodes { nodes: found }) ==> {
            &&& tail.len() >= ids.len()
            &&& 0 <= i < ids.len() ==> get_related_next(
                id,
                name,
                "in"@,
                seq![ReplyView::Texts { items: ids }] + tail.take(i),
            ) == StepView::Ask(RequestView::GetNode { id: ids[i] })
            &&& 0 <= i < ids.len() && tail[i] == (ReplyView::Node { node: Some(node) })
                ==> found.contains(node)
            &&& 0 <= i < found.len() ==> exists|k: int|
                0 <= k < ids.len() && #[trigger] tail[k] == (ReplyView::Node { node: Some(found[i]) })
        },
{
    reveal_strlit("in");
    reveal_strlit("out");
    assert("in"@.len() != "out"@.len());
    let head = seq![ReplyView::Texts { items: ids }];
    assert((head + tail).skip(1) =~= tail);
    if 0 <= i < ids.len() && i <= tail.len() {
        assert((head + tail.take(i)).skip(1) =~= tail.take(i));
    }
    if get_related_next(id, name, "in"@, head + tail) == StepView::Finish(
        OutcomeView::Nodes { nodes: found },
    ) {
        lemma_related(ids, Seq::empty(), tail, found, i);
    }
}

/// A required relationship of which there is no edge is missing.
pub proof fn law_what_is_required_and_absent_is_missing(
    id: Seq<char>,
    defined: Seq<SchemaRelationshipView>,
    missing: Seq<Seq<char>>,
    log: Seq<ReplyView>,
    result: crate::node::CompletenessResultView,
    i: int,
)
    requires
        completeness_edges_next(id, defined, missing, log) == StepView::Finish(
            OutcomeView::Completeness { result },
        ),
        0 <= i < defined.len(),
        defined[i].required == Some(true),
    ensures
        result.missing_relationships.contains(defined[i].name) || exists|k: int|
            0 <= k < log.len() && #[trigger] log[k] == (ReplyView::Flag { value: true })
                && completeness_edges_next(id, defined, missing, log.take(k)) == StepView::Ask(
                RequestView::HasEdge { source: id, relationship: defined[i].name },
            ),
    decreases defined.len(),
{
    let rest = defined.skip(1);
    if defined[0].required != Some(true) {
        law_what_is_required_and_absent_is_missing(id, rest, missing, log, result, i - 1);
        assert(rest[i - 1] == defined[i]);
        if !result.missing_relationships.contains(defined[i].name) {
            let k = choose|k: int|
                0 <= k < log.len() && #[trigger] log[k] == (ReplyView::Flag { value: true })
                    && completeness_edges_next(id, rest, missing, log.take(k)) == StepView::Ask(
                    RequestView::HasEdge { source: id, relationship: defined[i].name },
                );
            assert(completeness_edges_next(id, defined, missing, log.take(k))
                == completeness_edges_next(id, rest, missing, log.take(k)));
        }
    } else {
        let more = if log[0] == (ReplyView::Flag { value: true }) {
            missing
        } else {
            missing.push(defined[0].name)
        };
        if i == 0 {
            law_completeness(id, rest, more, result, log.skip(1));
            if log[0] != (ReplyView::Flag { value: true }) {
                assert(more[missing.len() as int] == defined[0].name);
                assert(result.missing_relationships.take(more.len() as int) =~= more);
                assert(result.missing_relationships[missing.len() as int] == defined[0].name);
            } else {
                assert(log.take(0).len() == 0);
            }
        } else {
            law_what_is_required_and_absent_is_missing(id, rest, more, log.skip(1), result, i - 1);
            assert(rest[i - 1] == defined[i]);
            if !result.missing_relationships.contains(defined[i].name) {
                let tail = log.skip(1);
                let k = choose|k: int|
                    0 <= k < tail.len() && #[trigger] tail[k] == (ReplyView::Flag { value: true })
                        && completeness_edges_next(id, rest, more, tail.take(k)) == StepView::Ask(
                        RequestView::HasEdge { source: id, relationship: defined[i].name },
                    );
                assert(log.take(k + 1)[0] == log[0]);
                assert(log.take(k + 1).skip(1) =~= tail.take(k));
                assert(log[k + 1] == tail[k]);
            }
        }
    }
}

/// Whether a node is complete is asked of the schema of its type; a type without one requires nothing.
pub proof fn law_completeness_is_asked_of_the_schema(id: Seq<char>, node: NodeView)
    ensures
        completeness_next(id, Seq::empty()) == StepView::Ask(RequestView::GetNode { id }),
        completeness_next(id, seq![ReplyView::Node { node: None }]) == StepView::Fail(
            ErrorView::NodeNotFound { id },
        ),
        completeness_next(id, seq![ReplyView::Node { node: Some(node) }]) == StepView::Ask(
            RequestView::LoadSchemaRelationships { node_type: node.node_type },
        ),
        completeness_next(
            id,
            seq![
                ReplyView::Node { node: Some(node) },
                ReplyView::Relationships { relationships: None },
            ],
        ) matches StepView::Finish(OutcomeView::Completeness { result }) && result.is_complete
            && result.node_id == id && result.missing_relationships.len() == 0,
{
}

proof fn lemma_inbound_of(
    id: Seq<char>,
    relationships: Seq<SchemaRelationshipView>,
    node_type: Seq<char>,
    pair: (Seq<char>, SchemaRelationshipView),
)
    ensures
        inbound_of(id, relationships, node_type).contains(pair) <==> pair.0 == id
            && relationships.contains(pair.1) && (pair.1.target_type is None || pair.1.target_type
            == Some(node_type)),
    decreases relationships.len(),
{
    if relationships.len() > 0 {
        let before = relationships.drop_last();
        lemma_inbound_of(id, before, node_type, pair);
        crate::sequences::lemma_push_contains(
            inbound_of(id, before, node_type),
            (id, relationships.last()),
        );
        crate::sequences::lemma_push_contains(before, relationships.last());
        assert(before.push(relationships.last()) =~= relationships);
    }
}

/// The relationships that may point to a type are those of all schemas that name the type or none.
pub proof fn law_inbound_relationships(
    schemas: Seq<SchemaSummaryView>,
    node_type: Seq<char>,
    pair: (Seq<char>, SchemaRelationshipView),
)
    ensures
        inbound(schemas, node_type).contains(pair) <==> exists|i: int|
            0 <= i < schemas.len() && (#[trigger] schemas[i]).id == pair.0
                && schemas[i].relationships.contains(pair.1) && (pair.1.target_type is None
                || pair.1.target_type == Some(node_type)),
    decreases schemas.len(),
{
    if schemas.len() > 0 {
        let before = schemas.drop_last();
        let last = schemas.last();
        law_inbound_relationships(before, node_type, pair);
        lemma_inbound_of(last.id, last.relationships, node_type, pair);
        let a = inbound(before, node_type);
        let b = inbound_of(last.id, last.relationships, node_type);
        lemma_concat_contains(a, b, pair);
        if inbound(schemas, node_type).contains(pair) {
            if a.contains(pair) {
                let i = choose|i: int|
                    0 <= i < before.len() && (#[trigger] before[i]).id == pair.0
                        && before[i].relationships.contains(pair.1) && (pair.1.target_type is None
                        || pair.1.target_type == Some(node_type));
                assert(schemas[i] == before[i]);
            } else {
                assert(schemas[schemas.len() - 1] == last);
            }
        }
        if exists|i: int|
            0 <= i < schemas.len() && (#[trigger] schemas[i]).id == pair.0
                && schemas[i].relationships.contains(pair.1) && (pair.1.target_type is None
                || pair.1.target_type == Some(node_type)) {
            let i = choose|i: int|
                0 <= i < schemas.len() && (#[trigger] schemas[i]).id == pair.0
                    && schemas[i].relationships.contains(pair.1) && (pair.1.target_type is None
                    || pair.1.target_type == Some(node_type));
            if i < before.len() {
                assert(before[i] == schemas[i]);
            }
        }
    }
}

proof fn lemma_concat_contains<T>(a: Seq<T>, b: Seq<T>, x: T)
    ensures
        (a + b).contains(x) <==> a.contains(x) || b.contains(x),
{
    let c = a + b;
    if a.contains(x) {
        let i = choose|i: int| 0 <= i < a.len() && a[i] == x;
        assert(c[i] == x);
    }
    if b.contains(x) {
        let i = choose|i: int| 0 <= i < b.len() && b[i] == x;
        assert(c[a.len() + i] == x);
    }
    if c.contains(x) {
        let i = choose|i: int| 0 <= i < c.len() && c[i] == x;
        if i < a.len() {
            assert(a[i] == x);
        } else {
            assert(b[i - a.len()] == x);
        }
    }
}

/// The graph of types has an edge for each relationship of each schema, from the schema to the type
/// that the relationship names.
pub proof fn law_graph_of_types(
    schemas: Seq<SchemaSummaryView>,
    i: int,
    k: int,
    edge: (Seq<char>, Seq<char>, Option<Seq<char>>),
)
    ensures
        0 <= i < schemas.len() && 0 <= k < schemas[i].relationships.len() ==> type_graph(
            schemas,
        ).contains(
            (
                schemas[i].id,
                schemas[i].relationships[k].name,
                schemas[i].relationships[k].target_type,
            ),
        ),
        type_graph(schemas).contains(edge) ==> exists|j: int, m: int|
            0 <= j < schemas.len() && 0 <= m < schemas[j].relationships.len() && edge == (
                schemas[j].id,
                (#[trigger] schemas[j].relationships[m]).name,
                schemas[j].relationships[m].target_type,
            ),
    decreases schemas.len(),
{
    if schemas.len() > 0 {
        let before = schemas.drop_last();
        let last = schemas.last();
        law_graph_of_types(before, i, k, edge);
        let a = type_graph(before);
        let b = crate::relationships::graph_of(last.id, last.relationships);
        lemma_concat_contains(a, b, edge);
        if 0 <= i < schemas.len() && 0 <= k < schemas[i].relationships.len() {
            let x = (
                schemas[i].id,
                schemas[i].relationships[k].name,
                schemas[i].relationships[k].target_type,
            );
            lemma_concat_contains(a, b, x);
            if i == before.len() {
                assert(b[k] == x);
            } else {
                assert(before[i] == schemas[i]);
            }
        }
        if type_graph(schemas).contains(edge) {
            if a.contains(edge) {
                let (j, m) = choose|j: int, m: int|
                    0 <= j < before.len() && 0 <= m < before[j].relationships.len() && edge == (
                        before[j].id,
                        (#[trigger] before[j].relationships[m]).name,
                        before[j].relationships[m].target_type,
                    );
                assert(schemas[j] == before[j]);
                assert(schemas[j].relationships[m] == before[j].relationships[m]);
            } else {
                let m = choose|m: int| 0 <= m < b.len() && b[m] == edge;
                assert(schemas[schemas.len() - 1].relationships[m] == last.relationships[m]);
            }
        }
    }
}

/// Where one edge of a relationship is allowed it is looked whether the source has one, and an edge that
/// is the first is stored.
pub proof fn law_single_edges_are_looked_for(
    e: EdgeView,
    source: NodeView,
    target: NodeView,
    defined: Seq<SchemaRelationshipView>,
)
    requires
        !is_builtin(e.name),
        defined_at(defined, e.name) < defined.len(),
        defined[defined_at(defined, e.name)].target_type is None,
        defined[defined_at(defined, e.name)].cardinality == RelationshipCardinality::One,
    ensures
        ({
            let three = seq![
                ReplyView::Node { node: Some(source) },
                ReplyView::Relationships { relationships: Some(defined) },
                ReplyView::Node { node: Some(target) },
            ];
            let five = three.push(ReplyView::Flag { value: false }).push(
                ReplyView::MaybeText { text: None },
            );
            &&& relate_next(e, three) == StepView::Ask(
                RequestView::HasEdge { source: e.source, relationship: e.name },
            )
            &&& relate_next(e, five) == StepView::Ask(
                RequestView::Relate {
                    source: e.source,
                    target: e.target,
                    relationship: e.name,
                    properties: e.data,
                },
            )
        }),
{
    law_the_first_definition_counts(defined, e.name, 0);
    let three = seq![
        ReplyView::Node { node: Some(source) },
        ReplyView::Relationships { relationships: Some(defined) },
        ReplyView::Node { node: Some(target) },
    ];
    let five = three.push(ReplyView::Flag { value: false }).push(ReplyView::MaybeText { text: None });
    assert(three.skip(1).skip(1)[0] == three[2]);
    assert(five.skip(1).skip(1)[0] == five[2]);
    assert(five.skip(1).skip(1).skip(1)[0] == five[3]);
    assert(five.skip(1).skip(1).skip(1).skip(1)[0] == five[4]);
}

} // verus!
