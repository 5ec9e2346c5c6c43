//! What the creation of nodes promises.

use crate::create::{
    create_next, create_with_parent_next, ensure_date_next, new_id, sibling_check_next,
    sibling_hint_next, sibling_pause_next, title_next, CreateNodeParamsView, SIBLING_ATTEMPTS,
};
use crate::error::ErrorView;
use crate::ids::{calendar_date, schema_id, uuid_text};
use crate::json::Json;
use crate::node::{NodeView, SchemaFieldView};
use crate::properties::{field_names, namespaced, properties_with_defaults};
use crate::property_laws::{
    gives, gives_namespace, has_field, law_defaults_are_filled_in, law_integers_keep_their_value,
    law_storage_form, law_versions_are_noted,
};
use crate::protocol::{OutcomeView, ReplyView, RequestView, StepView};
use crate::schema::integer;
use crate::trace::{asked_at, was_asked};
use vstd::prelude::*;

verus! {

/// The creation of a node under a parent, as a function of the replies.
pub open spec fn creating_child(
    params: CreateNodeParamsView,
    fresh: Seq<char>,
    now: i64,
) -> spec_fn(Seq<ReplyView>) -> StepView {
    |l: Seq<ReplyView>| create_with_parent_next(params, fresh, now, l)
}

/// The replies from position `k` on say that the sibling is there and lies under the parent.
pub open spec fn lies_under(parent: Option<Seq<char>>, log: Seq<ReplyView>, k: int) -> bool {
    &&& 0 <= k && k + 1 < log.len()
    &&& log[k] matches ReplyView::Node { node: Some(_) }
    &&& log[k + 1] matches ReplyView::Node { node: found } && (match found {
        Some(p) => Some(p.id),
        None => None,
    }) == parent
}

/// The last of some children, if there is one.
pub open spec fn last_of(children: Seq<NodeView>) -> Option<Seq<char>> {
    if children.len() > 0 {
        Some(children[children.len() - 1].id)
    } else {
        None
    }
}

proof fn lemma_hint(
    params: CreateNodeParamsView,
    fresh: Seq<char>,
    now: i64,
    sibling: Seq<char>,
    attempts: nat,
    log: Seq<ReplyView>,
    child: Seq<char>,
    parent: Seq<char>,
    after: Option<Seq<char>>,
    k: int,
    children: Seq<NodeView>,
)
    requires
        sibling_check_next(params, fresh, now, sibling, attempts, log) == StepView::Ask(
            RequestView::CreateParentEdge { child, parent, after },
        ),
    ensures
        params.parent_id == Some(parent),
        ({
            let op = |l: Seq<ReplyView>|
                sibling_check_next(params, fresh, now, sibling, attempts, l);
            &&& asked_at(op, log, RequestView::GetNode { id: sibling }, k) && lies_under(
                params.parent_id,
                log,
                k,
            ) ==> after == Some(sibling)
            &&& asked_at(op, log, RequestView::GetChildren { id: parent }, k) && log[k] == (
            ReplyView::Nodes { nodes: children }) ==> after == last_of(children)
            &&& after == Some(sibling) || was_asked(
                op,
                log,
                RequestView::GetChildren { id: parent },
            )
        }),
        log.len() >= 2,
        log.last() == (ReplyView::Text { text: child }),
        sibling_check_next(params, fresh, now, sibling, attempts, log.drop_last()) matches StepView::Ask(
            RequestView::CreateNode { node },
        ) && is_new_node(params, fresh, now, node, log[log.len() - 2]),
    decreases log.len(),
{
    let op = |l: Seq<ReplyView>| sibling_check_next(params, fresh, now, sibling, attempts, l);
    if attempts == 0 {
        assert(op(log.take(0)) == StepView::Ask(RequestView::GetChildren { id: parent }));
        assert(asked_at(op, log, RequestView::GetChildren { id: parent }, 0));
        assert(log.drop_last().skip(1) =~= log.skip(1).drop_last());
    } else {
        let one = log.skip(1);
        let two = one.skip(1);
        let fewer = (attempts - 1) as nat;
        let last = log.drop_last();
        if lies_under(params.parent_id, log, 0) {
            assert(last.skip(1).skip(1) =~= two.drop_last());
            assert(sibling_check_next(params, fresh, now, sibling, attempts, log)
                == crate::create::new_node_next(params, fresh, now, Some(sibling), two));
        } else {
            let n: int = if log[0] matches ReplyView::Node { node: Some(_) } {
                3
            } else {
                2
            };
            let rest = log.skip(n);
            if n == 2 {
                assert(two =~= rest);
                assert(sibling_check_next(params, fresh, now, sibling, attempts, log)
                    == sibling_pause_next(params, fresh, now, sibling, attempts, one));
            } else {
                assert(two.skip(1) =~= rest);
                assert(sibling_check_next(params, fresh, now, sibling, attempts, log)
                    == sibling_pause_next(params, fresh, now, sibling, attempts, two));
            }
            assert(sibling_check_next(params, fresh, now, sibling, attempts, log)
                == sibling_check_next(params, fresh, now, sibling, fewer, rest));
            lemma_hint(
                params,
                fresh,
                now,
                sibling,
                fewer,
                rest,
                child,
                parent,
                after,
                k - n,
                children,
            );
            let inner = |l: Seq<ReplyView>| sibling_check_next(params, fresh, now, sibling, fewer, l);
            assert forall|m: int| n <= m <= log.len() implies #[trigger] op(log.take(m)) == inner(
                rest.take(m - n),
            ) by {
                let head = log.take(m);
                assert(head[0] == log[0]);
                assert(head.skip(1)[0] == one[0]);
                if n == 2 {
                    assert(head.skip(1).skip(1) =~= rest.take(m - n));
                    assert(sibling_check_next(params, fresh, now, sibling, attempts, head)
                        == sibling_pause_next(params, fresh, now, sibling, attempts, head.skip(1)));
                } else {
                    assert(head.skip(1).skip(1)[0] == two[0]);
                    assert(head.skip(1).skip(1).skip(1) =~= rest.take(m - n));
                    assert(sibling_check_next(params, fresh, now, sibling, attempts, head)
                        == sibling_pause_next(
                        params,
                        fresh,
                        now,
                        sibling,
                        attempts,
                        head.skip(1).skip(1),
                    ));
                }
            }
            assert(log.drop_last() =~= log.take(log.len() - 1));
            assert(rest.drop_last() =~= rest.take(rest.len() - 1));
            assert(op(log.take(log.len() - 1)) == inner(rest.take(log.len() - 1 - n)));
            if 0 <= k < n {
                assert(log.take(k).len() == k);
                if k == 1 {
                    assert(log.take(1)[0] == log[0]);
                    assert(log.take(1).skip(1).len() == 0);
                } else if k == 2 {
                    assert(log.take(2)[0] == log[0]);
                    assert(log.take(2).skip(1)[0] == one[0]);
                    assert(log.take(2).skip(1).skip(1).len() == 0);
                }
            } else if k >= n && k < log.len() {
                assert(op(log.take(k)) == inner(rest.take(k - n)));
            }
            let q = RequestView::GetChildren { id: parent };
            if was_asked(inner, rest, q) {
                let m = choose|m: int| #[trigger] asked_at(inner, rest, q, m);
                assert(op(log.take(m + n)) == inner(rest.take(m)));
                assert(asked_at(op, log, q, m + n));
            }
        }
    }
}

/// The node that is created for some parameters: what they say, under the identifier of new nodes,
/// active, in its first version, and with the title that was answered.
pub open spec fn is_new_node(
    params: CreateNodeParamsView,
    fresh: Seq<char>,
    now: i64,
    node: NodeView,
    titled: ReplyView,
) -> bool {
    &&& new_id(params, fresh) == Ok::<Seq<char>, ErrorView>(node.id)
    &&& node.node_type == params.node_type
    &&& node.content == params.content
    &&& node.properties == params.properties
    &&& node.version == 1
    &&& node.created_at == now
    &&& node.modified_at == now
    &&& node.mentions.len() == 0
    &&& node.mentioned_in.len() == 0
    &&& node.lifecycle_status == "active"@
    &&& titled == (ReplyView::MaybeText { text: node.title })
}

/// A new child goes where the caller put it. The sibling that is named, once it was found under the
/// parent, is the one after which the child comes.
pub proof fn law_a_found_sibling_is_the_place(
    params: CreateNodeParamsView,
    fresh: Seq<char>,
    now: i64,
    sibling: Seq<char>,
    log: Seq<ReplyView>,
    k: int,
    child: Seq<char>,
    parent: Seq<char>,
    after: Option<Seq<char>>,
)
    requires
        params.insert_after_node_id == Some(sibling),
        asked_at(
            creating_child(params, fresh, now),
            log,
            RequestView::GetNode { id: sibling },
            k,
        ),
        lies_under(params.parent_id, log, k),
        create_with_parent_next(params, fresh, now, log) == StepView::Ask(
            RequestView::CreateParentEdge { child, parent, after },
        ),
    ensures
        after == Some(sibling),
        params.parent_id == Some(parent),
{
    lemma_edge(params, fresh, now, log, child, parent, after, k, Seq::empty());
}

/// Without a sibling the child becomes the first. Where a sibling was named and is not the place, the
/// children of the parent were asked for, and the child comes after the last of them.
pub proof fn law_other_children_come_first_or_last(
    params: CreateNodeParamsView,
    fresh: Seq<char>,
    now: i64,
    log: Seq<ReplyView>,
    k: int,
    children: Seq<NodeView>,
    child: Seq<char>,
    parent: Seq<char>,
    after: Option<Seq<char>>,
)
    requires
        create_with_parent_next(params, fresh, now, log) == StepView::Ask(
            RequestView::CreateParentEdge { child, parent, after },
        ),
    ensures
        params.insert_after_node_id is None ==> after is None,
        asked_at(
            creating_child(params, fresh, now),
            log,
            RequestView::GetChildren { id: parent },
            k,
        ) && log[k] == (ReplyView::Nodes { nodes: children }) ==> after == last_of(children),
        params.insert_after_node_id is Some ==> after == params.insert_after_node_id || was_asked(
            creating_child(params, fresh, now),
            log,
            RequestView::GetChildren { id: parent },
        ),
{
    lemma_edge(params, fresh, now, log, child, parent, after, k, children);
}

/// What is put under the parent is the node that was created a moment ago, and it was created as the
/// caller described it, under a parent that is there.
pub proof fn law_the_new_node_is_the_child(
    params: CreateNodeParamsView,
    fresh: Seq<char>,
    now: i64,
    log: Seq<ReplyView>,
    child: Seq<char>,
    parent: Seq<char>,
    after: Option<Seq<char>>,
)
    requires
        create_with_parent_next(params, fresh, now, log) == StepView::Ask(
            RequestView::CreateParentEdge { child, parent, after },
        ),
    ensures
        params.parent_id == Some(parent),
        log.len() >= 4,
        create_with_parent_next(params, fresh, now, log.take(0)) == StepView::Ask(
            RequestView::EnsureDate { id: parent },
        ),
        create_with_parent_next(params, fresh, now, log.take(1)) == StepView::Ask(
            RequestView::NodeExists { id: parent },
        ),
        log[0] == ReplyView::Done,
        log[1] == (ReplyView::Flag { value: true }),
        log.last() == (ReplyView::Text { text: child }),
        create_with_parent_next(params, fresh, now, log.drop_last()) matches StepView::Ask(
            RequestView::CreateNode { node },
        ) && is_new_node(params, fresh, now, node, log[log.len() - 2]),
{
    lemma_edge(params, fresh, now, log, child, parent, after, 0, Seq::empty());
}

proof fn lemma_edge(
    params: CreateNodeParamsView,
    fresh: Seq<char>,
    now: i64,
    log: Seq<ReplyView>,
    child: Seq<char>,
    parent: Seq<char>,
    after: Option<Seq<char>>,
    k: int,
    children: Seq<NodeView>,
)
    requires
        create_with_parent_next(params, fresh, now, log) == StepView::Ask(
            RequestView::CreateParentEdge { child, parent, after },
        ),
    ensures
        params.parent_id == Some(parent),
        params.insert_after_node_id is None ==> after is None,
        params.insert_after_node_id matches Some(sibling) ==> {
            let op = creating_child(params, fresh, now);
            &&& asked_at(op, log, RequestView::GetNode { id: sibling }, k) && lies_under(
                params.parent_id,
                log,
                k,
            ) ==> after == Some(sibling)
            &&& after == Some(sibling) || was_asked(
                op,
                log,
                RequestView::GetChildren { id: parent },
            )
        },
        asked_at(
            creating_child(params, fresh, now),
            log,
            RequestView::GetChildren { id: parent },
            k,
        ) && log[k] == (ReplyView::Nodes { nodes: children }) ==> after == last_of(children),
        log.len() >= 4,
        log.last() == (ReplyView::Text { text: child }),
        create_with_parent_next(params, fresh, now, log.drop_last()) matches StepView::Ask(
            RequestView::CreateNode { node },
        ) && is_new_node(params, fresh, now, node, log[log.len() - 2]),
{
    let op = creating_child(params, fresh, now);
    let rest = log.skip(2);
    if params.parent_id is None && params.insert_after_node_id is Some {
        lemma_hint(
            params,
            fresh,
            now,
            params.insert_after_node_id->0,
            SIBLING_ATTEMPTS as nat,
            log,
            child,
            parent,
            after,
            k,
            children,
        );
    }
    assert(params.parent_id is Some);
    if params.insert_after_node_id is Some {
        lemma_hint(
            params,
            fresh,
            now,
            params.insert_after_node_id->0,
            SIBLING_ATTEMPTS as nat,
            log.skip(1).skip(1),
            child,
            parent,
            after,
            k,
            children,
        );
    }
    assert(params.parent_id == Some(parent));
    assert(log.len() >= 2);
    assert(log.skip(1).skip(1) =~= rest);
    let inner = |l: Seq<ReplyView>| sibling_hint_next(params, fresh, now, l);
    assert forall|m: int| 2 <= m <= log.len() implies #[trigger] op(log.take(m)) == inner(
        rest.take(m - 2),
    ) by {
        let head = log.take(m);
        assert(head[0] == log[0]);
        assert(head.skip(1)[0] == log.skip(1)[0]);
        assert(head.skip(1).skip(1) =~= rest.take(m - 2));
    }
    assert(op(log.take(0)) == StepView::Ask(RequestView::EnsureDate { id: parent }));
    assert(op(log.take(1)) == StepView::Ask(RequestView::NodeExists { id: parent })) by {
        assert(log.take(1)[0] == log[0]);
    }
    match params.insert_after_node_id {
        None => {
            assert(log.drop_last() =~= log.take(log.len() - 1));
            assert(rest.drop_last() =~= rest.take(rest.len() - 1));
            assert(op(log.take(log.len() - 1)) == inner(rest.take(log.len() - 1 - 2)));
            if 2 <= k < log.len() {
                assert(op(log.take(k)) == inner(rest.take(k - 2)));
            }
        },
        Some(sibling) => {
            let checks = |l: Seq<ReplyView>|
                sibling_check_next(params, fresh, now, sibling, SIBLING_ATTEMPTS as nat, l);
            lemma_hint(
                params,
                fresh,
                now,
                sibling,
                SIBLING_ATTEMPTS as nat,
                rest,
                child,
                parent,
                after,
                k - 2,
                children,
            );
            assert(log.drop_last() =~= log.take(log.len() - 1));
            assert(rest.drop_last() =~= rest.take(rest.len() - 1));
            assert(op(log.take(log.len() - 1)) == inner(rest.take(log.len() - 1 - 2)));
            if 2 <= k < log.len() {
                assert(op(log.take(k)) == inner(rest.take(k - 2)));
            }
            let q = RequestView::GetChildren { id: parent };
            if was_asked(checks, rest, q) {
                let m = choose|m: int| #[trigger] asked_at(checks, rest, q, m);
                assert(op(log.take(m + 2)) == inner(rest.take(m)));
                assert(asked_at(op, log, q, m + 2));
            }
        },
    }
}

/// The identifier of a new node: the one that is given, if it may be; otherwise a date is named by its
/// content, a schema after its name, and any other node gets the fresh one.
pub proof fn law_new_identifiers(params: CreateNodeParamsView, fresh: Seq<char>)
    ensures
        params.id matches Some(id) ==> (new_id(params, fresh) == Ok::<Seq<char>, ErrorView>(id) <==> (
        params.node_type == "date"@ || params.node_type == "schema"@ || uuid_text(id) || (id.len() >= 5
            && id[0] == 't' && id[1] == 'e' && id[2] == 's' && id[3] == 't' && id[4] == '-'))),
        params.id is Some ==> new_id(params, fresh) == Ok::<Seq<char>, ErrorView>(params.id->0) || (
        new_id(params, fresh) matches Err(ErrorView::InvalidOperation(_))),
        params.id is None && params.node_type == "date"@ ==> new_id(params, fresh) == Ok::<
            Seq<char>,
            ErrorView,
        >(params.content),
        params.id is None && params.node_type == "schema"@ ==> (if schema_id(params.content).len()
            > 0 {
            new_id(params, fresh) == Ok::<Seq<char>, ErrorView>(schema_id(params.content))
        } else {
            new_id(params, fresh) matches Err(ErrorView::InvalidUpdate(_))
        }),
        params.id is None && params.node_type != "date"@ && params.node_type != "schema"@ ==> new_id(
            params,
            fresh,
        ) == Ok::<Seq<char>, ErrorView>(fresh),
{
    reveal_strlit("test-");
    reveal_strlit("date");
    reveal_strlit("schema");
    assert("date"@.len() != "schema"@.len());
    if let Some(id) = params.id {
        if id.len() >= 5 && id[0] == 't' && id[1] == 'e' && id[2] == 's' && id[3] == 't' && id[4]
            == '-' {
            assert("test-"@ =~= id.subrange(0, 5));
        }
        if "test-"@.is_prefix_of(id) {
            assert forall|i: int| 0 <= i < 5 implies #[trigger] id[i] == "test-"@[i] by {
                assert(id.subrange(0, 5)[i] == id[i]);
            }
        }
    }
}

/// A creation is owed where nothing speaks against it. Under a parent: the parent is made sure of, the
/// sibling is looked at, the title is computed as that of no root, the node is created, put in its
/// place, and the root above it queued.
pub proof fn law_children_are_owed(
    params: CreateNodeParamsView,
    fresh: Seq<char>,
    now: i64,
    id: Seq<char>,
    parent: NodeView,
    sibling: NodeView,
    title: Option<Seq<char>>,
)
    requires
        new_id(params, fresh) == Ok::<Seq<char>, ErrorView>(id),
        params.parent_id == Some(parent.id),
        params.insert_after_node_id == Some(sibling.id),
    ensures
        ({
            let two = seq![ReplyView::Done, ReplyView::Flag { value: true }];
            let four = two + seq![
                ReplyView::Node { node: Some(sibling) },
                ReplyView::Node { node: Some(parent) },
            ];
            let five = four.push(ReplyView::MaybeText { text: title });
            let six = five.push(ReplyView::Text { text: id });
            let seven = six.push(ReplyView::Done);
            &&& create_with_parent_next(params, fresh, now, two) == StepView::Ask(
                RequestView::GetNode { id: sibling.id },
            )
            &&& create_with_parent_next(params, fresh, now, four) matches StepView::Ask(
                RequestView::ComputeTitle { node, is_root: Some(false) },
            ) && node.id == id && node.node_type == params.node_type && node.content == params.content
            &&& create_with_parent_next(params, fresh, now, five) matches StepView::Ask(
                RequestView::CreateNode { node },
            ) && is_new_node(params, fresh, now, node, ReplyView::MaybeText { text: title })
            &&& create_with_parent_next(params, fresh, now, six) == StepView::Ask(
                RequestView::CreateParentEdge {
                    child: id,
                    parent: parent.id,
                    after: Some(sibling.id),
                },
            )
            &&& create_with_parent_next(params, fresh, now, seven) == StepView::Ask(
                RequestView::QueueRoot { id },
            )
            &&& create_with_parent_next(params, fresh, now, seven.push(ReplyView::Done))
                == StepView::Finish(OutcomeView::Id { id })
        }),
{
    reveal_with_fuel(sibling_check_next, 2);
    let two = seq![ReplyView::Done, ReplyView::Flag { value: true }];
    let four = two + seq![
        ReplyView::Node { node: Some(sibling) },
        ReplyView::Node { node: Some(parent) },
    ];
    let five = four.push(ReplyView::MaybeText { text: title });
    let six = five.push(ReplyView::Text { text: id });
    let seven = six.push(ReplyView::Done);
    let eight = seven.push(ReplyView::Done);
    assert(two.skip(1).skip(1) =~= Seq::empty());
    assert(four.skip(1).skip(1).skip(1).skip(1) =~= Seq::empty());
    assert(four.skip(1).skip(1)[0] == four[2]);
    assert(five.skip(1).skip(1)[0] == four[2]);
    assert(six.skip(1).skip(1)[0] == four[2]);
    assert(seven.skip(1).skip(1)[0] == four[2]);
    assert(eight.skip(1).skip(1)[0] == four[2]);
    assert(four.skip(1).skip(1).skip(1)[0] == four[3]);
    assert(five.skip(1).skip(1).skip(1)[0] == four[3]);
    assert(six.skip(1).skip(1).skip(1)[0] == four[3]);
    assert(seven.skip(1).skip(1).skip(1)[0] == four[3]);
    assert(eight.skip(1).skip(1).skip(1)[0] == four[3]);
}

/// Without a sibling, a child is owed in the same way and becomes the first.
pub proof fn law_first_children_are_owed(
    params: CreateNodeParamsView,
    fresh: Seq<char>,
    now: i64,
    id: Seq<char>,
    parent: Seq<char>,
    title: Option<Seq<char>>,
)
    requires
        new_id(params, fresh) == Ok::<Seq<char>, ErrorView>(id),
        params.parent_id == Some(parent),
        params.insert_after_node_id is None,
    ensures
        ({
            let four = seq![
                ReplyView::Done,
                ReplyView::Flag { value: true },
                ReplyView::MaybeText { text: title },
                ReplyView::Text { text: id },
            ];
            &&& create_with_parent_next(params, fresh, now, four) == StepView::Ask(
                RequestView::CreateParentEdge { child: id, parent, after: None },
            )
            &&& create_with_parent_next(params, fresh, now, four.push(ReplyView::Done))
                == StepView::Ask(RequestView::QueueRoot { id })
            &&& create_with_parent_next(
                params,
                fresh,
                now,
                four.push(ReplyView::Done).push(ReplyView::Done),
            ) == StepView::Finish(OutcomeView::Id { id })
        }),
{
}

/// A root is owed: its title is computed as that of a root, it is created, and a root whose type can
/// be embedded is marked for it. A marker that cannot be stored does not matter.
pub proof fn law_roots_are_owed(
    params: CreateNodeParamsView,
    fresh: Seq<char>,
    now: i64,
    id: Seq<char>,
    title: Option<Seq<char>>,
    message: Seq<char>,
)
    requires
        new_id(params, fresh) == Ok::<Seq<char>, ErrorView>(id),
        params.parent_id is None,
        params.insert_after_node_id is None,
    ensures
        ({
            let one = seq![ReplyView::MaybeText { text: title }];
            let two = one.push(ReplyView::Text { text: id });
            let yes = two.push(ReplyView::Flag { value: true });
            &&& create_with_parent_next(params, fresh, now, Seq::empty()) matches StepView::Ask(
                RequestView::ComputeTitle { node, is_root: Some(true) },
            ) && node.id == id && node.node_type == params.node_type && node.content == params.content
            &&& create_with_parent_next(params, fresh, now, one) matches StepView::Ask(
                RequestView::CreateNode { node },
            ) && is_new_node(params, fresh, now, node, ReplyView::MaybeText { text: title })
            &&& create_with_parent_next(params, fresh, now, two) == StepView::Ask(
                RequestView::IsEmbeddable { node_type: params.node_type },
            )
            &&& create_with_parent_next(
                params,
                fresh,
                now,
                two.push(ReplyView::Flag { value: false }),
            ) == StepView::Finish(OutcomeView::Id { id })
            &&& create_with_parent_next(params, fresh, now, yes) == StepView::Ask(
                RequestView::CreateStaleMarker { id },
            )
            &&& create_with_parent_next(
                params,
                fresh,
                now,
                yes.push(ReplyView::Failed { message }),
            ) == StepView::Finish(OutcomeView::Id { id })
            &&& create_with_parent_next(params, fresh, now, yes.push(ReplyView::Done))
                == StepView::Ask(RequestView::WakeEmbedder)
            &&& create_with_parent_next(
                params,
                fresh,
                now,
                yes.push(ReplyView::Done).push(ReplyView::Done),
            ) == StepView::Finish(OutcomeView::Id { id })
        }),
{
}

/// A parent that is not there, or an identifier that may not be, makes the creation fail.
pub proof fn law_bad_children_are_refused(
    params: CreateNodeParamsView,
    fresh: Seq<char>,
    now: i64,
    parent: Seq<char>,
    error: ErrorView,
    log: Seq<ReplyView>,
)
    requires
        params.parent_id == Some(parent),
        log.len() > 1,
        log[0] == ReplyView::Done,
    ensures
        log[1] == (ReplyView::Flag { value: false }) ==> create_with_parent_next(
            params,
            fresh,
            now,
            log,
        ) == StepView::Fail(ErrorView::InvalidParent { parent_id: parent }),
        log[1] == (ReplyView::Flag { value: true }) && params.insert_after_node_id is None && new_id(
            params,
            fresh,
        ) == Err::<Seq<char>, ErrorView>(error) ==> create_with_parent_next(params, fresh, now, log)
            == StepView::Fail(error),
{
}

/// The date of an identifier is made sure of: a date that is not stored is created, with the date as
/// its content; of anything else nothing is asked.
pub proof fn law_dates_are_made(id: Seq<char>, now: i64, node: NodeView, any: Seq<char>)
    ensures
        !calendar_date(id) ==> ensure_date_next(id, now, Seq::empty()) == StepView::Finish(
            OutcomeView::Nothing,
        ),
        calendar_date(id) ==> {
            let none = seq![ReplyView::Node { node: None }];
            &&& ensure_date_next(id, now, Seq::empty()) == StepView::Ask(RequestView::LoadNode { id })
            &&& ensure_date_next(id, now, seq![ReplyView::Node { node: Some(node) }])
                == StepView::Finish(OutcomeView::Nothing)
            &&& ensure_date_next(id, now, none) matches StepView::Ask(
                RequestView::CreateNode { node: date },
            ) && date.id == id && date.node_type == "date"@ && date.content == id && date.version == 1
                && date.lifecycle_status == "active"@ && date.title is None && date.properties
                == Json::Object(Map::empty())
            &&& ensure_date_next(id, now, none.push(ReplyView::Text { text: any }))
                == StepView::Finish(OutcomeView::Nothing)
        },
{
}

/// The title of a node. Dates and schemas have none. Where the schema of the type has a template, the
/// title is the template filled with the properties of the type. Otherwise tasks, collections and
/// roots are found under their content without its markup, and other nodes have no title.
pub proof fn law_titles(
    node: NodeView,
    is_root: Option<bool>,
    template: Seq<char>,
    text: Seq<char>,
    parent: Seq<char>,
)
    ensures
        node.node_type == "date"@ || node.node_type == "schema"@ ==> title_next(
            node,
            is_root,
            Seq::empty(),
        ) == StepView::Finish(OutcomeView::Title { title: None }),
        node.node_type != "date"@ && node.node_type != "schema"@ ==> {
            let own = node.node_type == "task"@ || node.node_type == "collection"@;
            let with = seq![ReplyView::MaybeText { text: Some(template) }];
            let without = seq![ReplyView::MaybeText { text: None }];
            let stripped = StepView::Ask(RequestView::StripMarkdown { content: node.content });
            &&& title_next(node, is_root, Seq::empty()) == StepView::Ask(
                RequestView::LoadTitleTemplate { node_type: node.node_type },
            )
            &&& title_next(node, is_root, with) matches StepView::Ask(
                RequestView::InterpolateTitle { template: t, properties, node_type },
            ) && t == template && node_type == node.node_type && (node.properties.member(
                node.node_type,
            ) matches Some(ns) ==> properties == ns)
            &&& title_next(node, is_root, with.push(ReplyView::Text { text })) == StepView::Finish(
                OutcomeView::Title { title: Some(text) },
            )
            &&& own || is_root == Some(true) ==> title_next(node, is_root, without) == stripped
                && title_next(node, is_root, without.push(ReplyView::Text { text }))
                == StepView::Finish(OutcomeView::Title { title: Some(text) })
            &&& !own && is_root == Some(false) ==> title_next(node, is_root, without)
                == StepView::Finish(OutcomeView::Title { title: None })
            &&& !own && is_root is None ==> {
                &&& title_next(node, is_root, without) == StepView::Ask(
                    RequestView::LoadParentId { id: node.id },
                )
                &&& title_next(
                    node,
                    is_root,
                    without.push(ReplyView::MaybeText { text: Some(parent) }),
                ) == StepView::Finish(OutcomeView::Title { title: None })
                &&& title_next(node, is_root, without.push(ReplyView::MaybeText { text: None }))
                    == stripped
                &&& title_next(
                    node,
                    is_root,
                    without.push(ReplyView::MaybeText { text: None }).push(
                        ReplyView::Text { text },
                    ),
                ) == StepView::Finish(OutcomeView::Title { title: Some(text) })
            }
        },
{
}

/// What is stored of a node that is created: its identifier, its content, its type (a date if the
/// identifier is one), the title that it has or gets, and all that is said of its life.
pub open spec fn keeps_node(node: NodeView, stored: NodeView) -> bool {
    &&& stored.id == node.id
    &&& stored.content == node.content
    &&& stored.node_type == (if calendar_date(node.id) {
        "date"@
    } else {
        node.node_type
    })
    &&& stored.version == node.version
    &&& stored.created_at == node.created_at
    &&& stored.modified_at == node.modified_at
    &&& stored.mentions == node.mentions
    &&& stored.lifecycle_status == node.lifecycle_status
    &&& node.title is Some ==> stored.title == node.title
}

/// A node is stored as it was given, as a schema exactly if it is one, and every property that the
/// caller gave is in what is stored: fields under the type, namespaces where they were.
pub proof fn law_created_nodes_keep_what_was_given(
    node: NodeView,
    log: Seq<ReplyView>,
    stored: NodeView,
    field: Seq<char>,
    value: Json,
)
    requires
        create_next(node, log) == StepView::Ask(RequestView::InsertNode { node: stored })
            || create_next(node, log) == StepView::Ask(
            RequestView::InsertSchemaNode { node: stored },
        ),
        node.properties is Object,
    ensures
        keeps_node(node, stored),
        create_next(node, log) is Ask && create_next(node, log)->Ask_0 is InsertSchemaNode
            <==> stored.node_type == "schema"@,
        stored.node_type == "schema"@ ==> stored.properties == node.properties,
        stored.node_type == "task"@ && field != "_schema_version"@ && gives(
            node.properties,
            stored.node_type,
            field,
            value,
        ) && (log[1] matches ReplyView::Schema { schema: Some(_), fields: Some(_) }) ==> has_field(
            stored.properties,
            stored.node_type,
            field,
            value,
        ),
        stored.node_type == "task"@ && !(log[1] matches ReplyView::Schema {
            schema: Some(_),
            fields: Some(_),
        }) ==> stored.properties == node.properties,
        stored.node_type != "schema"@ && stored.node_type != "task"@ && gives(
            node.properties,
            stored.node_type,
            field,
            value,
        ) ==> has_field(stored.properties, stored.node_type, field, value),
        stored.node_type != "schema"@ && stored.node_type != "task"@ && gives_namespace(
            node.properties,
            stored.node_type,
            field,
            value,
        ) ==> stored.properties.member(field) == Some(value),
{
    reveal_strlit("date");
    reveal_strlit("schema");
    reveal_strlit("task");
    assert("date"@.len() != "schema"@.len());
    assert("task"@.len() != "schema"@.len());
    assert("date"@[0] != "task"@[0]);
    law_storage_form(stored.node_type, node.properties, Set::empty(), field, value);
    if stored.node_type == "task"@ && log.len() > 1 {
        if let ReplyView::Schema { schema: Some(schema), fields: Some(fields) } = log[1] {
            let names = field_names(Some(fields));
            law_storage_form(stored.node_type, node.properties, names, field, value);
            let spaced = namespaced(stored.node_type, node.properties, names);
            law_defaults_are_filled_in(stored.node_type, spaced, fields, 0, field, value);
            if let Some(filled) = properties_with_defaults(stored.node_type, spaced, fields) {
                if let Some(Json::Number(n)) = schema.member("version"@) {
                    if n.i64_of() is Some {
                        law_versions_are_noted(
                            stored.node_type,
                            filled,
                            integer(n.i64_of()->0),
                            field,
                            field,
                            value,
                        );
                    }
                }
            }
        }
    }
}

/// A task gets the defaults of its schema where it gives nothing, and notes the version of the schema.
pub proof fn law_created_tasks_get_defaults(
    node: NodeView,
    log: Seq<ReplyView>,
    schema: Json,
    fields: Seq<SchemaFieldView>,
    stored: NodeView,
    i: int,
    value: Json,
    version: i64,
)
    requires
        node.node_type == "task"@,
        !calendar_date(node.id),
        node.properties is Object,
        log.len() >= 2,
        log[1] == (ReplyView::Schema { schema: Some(schema), fields: Some(fields) }),
        create_next(node, log) == StepView::Ask(RequestView::InsertNode { node: stored }),
        0 <= i < fields.len(),
        schema.member("version"@) == Some(integer(version)),
    ensures
        has_field(stored.properties, "task"@, "_schema_version"@, integer(version)),
        fields[i].default == Some(value) && fields[i].name != "_schema_version"@
            && node.properties.member(fields[i].name) is None && (forall|d: Json|
            !#[trigger] has_field(node.properties, "task"@, fields[i].name, d)) && (forall|j: int|
            0 <= j < i ==> (#[trigger] fields[j]).name != fields[i].name || fields[j].default is None)
            ==> has_field(stored.properties, "task"@, fields[i].name, value),
{
    let names = field_names(Some(fields));
    let spaced = namespaced("task"@, node.properties, names);
    let name = fields[i].name;
    law_storage_form("task"@, node.properties, names, name, value);
    assert(spaced is Object);
    law_defaults_are_filled_in("task"@, spaced, fields, i, name, value);
    if forall|d: Json| !#[trigger] has_field(node.properties, "task"@, name, d) {
        if node.properties.member(name) is None {
            assert forall|d: Json| !#[trigger] has_field(spaced, "task"@, name, d) by {
                law_storage_form("task"@, node.properties, names, name, d);
            }
        }
    }
    let filled = properties_with_defaults("task"@, spaced, fields)->0;
    law_integers_keep_their_value(version);
    law_versions_are_noted("task"@, filled, integer(version), name, name, value);
}

/// The creation of a node is owed where nothing speaks against it, and the caller gets its identifier.
pub proof fn law_creations_are_owed(node: NodeView, title: Option<Seq<char>>)
    requires
        !calendar_date(node.id),
        node.node_type != "task"@,
        node.node_type != "playbook"@,
    ensures
        create_next(node, Seq::empty()) == StepView::Ask(RequestView::ValidateBehavior { node }),
        node.title is Some ==> {
            let one = seq![ReplyView::Done];
            &&& create_next(node, one) matches StepView::Ask(request) && (request is InsertNode
                || request is InsertSchemaNode)
            &&& create_next(node, one.push(ReplyView::Done)) == StepView::Finish(
                OutcomeView::Id { id: node.id },
            )
        },
        node.title is None ==> {
            let one = seq![ReplyView::Done];
            let two = one.push(ReplyView::MaybeText { text: title });
            &&& create_next(node, one) matches StepView::Ask(
                RequestView::ComputeTitle { node: n, is_root: None },
            ) && n.id == node.id && n.content == node.content && n.node_type == node.node_type
            &&& create_next(node, two) matches StepView::Ask(request) && (match request {
                RequestView::InsertNode { node: stored } => stored.title == title,
                RequestView::InsertSchemaNode { node: stored } => stored.title == title,
                _ => false,
            })
            &&& create_next(node, two.push(ReplyView::Done)) == StepView::Finish(
                OutcomeView::Id { id: node.id },
            )
        },
{
}

/// A playbook is stored only after its rules were found right, those that are stored.
pub proof fn law_playbooks_are_checked(node: NodeView, log: Seq<ReplyView>, stored: NodeView)
    requires
        node.node_type == "playbook"@,
        !calendar_date(node.id),
        create_next(node, log) == StepView::Ask(RequestView::InsertNode { node: stored }),
    ensures
        log.len() > 1,
        log.last() == ReplyView::Done,
        create_next(node, log.drop_last()) == StepView::Ask(
            RequestView::ValidatePlaybook { properties: stored.properties },
        ),
{
    reveal_strlit("playbook");
    reveal_strlit("task");
    reveal_strlit("schema");
    assert("playbook"@.len() != "task"@.len());
    assert("playbook"@.len() != "schema"@.len());
    let last = log.drop_last();
    assert(last.skip(1) =~= log.skip(1).drop_last());
    if log.len() > 2 {
        assert(last.skip(1).skip(1) =~= log.skip(1).skip(1).drop_last());
    }
}

/// A task whose schema is not known, or whose fields cannot be read, is created as it is given.
pub proof fn law_tasks_without_a_schema_are_created(
    node: NodeView,
    title: Seq<char>,
    schema: Option<Json>,
    fields: Option<Seq<SchemaFieldView>>,
)
    requires
        node.node_type == "task"@,
        !calendar_date(node.id),
        node.title == Some(title),
        schema is None || fields is None,
    ensures
        ({
            let two = seq![ReplyView::Done, ReplyView::Schema { schema, fields }];
            &&& create_next(node, seq![ReplyView::Done]) == StepView::Ask(
                RequestView::LoadSchema { node_type: node.node_type },
            )
            &&& create_next(node, two) == StepView::Ask(RequestView::InsertNode { node })
            &&& create_next(node, two.push(ReplyView::Done)) == StepView::Finish(
                OutcomeView::Id { id: node.id },
            )
        }),
{
    reveal_strlit("task");
    reveal_strlit("schema");
    reveal_strlit("playbook");
    assert("task"@.len() != "schema"@.len());
    assert("task"@.len() != "playbook"@.len());
    let three = seq![ReplyView::Done, ReplyView::Schema { schema, fields }].push(ReplyView::Done);
    assert(three.skip(1).skip(1)[0] == three[2]);
}

} // verus!
