//! Node properties.
//!
//! The properties of a node are an object with one namespace per node type:
//! `{ "task": { "status": "open" } }`. Namespaces of earlier types stay when a node changes type.

use crate::error::{ErrorView, NodeServiceError};
use crate::json::{Json, Object, Value};
use crate::node::{fields_view, optional_json, Node, NodeView, SchemaField, SchemaFieldView};
use crate::sequences::{lemma_push_contains, lemma_take_contains};
use crate::service::NodeService;
use crate::text::same_text;
use vstd::prelude::*;
use vstd::string::*;

verus! {

/// A property that differs between two states of a node.
#[derive(Debug)]
pub struct PropertyChange {
    pub key: String,
    pub old_value: Option<Value>,
    pub new_value: Option<Value>,
}

#[verifier::ext_equal]
pub struct PropertyChangeView {
    pub key: Seq<char>,
    pub old_value: Option<Json>,
    pub new_value: Option<Json>,
}

impl View for PropertyChange {
    type V = PropertyChangeView;

    open spec fn view(&self) -> PropertyChangeView {
        PropertyChangeView {
            key: self.key@,
            old_value: optional_json(self.old_value),
            new_value: optional_json(self.new_value),
        }
    }
}

/// Where a property stands: at the top, or inside a namespace.
pub enum PropertyPath {
    Top(Seq<char>),
    Inner(Seq<char>, Seq<char>),
}

pub open spec fn lookup(m: Map<Seq<char>, Json>, key: Seq<char>) -> Option<Json> {
    if m.contains_key(key) {
        Some(m[key])
    } else {
        None
    }
}

/// The key holds an object on both sides.
pub open spec fn namespace_on_both_sides(
    old: Map<Seq<char>, Json>,
    new: Map<Seq<char>, Json>,
    key: Seq<char>,
) -> bool {
    lookup(old, key) matches Some(Json::Object(_)) && lookup(new, key) matches Some(Json::Object(_))
}

/// The two states of the properties differ at the path. A namespace that both sides have is
/// compared by its members, never as a whole.
pub open spec fn differs_at(
    old: Map<Seq<char>, Json>,
    new: Map<Seq<char>, Json>,
    path: PropertyPath,
) -> bool {
    match path {
        PropertyPath::Top(key) => !namespace_on_both_sides(old, new, key) && lookup(old, key)
            != lookup(new, key),
        PropertyPath::Inner(ns, key) => namespace_on_both_sides(old, new, ns)
            && old[ns].member(key) != new[ns].member(key),
    }
}

/// The record of a change at a path.
pub open spec fn change_at(
    old: Map<Seq<char>, Json>,
    new: Map<Seq<char>, Json>,
    path: PropertyPath,
) -> PropertyChangeView {
    match path {
        PropertyPath::Top(key) => PropertyChangeView {
            key,
            old_value: lookup(old, key),
            new_value: lookup(new, key),
        },
        PropertyPath::Inner(ns, key) => PropertyChangeView {
            key: ns + "."@ + key,
            old_value: old[ns].member(key),
            new_value: new[ns].member(key),
        },
    }
}

/// The changes are the records at `paths`, and `paths` lists once each path at which the two
/// states differ.
pub open spec fn changes_along(
    old: Map<Seq<char>, Json>,
    new: Map<Seq<char>, Json>,
    changes: Seq<PropertyChange>,
    paths: Seq<PropertyPath>,
) -> bool {
    &&& paths.no_duplicates()
    &&& changes.len() == paths.len()
    &&& forall|i: int| 0 <= i < paths.len() ==> (#[trigger] changes[i])@ == change_at(old, new, paths[i])
    &&& forall|p: PropertyPath| #[trigger] paths.contains(p) <==> differs_at(old, new, p)
}

/// The changes list each difference between two states of the properties once. Their order is
/// left open.
pub open spec fn lists_changes(old: Json, new: Json, changes: Seq<PropertyChange>) -> bool {
    match (old, new) {
        (Json::Object(o), Json::Object(n)) => exists|paths: Seq<PropertyPath>|
            changes_along(o, n, changes, paths),
        _ => changes.len() == 0,
    }
}

pub open spec fn top_key(path: PropertyPath) -> Seq<char> {
    match path {
        PropertyPath::Top(key) => key,
        PropertyPath::Inner(ns, _) => ns,
    }
}

/// As [`changes_along`], for the paths under some of the top-level keys.
spec fn changes_under(
    old: Map<Seq<char>, Json>,
    new: Map<Seq<char>, Json>,
    changes: Seq<PropertyChange>,
    paths: Seq<PropertyPath>,
    keys: Seq<Seq<char>>,
) -> bool {
    &&& paths.no_duplicates()
    &&& changes.len() == paths.len()
    &&& forall|i: int| 0 <= i < paths.len() ==> (#[trigger] changes[i])@ == change_at(old, new, paths[i])
    &&& forall|p: PropertyPath| #[trigger]
        paths.contains(p) <==> differs_at(old, new, p) && keys.contains(top_key(p))
}

proof fn lemma_changes_extend(
    old: Map<Seq<char>, Json>,
    new: Map<Seq<char>, Json>,
    changes: Seq<PropertyChange>,
    paths: Seq<PropertyPath>,
    keys: Seq<Seq<char>>,
    key: Seq<char>,
    added: Seq<PropertyChange>,
    added_paths: Seq<PropertyPath>,
)
    requires
        changes_under(old, new, changes, paths, keys),
        !keys.contains(key),
        changes_under(old, new, added, added_paths, seq![key]),
    ensures
        changes_under(old, new, changes + added, paths + added_paths, keys.push(key)),
{
    let all = paths + added_paths;
    let only = seq![key];
    assert forall|i: int| 0 <= i < all.len() implies (#[trigger] (changes + added)[i])@ == change_at(
        old,
        new,
        all[i],
    ) by {
        if i >= paths.len() {
            assert(added[i - paths.len()]@ == change_at(old, new, added_paths[i - paths.len()]));
        } else {
            assert(changes[i]@ == change_at(old, new, paths[i]));
        }
    }
    assert forall|i: int, j: int| 0 <= i < j < all.len() implies all[i] != all[j] by {
        if i < paths.len() && j >= paths.len() {
            let k = j - paths.len();
            assert(paths.contains(paths[i]));
            assert(added_paths.contains(added_paths[k]));
            assert(only.contains(top_key(added_paths[k])));
        } else if i >= paths.len() {
            assert(added_paths[i - paths.len()] != added_paths[j - paths.len()]);
        }
    }
    assert forall|p: PropertyPath| #[trigger]
        all.contains(p) <==> differs_at(old, new, p) && keys.push(key).contains(top_key(p)) by {
        let t = top_key(p);
        if all.contains(p) {
            let i = choose|i: int| 0 <= i < all.len() && all[i] == p;
            if i < paths.len() {
                assert(paths.contains(paths[i]));
                let q = choose|q: int| 0 <= q < keys.len() && keys[q] == t;
                assert(keys.push(key)[q] == t);
            } else {
                assert(added_paths.contains(added_paths[i - paths.len()]));
                assert(only.contains(t));
                assert(keys.push(key)[keys.len() as int] == t);
            }
        }
        if differs_at(old, new, p) && keys.push(key).contains(t) {
            if t == key {
                assert(only[0] == t);
                assert(added_paths.contains(p));
                let q = choose|q: int| 0 <= q < added_paths.len() && added_paths[q] == p;
                assert(all[paths.len() + q] == p);
            } else {
                let q = choose|q: int| 0 <= q < keys.push(key).len() && keys.push(key)[q] == t;
                assert(keys[q] == t);
                assert(paths.contains(p));
                let w = choose|w: int| 0 <= w < paths.len() && paths[w] == p;
                assert(all[w] == p);
            }
        }
    }
}

fn clone_member(value: Option<&Value>) -> (r: Option<Value>)
    ensures
        optional_json(r) == (match value {
            Some(v) => Some(v@),
            None => None,
        }),
{
    match value {
        Some(v) => Some(v.clone()),
        None => None,
    }
}

/// The differences between two objects are listed along their keys.
spec fn members_along(
    ns: Seq<char>,
    old: Map<Seq<char>, Json>,
    new: Map<Seq<char>, Json>,
    changes: Seq<PropertyChange>,
    keys: Seq<Seq<char>>,
) -> bool {
    &&& keys.no_duplicates()
    &&& changes.len() == keys.len()
    &&& forall|i: int|
        0 <= i < keys.len() ==> (#[trigger] changes[i])@ == (PropertyChangeView {
            key: ns + "."@ + keys[i],
            old_value: lookup(old, keys[i]),
            new_value: lookup(new, keys[i]),
        })
}

fn member_change(ns: &str, key: &str, old: Option<&Value>, new: Option<&Value>) -> (r: PropertyChange)
    ensures
        r@.key == ns@ + "."@ + key@,
        r@.old_value == (match old {
            Some(v) => Some(v@),
            None => None,
        }),
        r@.new_value == (match new {
            Some(v) => Some(v@),
            None => None,
        }),
{
    let mut path = ns.to_owned();
    path.append(".");
    path.append(key);
    PropertyChange { key: path, old_value: clone_member(old), new_value: clone_member(new) }
}

/// The differences between the two states of a namespace.
fn namespace_changes(ns: &str, old: &Object, new: &Object) -> (changes: Vec<PropertyChange>)
    ensures
        exists|keys: Seq<Seq<char>>|
            {
                &&& members_along(ns@, old@, new@, changes@, keys)
                &&& forall|k: Seq<char>| #[trigger] keys.contains(k) <==> lookup(old@, k) != lookup(new@, k)
            },
{
    let mut changes: Vec<PropertyChange> = Vec::new();
    let ghost mut keys: Seq<Seq<char>> = Seq::empty();
    let n: usize = old.len();
    let mut i: usize = 0;
    while i < n
        invariant
            i <= n == old.keys().len(),
            members_along(ns@, old@, new@, changes@, keys),
            forall|k: Seq<char>| #[trigger]
                keys.contains(k) <==> lookup(old@, k) != lookup(new@, k) && old.keys().take(
                    i as int,
                ).contains(k),
        decreases n - i,
    {
        let (key, value) = old.entry(i);
        let other = new.get(key.as_str());
        let same = match other {
            Some(v) => *value == *v,
            None => false,
        };
        proof {
            lemma_take_contains(old.keys(), i as int);
            assert(!old.keys().take(i as int).contains(key@));
        }
        if !same {
            let ghost before = keys;
            changes.push(member_change(ns, key.as_str(), Some(value), other));
            proof {
                keys = keys.push(key@);
                lemma_push_contains(before, key@);
                assert(!before.contains(key@));
                assert(keys.no_duplicates());
            }
        }
        i += 1;
    }
    proof {
        assert(old.keys().take(n as int) =~= old.keys());
    }
    let m: usize = new.len();
    let mut j: usize = 0;
    while j < m
        invariant
            j <= m == new.keys().len(),
            members_along(ns@, old@, new@, changes@, keys),
            forall|k: Seq<char>| #[trigger]
                keys.contains(k) <==> lookup(old@, k) != lookup(new@, k) && (old@.contains_key(k)
                    || new.keys().take(j as int).contains(k)),
        decreases m - j,
    {
        let (key, value) = new.entry(j);
        proof {
            lemma_take_contains(new.keys(), j as int);
            assert(!new.keys().take(j as int).contains(key@));
        }
        if !old.contains_key(key.as_str()) {
            let ghost before = keys;
            changes.push(member_change(ns, key.as_str(), None, Some(value)));
            proof {
                keys = keys.push(key@);
                lemma_push_contains(before, key@);
                assert(!before.contains(key@));
                assert(keys.no_duplicates());
            }
        }
        j += 1;
    }
    proof {
        assert(new.keys().take(m as int) =~= new.keys());
        assert forall|k: Seq<char>| #[trigger] keys.contains(k) <==> lookup(old@, k) != lookup(new@, k) by {
            assert(new@.contains_key(k) <==> new.keys().contains(k));
        }
    }
    changes
}

/// The differences under one top-level key.
fn key_changes(key: &str, old: &Object, new: &Object) -> (changes: Vec<PropertyChange>)
    ensures
        exists|paths: Seq<PropertyPath>|
            changes_under(old@, new@, changes@, paths, seq![key@]),
{
    let old_value = old.get(key);
    let new_value = new.get(key);
    let ghost only = seq![key@];
    proof {
        assert(only[0] == key@);
    }
    match (old_value, new_value) {
        (Some(Value::Object(a)), Some(Value::Object(b))) => {
            let changes = namespace_changes(key, a, b);
            proof {
                let keys = choose|keys: Seq<Seq<char>>|
                    {
                        &&& members_along(key@, a@, b@, changes@, keys)
                        &&& forall|k: Seq<char>| #[trigger]
                            keys.contains(k) <==> lookup(a@, k) != lookup(b@, k)
                    };
                let paths = keys.map_values(|k: Seq<char>| PropertyPath::Inner(key@, k));
                assert forall|i: int| 0 <= i < paths.len() implies (#[trigger] changes@[i])@
                    == change_at(old@, new@, paths[i]) by {}
                assert forall|p: PropertyPath| #[trigger]
                    paths.contains(p) <==> differs_at(old@, new@, p) && only.contains(top_key(p)) by {
                    if paths.contains(p) {
                        let i = choose|i: int| 0 <= i < paths.len() && paths[i] == p;
                        assert(keys.contains(keys[i]));
                    }
                    if differs_at(old@, new@, p) && only.contains(top_key(p)) {
                        match p {
                            PropertyPath::Inner(ns, k) => {
                                assert(keys.contains(k));
                                let i = choose|i: int| 0 <= i < keys.len() && keys[i] == k;
                                assert(paths[i] == p);
                            },
                            PropertyPath::Top(k) => {},
                        }
                    }
                }
                assert(changes_under(old@, new@, changes@, paths, only));
            }
            changes
        },
        _ => {
            let mut changes: Vec<PropertyChange> = Vec::new();
            let same = match (old_value, new_value) {
                (Some(a), Some(b)) => *a == *b,
                (None, None) => true,
                _ => false,
            };
            if same {
                proof {
                    let paths = Seq::<PropertyPath>::empty();
                    assert(changes_under(old@, new@, changes@, paths, only));
                }
            } else {
                changes.push(
                    PropertyChange {
                        key: key.to_owned(),
                        old_value: clone_member(old_value),
                        new_value: clone_member(new_value),
                    },
                );
                proof {
                    let paths = seq![PropertyPath::Top(key@)];
                    assert(paths[0] == PropertyPath::Top(key@));
                    assert(changes_under(old@, new@, changes@, paths, only));
                }
            }
            changes
        },
    }
}

/// Lists the differences between two states of a node's properties.
///
/// A namespace that both states have is compared member by member, under keys such as
/// `task.status`. Where either state is no object, nothing is listed.
pub fn compute_property_changes(old: &Value, new: &Value) -> (changes: Vec<PropertyChange>)
    ensures
        lists_changes(old@, new@, changes@),
{
    let mut changes: Vec<PropertyChange> = Vec::new();
    let (a, b) = match (old, new) {
        (Value::Object(a), Value::Object(b)) => (a, b),
        _ => {
            return changes;
        },
    };
    let ghost mut paths: Seq<PropertyPath> = Seq::empty();
    let ghost mut done: Seq<Seq<char>> = Seq::empty();
    let n: usize = a.len();
    let mut i: usize = 0;
    while i < n
        invariant
            i <= n == a.keys().len(),
            done == a.keys().take(i as int),
            changes_under(a@, b@, changes@, paths, done),
        decreases n - i,
    {
        let (key, value) = a.entry(i);
        let mut added = key_changes(key.as_str(), a, b);
        proof {
            let added_paths = choose|p: Seq<PropertyPath>| changes_under(a@, b@, added@, p, seq![key@]);
            lemma_changes_extend(a@, b@, changes@, paths, done, key@, added@, added_paths);
            paths = paths + added_paths;
            done = done.push(key@);
            assert(a.keys().take(i + 1) =~= a.keys().take(i as int).push(key@));
        }
        changes.append(&mut added);
        i += 1;
    }
    let m: usize = b.len();
    proof {
        assert(a.keys().take(n as int) =~= a.keys());
        assert(b.keys().take(0) =~= Seq::empty());
    }
    let mut j: usize = 0;
    while j < m
        invariant
            j <= m == b.keys().len(),
            changes_under(a@, b@, changes@, paths, done),
            forall|k: Seq<char>| #[trigger]
                done.contains(k) <==> a.keys().contains(k) || b.keys().take(j as int).contains(k),
        decreases m - j,
    {
        let (key, value) = b.entry(j);
        proof {
            lemma_take_contains(b.keys(), j as int);
            assert(!b.keys().take(j as int).contains(key@));
        }
        if !a.contains_key(key.as_str()) {
            let mut added = key_changes(key.as_str(), a, b);
            proof {
                let added_paths = choose|p: Seq<PropertyPath>|
                    changes_under(a@, b@, added@, p, seq![key@]);
                lemma_changes_extend(a@, b@, changes@, paths, done, key@, added@, added_paths);
                paths = paths + added_paths;
                let before = done;
                done = done.push(key@);
                lemma_push_contains(before, key@);
            }
            changes.append(&mut added);
        }
        j += 1;
    }
    proof {
        assert(b.keys().take(m as int) =~= b.keys());
        assert forall|p: PropertyPath| #[trigger] paths.contains(p) <==> differs_at(a@, b@, p) by {
            let k = top_key(p);
            if differs_at(a@, b@, p) {
                assert(a@.contains_key(k) || b@.contains_key(k));
            }
        }
        assert(changes_along(a@, b@, changes@, paths));
        assert(old@->Object_0 == a@ && new@->Object_0 == b@);
        assert(lists_changes(Json::Object(a@), Json::Object(b@), changes@));
    }
    changes
}

/// Nothing is listed exactly when the two states are equal, among states that are objects.
pub proof fn law_no_changes_iff_equal(old: Json, new: Json, changes: Seq<PropertyChange>)
    requires
        old is Object,
        new is Object,
        lists_changes(old, new, changes),
    ensures
        changes.len() == 0 <==> old == new,
{
    let o = old->Object_0;
    let n = new->Object_0;
    let paths = choose|paths: Seq<PropertyPath>| changes_along(o, n, changes, paths);
    if changes.len() == 0 {
        assert forall|k: Seq<char>| lookup(o, k) == lookup(n, k) by {
            assert(!paths.contains(PropertyPath::Top(k)));
            if namespace_on_both_sides(o, n, k) {
                let x = o[k]->Object_0;
                let y = n[k]->Object_0;
                assert forall|j: Seq<char>| lookup(x, j) == lookup(y, j) by {
                    assert(!paths.contains(PropertyPath::Inner(k, j)));
                }
                lemma_lookup_extensional(x, y);
            }
        }
        lemma_lookup_extensional(o, n);
    }
    if old == new && changes.len() > 0 {
        assert(paths.contains(paths[0]));
    }
}

proof fn lemma_lookup_extensional(x: Map<Seq<char>, Json>, y: Map<Seq<char>, Json>)
    requires
        forall|k: Seq<char>| lookup(x, k) == lookup(y, k),
    ensures
        x == y,
{
    assert forall|k: Seq<char>| x.contains_key(k) <==> y.contains_key(k) by {
        assert(lookup(x, k) == lookup(y, k));
    }
    assert forall|k: Seq<char>| x.contains_key(k) implies x[k] == y[k] by {
        assert(lookup(x, k) == lookup(y, k));
    }
    assert(x =~= y);
}

/// What is listed did change: the two values of a record are never equal.
pub proof fn law_listed_values_differ(old: Json, new: Json, changes: Seq<PropertyChange>, i: int)
    requires
        lists_changes(old, new, changes),
        0 <= i < changes.len(),
    ensures
        changes[i]@.old_value != changes[i]@.new_value,
{
    let o = old->Object_0;
    let n = new->Object_0;
    let paths = choose|paths: Seq<PropertyPath>| changes_along(o, n, changes, paths);
    assert(paths.contains(paths[i]));
}

/// A change seen from the other side.
pub open spec fn turned(change: PropertyChangeView) -> PropertyChangeView {
    PropertyChangeView {
        key: change.key,
        old_value: change.new_value,
        new_value: change.old_value,
    }
}

/// Swapping the two states swaps the old and the new value of every change, and changes nothing else
/// but the order of the list.
pub proof fn law_swapped_states_swap_values(
    x: Json,
    y: Json,
    there: Seq<PropertyChange>,
    back: Seq<PropertyChange>,
)
    requires
        lists_changes(x, y, there),
        lists_changes(y, x, back),
    ensures
        back.map_values(|c: PropertyChange| c@).to_multiset() == there.map_values(
            |c: PropertyChange| turned(c@),
        ).to_multiset(),
{
    let from = |c: PropertyChange| c@;
    let to = |c: PropertyChange| turned(c@);
    if x is Object && y is Object {
        let o = x->Object_0;
        let n = y->Object_0;
        let p = choose|paths: Seq<PropertyPath>| changes_along(o, n, there, paths);
        let q = choose|paths: Seq<PropertyPath>| changes_along(n, o, back, paths);
        let record = |path: PropertyPath| change_at(n, o, path);
        assert(back.map_values(from) =~= q.map_values(record));
        assert(there.map_values(to) =~= p.map_values(record));
        assert forall|path: PropertyPath| #[trigger] p.contains(path) <==> q.contains(path) by {
            assert(differs_at(o, n, path) <==> differs_at(n, o, path));
        }
        lemma_same_members(p, q);
        lemma_mapped_multiset(q, p, record);
    } else {
        assert(back.map_values(from) =~= there.map_values(to));
    }
}

/// Two lists without repetitions that have the same members are the same but for their order.
proof fn lemma_same_members(p: Seq<PropertyPath>, q: Seq<PropertyPath>)
    requires
        p.no_duplicates(),
        q.no_duplicates(),
        forall|x: PropertyPath| #[trigger] p.contains(x) <==> q.contains(x),
    ensures
        p.to_multiset() == q.to_multiset(),
{
    broadcast use vstd::seq_lib::group_to_multiset_ensures;

    p.lemma_multiset_has_no_duplicates();
    q.lemma_multiset_has_no_duplicates();
    assert forall|x: PropertyPath| p.to_multiset().count(x) == q.to_multiset().count(x) by {
        assert(p.contains(x) <==> p.to_multiset().count(x) > 0);
        assert(q.contains(x) <==> q.to_multiset().count(x) > 0);
        if p.contains(x) {
            assert(p.to_multiset().contains(x));
            assert(q.to_multiset().contains(x));
        }
    }
    assert(p.to_multiset() =~= q.to_multiset());
}

/// What is the same but for the order stays so item by item.
proof fn lemma_mapped_multiset(
    s: Seq<PropertyPath>,
    t: Seq<PropertyPath>,
    f: spec_fn(PropertyPath) -> PropertyChangeView,
)
    requires
        s.to_multiset() == t.to_multiset(),
    ensures
        s.map_values(f).to_multiset() == t.map_values(f).to_multiset(),
    decreases s.len(),
{
    broadcast use vstd::seq_lib::group_to_multiset_ensures;

    assert(s.len() == s.to_multiset().len() == t.to_multiset().len() == t.len());
    if s.len() == 0 {
        assert(s.map_values(f) =~= t.map_values(f));
    } else {
        let x = s.last();
        assert(s.contains(x));
        assert(t.to_multiset().count(x) > 0);
        assert(t.contains(x));
        let k = choose|k: int| 0 <= k < t.len() && t[k] == x;
        let rest = t.remove(k);
        assert(s.drop_last() =~= s.remove(s.len() - 1));
        assert(s.drop_last().to_multiset() =~= s.to_multiset().remove(x));
        assert(rest.to_multiset() =~= t.to_multiset().remove(x));
        lemma_mapped_multiset(s.drop_last(), rest, f);
        assert(s.map_values(f) =~= s.drop_last().map_values(f).push(f(x)));
        assert(t.map_values(f).remove(k) =~= rest.map_values(f));
        assert(t.map_values(f)[k] == f(x));
        assert(t.map_values(f).to_multiset() =~= rest.map_values(f).to_multiset().insert(f(x)));
    }
}

/// The members of a namespace once the defaults of some fields fill its gaps.
pub open spec fn with_defaults(
    members: Map<Seq<char>, Json>,
    fields: Seq<SchemaFieldView>,
) -> Map<Seq<char>, Json>
    decreases fields.len(),
{
    if fields.len() == 0 {
        members
    } else {
        let filled = with_defaults(members, fields.drop_last());
        let field = fields.last();
        match field.default {
            Some(value) => if filled.contains_key(field.name) {
                filled
            } else {
                filled.insert(field.name, value)
            },
            None => filled,
        }
    }
}

/// The properties as an object: what is none counts as empty.
pub open spec fn object_or_empty(properties: Json) -> Map<Seq<char>, Json> {
    match properties {
        Json::Object(m) => m,
        _ => Map::empty(),
    }
}

/// The namespace of a type: `None` if something else stands in its place.
pub open spec fn namespace_or_empty(
    properties: Map<Seq<char>, Json>,
    node_type: Seq<char>,
) -> Option<Map<Seq<char>, Json>> {
    match lookup(properties, node_type) {
        None => Some(Map::empty()),
        Some(Json::Object(m)) => Some(m),
        Some(_) => None,
    }
}

/// The properties of a node of some type with the defaults of its schema filled in.
pub open spec fn properties_with_defaults(
    node_type: Seq<char>,
    properties: Json,
    fields: Seq<SchemaFieldView>,
) -> Option<Json> {
    let top = object_or_empty(properties);
    match namespace_or_empty(top, node_type) {
        Some(members) => Some(
            Json::Object(top.insert(node_type, Json::Object(with_defaults(members, fields)))),
        ),
        None => None,
    }
}

pub open spec fn namespace_not_an_object(node_type: Seq<char>) -> Seq<char> {
    "Type namespace for '"@ + node_type + "' is not an object"@
}

/// A default never replaces a value that is there, and every field with a default has a value.
pub proof fn law_defaults_fill_gaps(members: Map<Seq<char>, Json>, fields: Seq<SchemaFieldView>)
    ensures
        forall|k: Seq<char>| #[trigger]
            members.contains_key(k) ==> with_defaults(members, fields).contains_key(k)
                && with_defaults(members, fields)[k] == members[k],
        forall|i: int|
            0 <= i < fields.len() && (#[trigger] fields[i]).default is Some ==> with_defaults(
                members,
                fields,
            ).contains_key(fields[i].name),
        forall|k: Seq<char>| #[trigger]
            with_defaults(members, fields).contains_key(k) && !members.contains_key(k) ==> exists|
                i: int,
            |
                0 <= i < fields.len() && (#[trigger] fields[i]).name == k && fields[i].default == Some(
                    with_defaults(members, fields)[k],
                ),
    decreases fields.len(),
{
    if fields.len() > 0 {
        let front = fields.drop_last();
        law_defaults_fill_gaps(members, front);
        assert forall|i: int|
            0 <= i < fields.len() && (#[trigger] fields[i]).default is Some implies with_defaults(
            members,
            fields,
        ).contains_key(fields[i].name) by {
            if i < front.len() {
                assert(front[i] == fields[i]);
            }
        }
        assert forall|k: Seq<char>| #[trigger]
            with_defaults(members, fields).contains_key(k) && !members.contains_key(k) implies exists|
            i: int,
        |
            0 <= i < fields.len() && (#[trigger] fields[i]).name == k && fields[i].default == Some(
                with_defaults(members, fields)[k],
            ) by {
            if with_defaults(members, front).contains_key(k) {
                let i = choose|i: int|
                    0 <= i < front.len() && (#[trigger] front[i]).name == k && front[i].default == Some(
                        with_defaults(members, front)[k],
                    );
                assert(fields[i] == front[i]);
            } else {
                assert(fields[fields.len() - 1].name == k);
            }
        }
    }
}

/// Filling in the defaults a second time changes nothing.
pub proof fn law_defaults_idempotent(members: Map<Seq<char>, Json>, fields: Seq<SchemaFieldView>)
    ensures
        with_defaults(with_defaults(members, fields), fields) == with_defaults(members, fields),
{
    law_defaults_fill_gaps(members, fields);
    lemma_defaults_no_gap(with_defaults(members, fields), fields);
}

proof fn lemma_defaults_no_gap(members: Map<Seq<char>, Json>, fields: Seq<SchemaFieldView>)
    requires
        forall|i: int|
            0 <= i < fields.len() && (#[trigger] fields[i]).default is Some ==> members.contains_key(
                fields[i].name,
            ),
    ensures
        with_defaults(members, fields) == members,
    decreases fields.len(),
{
    if fields.len() > 0 {
        let front = fields.drop_last();
        assert forall|i: int|
            0 <= i < front.len() && (#[trigger] front[i]).default is Some implies members.contains_key(
            front[i].name,
        ) by {
            assert(front[i] == fields[i]);
        }
        lemma_defaults_no_gap(members, front);
        assert(fields[fields.len() - 1] == fields.last());
    }
}

/// The properties after new ones were merged in: namespaces that both sides have are merged
/// member by member, and everything else that is new replaces what was there.
pub open spec fn merged_properties(existing: Json, new: Json) -> Json {
    match (existing, new) {
        (Json::Object(old), Json::Object(add)) => Json::Object(merged_objects(old, add)),
        _ => new,
    }
}

pub open spec fn merged_objects(
    old: Map<Seq<char>, Json>,
    add: Map<Seq<char>, Json>,
) -> Map<Seq<char>, Json> {
    Map::new(
        |k: Seq<char>| old.contains_key(k) || add.contains_key(k),
        |k: Seq<char>| merged_member(old, add, k),
    )
}

pub open spec fn merged_member(
    old: Map<Seq<char>, Json>,
    add: Map<Seq<char>, Json>,
    key: Seq<char>,
) -> Json {
    match (lookup(old, key), lookup(add, key)) {
        (Some(Json::Object(a)), Some(Json::Object(b))) => Json::Object(a.union_prefer_right(b)),
        (_, Some(value)) => value,
        _ => old[key],
    }
}

/// A namespace that the new properties do not name stays as it was. This is how a node that
/// changes its type keeps the properties of the earlier type.
pub proof fn law_merge_keeps_dormant_namespaces(existing: Json, new: Json, key: Seq<char>)
    requires
        existing is Object,
        new is Object,
        new.member(key) is None,
    ensures
        merged_properties(existing, new).member(key) == existing.member(key),
{
}

/// Fields of one name in different namespaces are kept apart, and within a namespace only the
/// fields that the new properties name change.
pub proof fn law_merge_touches_named_fields_only(
    existing: Json,
    new: Json,
    ns: Seq<char>,
    field: Seq<char>,
)
    requires
        existing is Object,
        new is Object,
        existing.member(ns) matches Some(Json::Object(_)),
        new.member(ns) matches Some(Json::Object(_)),
    ensures
        merged_properties(existing, new).member(ns) matches Some(after) && after.member(field) == (
        match new.member(ns)->0.member(field) {
            Some(v) => Some(v),
            None => existing.member(ns)->0.member(field),
        }),
{
}

/// Merging the same properties twice is the same as merging them once.
pub proof fn law_merge_idempotent(existing: Json, new: Json)
    ensures
        merged_properties(merged_properties(existing, new), new) == merged_properties(existing, new),
{
    match (existing, new) {
        (Json::Object(old), Json::Object(add)) => {
            let once = merged_objects(old, add);
            assert forall|k: Seq<char>| once.contains_key(k) implies merged_objects(once, add)[k]
                == #[trigger] once[k] by {
                match (lookup(old, k), lookup(add, k)) {
                    (Some(Json::Object(a)), Some(Json::Object(b))) => {
                        assert(a.union_prefer_right(b).union_prefer_right(b)
                            =~= a.union_prefer_right(b));
                    },
                    (_, Some(Json::Object(b))) => {
                        assert(b.union_prefer_right(b) =~= b);
                    },
                    _ => {},
                }
            }
            assert(merged_objects(once, add) =~= once);
        },
        _ => {
            match new {
                Json::Object(add) => {
                    assert forall|k: Seq<char>| add.contains_key(k) implies merged_objects(
                        add,
                        add,
                    )[k] == #[trigger] add[k] by {
                        match lookup(add, k) {
                            Some(Json::Object(b)) => {
                                assert(b.union_prefer_right(b) =~= b);
                            },
                            _ => {},
                        }
                    }
                    assert(merged_objects(add, add) =~= add);
                },
                _ => {},
            }
        },
    }
}

/// The key stands for a property of the node rather than for a namespace: it names a field of the
/// schema, or its value is no object.
pub open spec fn is_flat(value: Json, key: Seq<char>, field_names: Set<Seq<char>>) -> bool {
    !(value is Object) || field_names.contains(key)
}

/// Properties in storage form: flat ones moved into the namespace of the node's type.
pub open spec fn namespaced(
    node_type: Seq<char>,
    properties: Json,
    field_names: Set<Seq<char>>,
) -> Json {
    match properties {
        Json::Object(props) => if lookup(props, node_type) matches Some(Json::Object(_)) {
            properties
        } else {
            Json::Object(
                Map::new(
                    |k: Seq<char>| props.contains_key(k) && !is_flat(props[k], k, field_names),
                    |k: Seq<char>| props[k],
                ).insert(
                    node_type,
                    Json::Object(
                        Map::new(
                            |k: Seq<char>| props.contains_key(k) && is_flat(props[k], k, field_names),
                            |k: Seq<char>| props[k],
                        ),
                    ),
                ),
            )
        },
        _ => properties,
    }
}

/// The names of the fields, none where the schema is not known.
pub open spec fn field_names(fields: Option<Seq<SchemaFieldView>>) -> Set<Seq<char>> {
    match fields {
        Some(f) => Set::new(|k: Seq<char>| exists|i: int| 0 <= i < f.len() && (#[trigger] f[i]).name == k),
        None => Set::empty(),
    }
}

/// Properties in storage form stay as they are, whatever fields are known.
pub proof fn law_namespaced_idempotent(
    node_type: Seq<char>,
    properties: Json,
    names: Set<Seq<char>>,
    other_names: Set<Seq<char>>,
)
    ensures
        namespaced(node_type, namespaced(node_type, properties, names), other_names) == namespaced(
            node_type,
            properties,
            names,
        ),
{
}

/// No property is lost: each is either in the namespace of the node's type or where it was.
pub proof fn law_namespaced_keeps_every_property(
    node_type: Seq<char>,
    properties: Json,
    names: Set<Seq<char>>,
    key: Seq<char>,
)
    requires
        properties.member(key) is Some,
    ensures
        namespaced(node_type, properties, names).member(key) == properties.member(key) || (namespaced(
            node_type,
            properties,
            names,
        ).member(node_type) matches Some(ns) && ns.member(key) == properties.member(key)),
{
}

impl NodeService {
    /// Fills the gaps in the namespace of a node's type with the defaults of its schema.
    pub fn apply_schema_defaults_with_fields(
        &self,
        node: &mut Node,
        fields: &Vec<SchemaField>,
    ) -> (r: Result<(), NodeServiceError>)
        ensures
            match properties_with_defaults(
                old(node)@.node_type,
                old(node)@.properties,
                fields_view(fields@),
            ) {
                Some(properties) => r is Ok && final(node)@ == (NodeView {
                    properties,
                    ..old(node)@
                }),
                None => (r matches Err(e) && e@ == ErrorView::InvalidUpdate(
                    namespace_not_an_object(old(node)@.node_type),
                )) && final(node)@ == old(node)@,
            },
    {
        let mut top = match &node.properties {
            Value::Object(o) => o.clone(),
            _ => Object::new(),
        };
        let mut members = match top.get(node.node_type.as_str()) {
            None => Object::new(),
            Some(Value::Object(m)) => m.clone(),
            Some(_) => {
                let mut message = "Type namespace for '".to_owned();
                message.append(node.node_type.as_str());
                message.append("' is not an object");
                return Err(NodeServiceError::InvalidUpdate(message));
            },
        };
        let ghost start = members@;
        let ghost all = fields_view(fields@);
        let mut i: usize = 0;
        while i < fields.len()
            invariant
                i <= fields@.len(),
                members@ == with_defaults(start, all.take(i as int)),
            decreases fields@.len() - i,
        {
            proof {
                assert(all.take(i + 1).drop_last() =~= all.take(i as int));
                assert(all.take(i + 1).last() == fields@[i as int]@);
            }
            if !members.contains_key(fields[i].name.as_str()) {
                if let Some(value) = &fields[i].default {
                    members.insert(fields[i].name.clone(), value.clone());
                }
            }
            i += 1;
        }
        proof {
            assert(all.take(all.len() as int) =~= all);
        }
        top.insert(node.node_type.clone(), Value::Object(members));
        node.properties = Value::Object(top);
        Ok(())
    }

    /// Merges new properties into existing ones.
    pub fn deep_merge_namespaced_properties(existing: &mut Value, new: Value)
        ensures
            final(existing)@ == merged_properties(old(existing)@, new@),
    {
        let merged = match (&*existing, &new) {
            (Value::Object(old), Value::Object(add)) => Some(merge_objects(old, add)),
            _ => None,
        };
        match merged {
            Some(object) => {
                *existing = Value::Object(object);
            },
            None => {
                *existing = new;
            },
        }
    }

    /// Brings properties into storage form.
    ///
    /// A property whose value is an object counts as a namespace unless a field of the schema has
    /// its name.
    pub fn normalize_flat_properties_to_namespace(
        node_type: &str,
        properties: &Value,
        schema_fields: Option<&Vec<SchemaField>>,
    ) -> (r: Value)
        ensures
            r@ == namespaced(
                node_type@,
                properties@,
                field_names(
                    match schema_fields {
                        Some(f) => Some(fields_view(f@)),
                        None => None,
                    },
                ),
            ),
    {
        let props = match properties {
            Value::Object(o) => o,
            _ => {
                return properties.clone();
            },
        };
        if let Some(Value::Object(_)) = props.get(node_type) {
            return properties.clone();
        }
        let ghost names = field_names(
            match schema_fields {
                Some(f) => Some(fields_view(f@)),
                None => None,
            },
        );
        let mut spaces = Object::new();
        let mut flat = Object::new();
        let n: usize = props.len();
        let mut i: usize = 0;
        while i < n
            invariant
                i <= n == props.keys().len(),
                forall|k: Seq<char>| #[trigger]
                    spaces@.contains_key(k) <==> props.keys().take(i as int).contains(k) && !is_flat(
                        props@[k],
                        k,
                        names,
                    ),
                forall|k: Seq<char>| #[trigger]
                    flat@.contains_key(k) <==> props.keys().take(i as int).contains(k) && is_flat(
                        props@[k],
                        k,
                        names,
                    ),
                forall|k: Seq<char>| #[trigger] spaces@.contains_key(k) ==> spaces@[k] == props@[k],
                forall|k: Seq<char>| #[trigger] flat@.contains_key(k) ==> flat@[k] == props@[k],
            decreases n - i,
        {
            let (key, value) = props.entry(i);
            proof {
                lemma_take_contains(props.keys(), i as int);
                assert(!props.keys().take(i as int).contains(key@));
            }
            if value.is_object() && !names_field(schema_fields, key.as_str()) {
                spaces.insert(key.clone(), value.clone());
            } else {
                flat.insert(key.clone(), value.clone());
            }
            i += 1;
        }
        proof {
            assert(props.keys().take(n as int) =~= props.keys());
        }
        let ghost want_spaces = Map::new(
            |k: Seq<char>| props@.contains_key(k) && !is_flat(props@[k], k, names),
            |k: Seq<char>| props@[k],
        );
        let ghost want_flat = Map::new(
            |k: Seq<char>| props@.contains_key(k) && is_flat(props@[k], k, names),
            |k: Seq<char>| props@[k],
        );
        proof {
            assert(spaces@ =~= want_spaces);
            assert(flat@ =~= want_flat);
            assert(properties@ == Json::Object(props@));
        }
        spaces.insert(node_type.to_owned(), Value::Object(flat));
        Value::Object(spaces)
    }
}

/// Whether a field of the schema has the name.
fn names_field(fields: Option<&Vec<SchemaField>>, name: &str) -> (r: bool)
    ensures
        r == field_names(
            match fields {
                Some(f) => Some(fields_view(f@)),
                None => None,
            },
        ).contains(name@),
{
    match fields {
        None => false,
        Some(fields) => {
            let ghost all = fields_view(fields@);
            let mut i: usize = 0;
            while i < fields.len()
                invariant
                    i <= fields@.len(),
                    forall|j: int| 0 <= j < i ==> (#[trigger] all[j]).name != name@,
                decreases fields@.len() - i,
            {
                if same_text(fields[i].name.as_str(), name) {
                    proof {
                        assert(all[i as int].name == name@);
                    }
                    return true;
                }
                i += 1;
            }
            false
        },
    }
}

fn merge_objects(old: &Object, add: &Object) -> (r: Object)
    ensures
        r@ == merged_objects(old@, add@),
{
    let mut out = old.clone();
    let n: usize = add.len();
    let mut i: usize = 0;
    while i < n
        invariant
            i <= n == add.keys().len(),
            forall|k: Seq<char>| #[trigger]
                out@.contains_key(k) <==> old@.contains_key(k) || add.keys().take(i as int).contains(k),
            forall|k: Seq<char>|
                out@.contains_key(k) ==> #[trigger] out@[k] == (if add.keys().take(i as int).contains(k) {
                    merged_member(old@, add@, k)
                } else {
                    old@[k]
                }),
        decreases n - i,
    {
        let (key, value) = add.entry(i);
        proof {
            lemma_take_contains(add.keys(), i as int);
            assert(!add.keys().take(i as int).contains(key@));
        }
        match (old.get(key.as_str()), value) {
            (Some(Value::Object(a)), Value::Object(b)) => {
                let members = overlay(a, b);
                out.insert(key.clone(), Value::Object(members));
            },
            _ => {
                out.insert(key.clone(), value.clone());
            },
        }
        i += 1;
    }
    proof {
        assert(add.keys().take(n as int) =~= add.keys());
        assert forall|k: Seq<char>| out@.contains_key(k) implies #[trigger] out@[k] == merged_objects(
            old@,
            add@,
        )[k] by {}
        assert(out@ =~= merged_objects(old@, add@));
    }
    out
}

/// One object laid over another.
fn overlay(under: &Object, over: &Object) -> (r: Object)
    ensures
        r@ == under@.union_prefer_right(over@),
{
    let mut out = under.clone();
    let n: usize = over.len();
    let mut i: usize = 0;
    while i < n
        invariant
            i <= n == over.keys().len(),
            forall|k: Seq<char>| #[trigger]
                out@.contains_key(k) <==> under@.contains_key(k) || over.keys().take(i as int).contains(k),
            forall|k: Seq<char>|
                out@.contains_key(k) ==> #[trigger] out@[k] == (if over.keys().take(i as int).contains(k) {
                    over@[k]
                } else {
                    under@[k]
                }),
        decreases n - i,
    {
        let (key, value) = over.entry(i);
        proof {
            lemma_take_contains(over.keys(), i as int);
        }
        out.insert(key.clone(), value.clone());
        i += 1;
    }
    proof {
        assert(over.keys().take(n as int) =~= over.keys());
        assert(out@ =~= under@.union_prefer_right(over@));
    }
    out
}

} // verus!
