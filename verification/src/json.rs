//! JSON values as the property bags of nodes hold them.

use crate::sequences::lemma_take_contains;
use crate::text::same_text;
use vstd::prelude::*;

verus! {

/// A JSON number.
///
/// Non-negative integers are `PosInt`, negative ones `NegInt`. Every other number is a finite
/// 64-bit IEEE 754 number, held by its bit pattern.
#[derive(Clone, Copy, Debug)]
pub enum Number {
    PosInt(u64),
    NegInt(i64),
    Float(u64),
}

/// The bit pattern of negative zero.
pub const NEGATIVE_ZERO: u64 = 0x8000_0000_0000_0000;

impl View for Number {
    type V = Number;

    /// Numbers up to the equality of JSON: the two zeros among the floats are the same number.
    open spec fn view(&self) -> Number {
        match *self {
            Number::Float(bits) => if bits == NEGATIVE_ZERO {
                Number::Float(0)
            } else {
                Number::Float(bits)
            },
            _ => *self,
        }
    }
}

impl Number {
    /// The number of a signed integer.
    pub fn from_i64(n: i64) -> (r: Number)
        ensures
            r == (if n >= 0 { Number::PosInt(n as u64) } else { Number::NegInt(n) }),
    {
        if n >= 0 {
            Number::PosInt(n as u64)
        } else {
            Number::NegInt(n)
        }
    }

    /// The number as a signed integer, if it is an integer that fits.
    pub open spec fn i64_of(self) -> Option<i64> {
        match self {
            Number::PosInt(n) => if n <= i64::MAX {
                Some(n as i64)
            } else {
                None
            },
            Number::NegInt(n) => Some(n),
            Number::Float(_) => None,
        }
    }

    /// The number as an unsigned integer, if it is one.
    pub open spec fn u64_of(self) -> Option<u64> {
        match self {
            Number::PosInt(n) => Some(n),
            _ => None,
        }
    }

    pub fn as_i64(&self) -> (r: Option<i64>)
        ensures
            r == self.i64_of(),
    {
        match *self {
            Number::PosInt(n) => if n <= 0x7fff_ffff_ffff_ffff {
                Some(n as i64)
            } else {
                None
            },
            Number::NegInt(n) => Some(n),
            Number::Float(_) => None,
        }
    }

    pub fn as_u64(&self) -> (r: Option<u64>)
        ensures
            r == self.u64_of(),
    {
        match *self {
            Number::PosInt(n) => Some(n),
            _ => None,
        }
    }

    /// Whether two numbers are equal as JSON numbers.
    pub fn same(&self, other: &Number) -> (r: bool)
        ensures
            r == (self@ == other@),
    {
        match (*self, *other) {
            (Number::PosInt(a), Number::PosInt(b)) => a == b,
            (Number::NegInt(a), Number::NegInt(b)) => a == b,
            (Number::Float(a), Number::Float(b)) => {
                a == b || ((a == 0 || a == NEGATIVE_ZERO) && (b == 0 || b == NEGATIVE_ZERO))
            },
            _ => false,
        }
    }
}

/// A JSON value.
#[derive(Debug)]
pub enum Value {
    Null,
    Bool(bool),
    Number(Number),
    Text(String),
    Array(Vec<Value>),
    Object(Object),
}

/// A JSON object: entries with pairwise distinct keys.
#[derive(Debug)]
pub struct Object {
    entries: Vec<(String, Value)>,
}

/// The mathematical value of a [`Value`]: an object is a finite map from keys to values.
#[verifier::ext_equal]
pub enum Json {
    Null,
    Bool(bool),
    Number(Number),
    Text(Seq<char>),
    Array(Seq<Json>),
    Object(Map<Seq<char>, Json>),
}

pub open spec fn value_view(v: Value) -> Json
    decreases v,
{
    match v {
        Value::Null => Json::Null,
        Value::Bool(b) => Json::Bool(b),
        Value::Number(n) => Json::Number(n@),
        Value::Text(s) => Json::Text(s@),
        Value::Array(a) => Json::Array(list_view(a@)),
        Value::Object(o) => Json::Object(object_view(o)),
    }
}

pub open spec fn list_view(items: Seq<Value>) -> Seq<Json>
    decreases items,
{
    if items.len() == 0 {
        Seq::empty()
    } else {
        list_view(items.drop_last()).push(value_view(items.last()))
    }
}

pub closed spec fn object_view(o: Object) -> Map<Seq<char>, Json>
    decreases o,
{
    entries_view(o.entries@)
}

pub closed spec fn entries_view(entries: Seq<(String, Value)>) -> Map<Seq<char>, Json>
    decreases entries,
{
    if entries.len() == 0 {
        Map::empty()
    } else {
        entries_view(entries.drop_last()).insert(entries.last().0@, value_view(entries.last().1))
    }
}

impl View for Value {
    type V = Json;

    open spec fn view(&self) -> Json {
        value_view(*self)
    }
}

impl View for Object {
    type V = Map<Seq<char>, Json>;

    open spec fn view(&self) -> Map<Seq<char>, Json> {
        object_view(*self)
    }
}

spec fn distinct_keys(entries: Seq<(String, Value)>) -> bool {
    forall|i: int, j: int|
        0 <= i < j < entries.len() ==> (#[trigger] entries[i]).0@ != (#[trigger] entries[j]).0@
}

pub proof fn lemma_list_view(items: Seq<Value>)
    ensures
        list_view(items).len() == items.len(),
        forall|i: int| 0 <= i < items.len() ==> list_view(items)[i] == value_view(#[trigger] items[i]),
    decreases items.len(),
{
    if items.len() > 0 {
        lemma_list_view(items.drop_last());
        assert forall|i: int| 0 <= i < items.len() implies list_view(items)[i] == value_view(
            #[trigger] items[i],
        ) by {
            if i < items.len() - 1 {
                assert(items.drop_last()[i] == items[i]);
            }
        }
    }
}

proof fn lemma_entries_view(entries: Seq<(String, Value)>)
    requires
        distinct_keys(entries),
    ensures
        forall|k: Seq<char>| #[trigger]
            entries_view(entries).contains_key(k) <==> exists|i: int|
                0 <= i < entries.len() && (#[trigger] entries[i]).0@ == k,
        forall|i: int|
            0 <= i < entries.len() ==> {
                &&& entries_view(entries).contains_key((#[trigger] entries[i]).0@)
                &&& entries_view(entries)[entries[i].0@] == value_view(entries[i].1)
            },
    decreases entries.len(),
{
    if entries.len() > 0 {
        let front = entries.drop_last();
        assert forall|i: int, j: int| 0 <= i < j < front.len() implies (#[trigger] front[i]).0@ != (
        #[trigger] front[j]).0@ by {
            assert(front[i] == entries[i] && front[j] == entries[j]);
        }
        lemma_entries_view(front);
        assert forall|k: Seq<char>| #[trigger]
            entries_view(entries).contains_key(k) <==> exists|i: int|
                0 <= i < entries.len() && (#[trigger] entries[i]).0@ == k by {
            if entries_view(entries).contains_key(k) {
                if k == entries.last().0@ {
                    assert(entries[entries.len() - 1].0@ == k);
                } else {
                    assert(entries_view(front).contains_key(k));
                    let i = choose|i: int| 0 <= i < front.len() && (#[trigger] front[i]).0@ == k;
                    assert(entries[i].0@ == k);
                }
            }
            if exists|i: int| 0 <= i < entries.len() && (#[trigger] entries[i]).0@ == k {
                let i = choose|i: int| 0 <= i < entries.len() && (#[trigger] entries[i]).0@ == k;
                if i < entries.len() - 1 {
                    assert(front[i].0@ == k);
                }
            }
        }
        assert forall|i: int| 0 <= i < entries.len() implies {
            &&& entries_view(entries).contains_key((#[trigger] entries[i]).0@)
            &&& entries_view(entries)[entries[i].0@] == value_view(entries[i].1)
        } by {
            if i < entries.len() - 1 {
                assert(front[i] == entries[i]);
                assert(entries[i].0@ != entries[entries.len() - 1].0@);
            }
        }
    }
}

/// Puts a value under a key: in place of the entry with that key, or at the end.
fn put(entries: Vec<(String, Value)>, key: String, value: Value) -> (r: Vec<(String, Value)>)
    requires
        distinct_keys(entries@),
    ensures
        distinct_keys(r@),
        entries_view(r@) == entries_view(entries@).insert(key@, value@),
{
    let mut entries = entries;
    let ghost before = entries@;
    let mut i: usize = 0;
    while i < entries.len()
        invariant
            i <= entries@.len(),
            entries@ == before,
            distinct_keys(before),
            forall|j: int| 0 <= j < i ==> (#[trigger] entries@[j]).0@ != key@,
        decreases entries@.len() - i,
    {
        if same_text(entries[i].0.as_str(), key.as_str()) {
            let ghost entry = (key, value);
            entries.set(i, (key, value));
            proof {
                lemma_put(before, entries@, i as int, entry);
            }
            return entries;
        }
        i += 1;
    }
    entries.push((key, value));
    proof {
        assert(entries@.drop_last() =~= before);
    }
    entries
}

proof fn lemma_put(before: Seq<(String, Value)>, after: Seq<(String, Value)>, at: int, entry: (String, Value))
    requires
        distinct_keys(before),
        0 <= at < before.len(),
        before[at].0@ == entry.0@,
        after == before.update(at, entry),
    ensures
        distinct_keys(after),
        entries_view(after) == entries_view(before).insert(entry.0@, entry.1@),
    decreases before.len(),
{
    assert forall|i: int, j: int| 0 <= i < j < after.len() implies (#[trigger] after[i]).0@ != (
    #[trigger] after[j]).0@ by {
        assert(before[i].0@ != before[j].0@);
    }
    lemma_entries_view(before);
    lemma_entries_view(after);
    let m = entries_view(before).insert(entry.0@, entry.1@);
    assert forall|k: Seq<char>| entries_view(after).contains_key(k) <==> #[trigger] m.contains_key(k) by {
        if entries_view(after).contains_key(k) {
            let i = choose|i: int| 0 <= i < after.len() && (#[trigger] after[i]).0@ == k;
            assert(before[i].0@ == k);
        }
        if m.contains_key(k) {
            if k == entry.0@ {
                assert(after[at].0@ == k);
            } else {
                let i = choose|i: int| 0 <= i < before.len() && (#[trigger] before[i]).0@ == k;
                assert(after[i].0@ == k);
            }
        }
    }
    assert forall|k: Seq<char>| m.contains_key(k) implies entries_view(after)[k] == #[trigger] m[k] by {
        if k == entry.0@ {
            assert(after[at].0@ == k);
        } else {
            let i = choose|i: int| 0 <= i < before.len() && (#[trigger] before[i]).0@ == k;
            assert(after[i] == before[i]);
        }
    }
    assert(entries_view(after) =~= m);
}

impl Object {
    #[verifier::type_invariant]
    spec fn well_formed(self) -> bool {
        distinct_keys(self.entries@)
    }

    /// The keys in the order in which the object holds them.
    pub closed spec fn keys(self) -> Seq<Seq<char>> {
        Seq::new(self.entries@.len(), |i: int| self.entries@[i].0@)
    }

    pub fn new() -> (r: Object)
        ensures
            r@ == Map::<Seq<char>, Json>::empty(),
            r.keys().len() == 0,
    {
        Object { entries: Vec::new() }
    }

    /// Each key occurs once among `keys`, and the keys are those of the map.
    pub fn len(&self) -> (r: usize)
        ensures
            r == self.keys().len(),
            self.keys().no_duplicates(),
            forall|k: Seq<char>| #[trigger] self@.contains_key(k) <==> self.keys().contains(k),
    {
        proof {
            use_type_invariant(self);
            lemma_entries_view(self.entries@);
            assert forall|k: Seq<char>| #[trigger] self@.contains_key(k) <==> self.keys().contains(k) by {
                if self@.contains_key(k) {
                    let i = choose|i: int| 0 <= i < self.entries@.len() && (#[trigger] self.entries@[i]).0@ == k;
                    assert(self.keys()[i] == k);
                }
                if self.keys().contains(k) {
                    let i = choose|i: int| 0 <= i < self.keys().len() && self.keys()[i] == k;
                    assert(self.entries@[i].0@ == k);
                }
            }
        }
        self.entries.len()
    }

    /// The entry at a position.
    pub fn entry(&self, i: usize) -> (r: (&String, &Value))
        requires
            i < self.keys().len(),
        ensures
            r.0@ == self.keys()[i as int],
            self@.contains_key(r.0@),
            r.1@ == self@[r.0@],
            decreases_to!(self => r.1),
    {
        proof {
            use_type_invariant(self);
            lemma_entries_view(self.entries@);
            assert(decreases_to!(self.entries@ => self.entries@[i as int]));
            assert(decreases_to!(self.entries => self.entries@));
            assert(decreases_to!(self => self.entries));
        }
        (&self.entries[i].0, &self.entries[i].1)
    }

    pub fn get(&self, key: &str) -> (r: Option<&Value>)
        ensures
            r matches Some(v) ==> self@.contains_key(key@) && v@ == self@[key@],
            r is None ==> !self@.contains_key(key@),
    {
        proof {
            use_type_invariant(self);
            lemma_entries_view(self.entries@);
        }
        let mut i: usize = 0;
        while i < self.entries.len()
            invariant
                i <= self.entries@.len(),
                forall|j: int| 0 <= j < i ==> (#[trigger] self.entries@[j]).0@ != key@,
            decreases self.entries@.len() - i,
        {
            if same_text(self.entries[i].0.as_str(), key) {
                return Some(&self.entries[i].1);
            }
            i += 1;
        }
        None
    }

    pub fn contains_key(&self, key: &str) -> (r: bool)
        ensures
            r == self@.contains_key(key@),
    {
        self.get(key).is_some()
    }

    /// Puts a value under a key, in place of the value that was there.
    pub fn insert(&mut self, key: String, value: Value)
        ensures
            final(self)@ == old(self)@.insert(key@, value@),
    {
        proof {
            use_type_invariant(&*self);
        }
        let mut entries: Vec<(String, Value)> = Vec::new();
        std::mem::swap(&mut entries, &mut self.entries);
        self.entries = put(entries, key, value);
    }
}

impl Clone for Value {
    fn clone(&self) -> (r: Value)
        ensures
            r@ == self@,
        decreases self, 1int,
    {
        match self {
            Value::Null => Value::Null,
            Value::Bool(b) => Value::Bool(*b),
            Value::Number(n) => Value::Number(*n),
            Value::Text(s) => Value::Text(s.clone()),
            Value::Array(items) => {
                let mut out: Vec<Value> = Vec::new();
                let mut i: usize = 0;
                while i < items.len()
                    invariant
                        i <= items@.len(),
                        list_view(out@) == list_view(items@.take(i as int)),
                    decreases items@.len() - i,
                {
                    proof {
                        assert(decreases_to!(items@ => items@[i as int]));
                        assert(decreases_to!(items => items@));
                        assert(decreases_to!(self => items));
                    }
                    let item = (&items[i]).clone();
                    proof {
                        assert(items@.take(i + 1).drop_last() =~= items@.take(i as int));
                        assert(out@.push(item).drop_last() =~= out@);
                    }
                    out.push(item);
                    i += 1;
                }
                proof {
                    assert(items@.take(items@.len() as int) =~= items@);
                }
                Value::Array(out)
            },
            Value::Object(o) => {
                proof {
                    assert(decreases_to!(self => o));
                }
                Value::Object(o.clone())
            },
        }
    }
}

impl Clone for Object {
    fn clone(&self) -> (r: Object)
        ensures
            r@ == self@,
        decreases self, 0int,
    {
        let n: usize = self.len();
        let mut out = Object::new();
        let mut i: usize = 0;
        while i < n
            invariant
                i <= n == self.keys().len(),
                self.keys().no_duplicates(),
                forall|k: Seq<char>| #[trigger] self@.contains_key(k) <==> self.keys().contains(k),
                forall|k: Seq<char>| #[trigger]
                    out@.contains_key(k) <==> self.keys().take(i as int).contains(k),
                forall|k: Seq<char>| #[trigger] out@.contains_key(k) ==> out@[k] == self@[k],
            decreases n - i,
        {
            let (key, value) = self.entry(i);
            let copy = value.clone();
            let ghost before = out@;
            out.insert(key.clone(), copy);
            proof {
                lemma_take_contains(self.keys(), i as int);
            }
            i += 1;
        }
        proof {
            assert(self.keys().take(n as int) =~= self.keys());
            assert(out@ =~= self@);
        }
        out
    }
}

fn same_value(a: &Value, b: &Value) -> (r: bool)
    ensures
        r == (a@ == b@),
    decreases a, 1int,
{
    match (a, b) {
        (Value::Null, Value::Null) => true,
        (Value::Bool(x), Value::Bool(y)) => *x == *y,
        (Value::Number(x), Value::Number(y)) => x.same(y),
        (Value::Text(x), Value::Text(y)) => same_text(x.as_str(), y.as_str()),
        (Value::Array(x), Value::Array(y)) => {
            proof {
                lemma_list_view(x@);
                lemma_list_view(y@);
            }
            if x.len() != y.len() {
                return false;
            }
            let mut i: usize = 0;
            while i < x.len()
                invariant
                    i <= x@.len() == y@.len(),
                    forall|j: int| 0 <= j < i ==> value_view(#[trigger] x@[j]) == value_view(y@[j]),
                decreases x@.len() - i,
            {
                proof {
                    assert(decreases_to!(x@ => x@[i as int]));
                    assert(decreases_to!(x => x@));
                    assert(decreases_to!(a => x));
                }
                if !same_value(&x[i], &y[i]) {
                    proof {
                        assert(list_view(x@)[i as int] != list_view(y@)[i as int]);
                    }
                    return false;
                }
                i += 1;
            }
            proof {
                assert forall|j: int| 0 <= j < x@.len() implies list_view(x@)[j] == list_view(y@)[j] by {
                    assert(value_view(x@[j]) == value_view(y@[j]));
                }
                assert(list_view(x@) =~= list_view(y@));
            }
            true
        },
        (Value::Object(x), Value::Object(y)) => {
            proof {
                assert(decreases_to!(a => x));
            }
            same_object(x, y)
        },
        _ => false,
    }
}

fn same_object(a: &Object, b: &Object) -> (r: bool)
    ensures
        r == (a@ == b@),
    decreases a, 0int,
{
    let n: usize = a.len();
    let mut i: usize = 0;
    while i < n
        invariant
            i <= n == a.keys().len(),
            forall|j: int|
                0 <= j < i ==> b@.contains_key(#[trigger] a.keys()[j]) && b@[a.keys()[j]]
                    == a@[a.keys()[j]],
        decreases n - i,
    {
        let (key, value) = a.entry(i);
        match b.get(key.as_str()) {
            None => {
                return false;
            },
            Some(other) => {
                if !same_value(value, other) {
                    return false;
                }
            },
        }
        i += 1;
    }
    let m: usize = b.len();
    let mut j: usize = 0;
    while j < m
        invariant
            j <= m == b.keys().len(),
            forall|k: int| 0 <= k < j ==> a@.contains_key(#[trigger] b.keys()[k]),
        decreases m - j,
    {
        let (key, value) = b.entry(j);
        if !a.contains_key(key.as_str()) {
            return false;
        }
        j += 1;
    }
    proof {
        assert forall|k: Seq<char>| #[trigger] a@.contains_key(k) <==> b@.contains_key(k) by {
            if b@.contains_key(k) {
                let p = choose|p: int| 0 <= p < b.keys().len() && b.keys()[p] == k;
                assert(a@.contains_key(b.keys()[p]));
            }
            if a@.contains_key(k) {
                let p = choose|p: int| 0 <= p < a.keys().len() && a.keys()[p] == k;
                assert(b@.contains_key(a.keys()[p]));
            }
        }
        assert forall|k: Seq<char>| #[trigger] a@.contains_key(k) implies a@[k] == b@[k] by {
            let p = choose|p: int| 0 <= p < a.keys().len() && a.keys()[p] == k;
            assert(b@.contains_key(a.keys()[p]));
        }
        assert(a@ =~= b@);
    }
    true
}

impl PartialEq for Value {
    fn eq(&self, other: &Value) -> (r: bool) {
        same_value(self, other)
    }
}

impl vstd::std_specs::cmp::PartialEqSpecImpl for Value {
    open spec fn obeys_eq_spec() -> bool {
        true
    }

    open spec fn eq_spec(&self, other: &Value) -> bool {
        self@ == other@
    }
}

impl Json {
    /// The member of an object under a key.
    pub open spec fn member(self, key: Seq<char>) -> Option<Json> {
        match self {
            Json::Object(m) => if m.contains_key(key) {
                Some(m[key])
            } else {
                None
            },
            _ => None,
        }
    }

    pub open spec fn text(self) -> Option<Seq<char>> {
        match self {
            Json::Text(s) => Some(s),
            _ => None,
        }
    }
}

impl Value {
    pub fn as_str(&self) -> (r: Option<&str>)
        ensures
            r matches Some(s) ==> self@.text() == Some(s@),
            r is None ==> self@.text() is None,
    {
        match self {
            Value::Text(s) => Some(s.as_str()),
            _ => None,
        }
    }

    /// The member of an object under a key.
    pub fn get(&self, key: &str) -> (r: Option<&Value>)
        ensures
            r matches Some(v) ==> self@.member(key@) == Some(v@),
            r is None ==> self@.member(key@) is None,
    {
        match self {
            Value::Object(o) => o.get(key),
            _ => None,
        }
    }

    pub fn is_object(&self) -> (r: bool)
        ensures
            r == (self@ is Object),
    {
        match self {
            Value::Object(_) => true,
            _ => false,
        }
    }

    /// The value as a signed integer, if it is an integer that fits.
    pub fn as_i64(&self) -> (r: Option<i64>)
        ensures
            r == (match self@ {
                Json::Number(n) => n.i64_of(),
                _ => None,
            }),
    {
        match self {
            Value::Number(n) => n.as_i64(),
            _ => None,
        }
    }

    /// The value as an unsigned integer, if it is one.
    pub fn as_u64(&self) -> (r: Option<u64>)
        ensures
            r == (match self@ {
                Json::Number(n) => n.u64_of(),
                _ => None,
            }),
    {
        match self {
            Value::Number(n) => n.as_u64(),
            _ => None,
        }
    }
}

} // verus!
