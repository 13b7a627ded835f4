//! A JSON value model: the documents that the library reads and rewrites.
use vstd::prelude::*;

use crate::text::str_eq;

verus! {

/// A JSON number as a parsed document holds it: a non-negative integer,
/// a negative integer, or a double held by its IEEE-754 bit pattern.
#[derive(Debug, Clone, Copy, PartialEq)]
pub enum JsonNumber {
    PosInt(u64),
    NegInt(i64),
    Float(u64),
}

/// A JSON value.
#[derive(Debug, PartialEq)]
pub enum Json {
    Null,
    Bool(bool),
    Number(JsonNumber),
    String(String),
    Array(Vec<Json>),
    Object(JsonMap),
}

/// A JSON object: entries with pairwise distinct keys.  Its view is the map
/// from key to value; the order of the entries carries no meaning.
#[derive(Debug, PartialEq)]
pub struct JsonMap {
    entries: Vec<(String, Json)>,
}

impl JsonMap {
    /// The entries, in storage order.
    pub closed spec fn entry_seq(self) -> Seq<(String, Json)> {
        self.entries@
    }

    /// No key occurs twice.
    #[verifier::type_invariant]
    pub closed spec fn keys_unique(self) -> bool {
        forall|i: int, j: int|
            0 <= i < self.entries@.len() && 0 <= j < self.entries@.len() && i != j
                ==> #[trigger] self.entries@[i].0@ != #[trigger] self.entries@[j].0@
    }

    /// Whether some entry has key `k`.
    pub open spec fn has_key_at(self, k: Seq<char>) -> bool {
        exists|i: int| 0 <= i < self.entry_seq().len() && #[trigger] self.entry_seq()[i].0@ == k
    }
}

impl View for JsonMap {
    type V = Map<Seq<char>, Json>;

    open spec fn view(&self) -> Map<Seq<char>, Json> {
        Map::new(
            |k: Seq<char>| self.has_key_at(k),
            |k: Seq<char>|
                self.entry_seq()[choose|i: int|
                    0 <= i < self.entry_seq().len() && #[trigger] self.entry_seq()[i].0@ == k].1,
        )
    }
}

/// The value under `k` in `m`, if any.
pub open spec fn map_get(m: Map<Seq<char>, Json>, k: Seq<char>) -> Option<Json> {
    if m.contains_key(k) {
        Some(m[k])
    } else {
        None
    }
}

impl JsonMap {
    /// The entry at `i` is what the view holds under its key.
    pub proof fn lemma_entry_in_view(self, i: int)
        requires
            self.keys_unique(),
            0 <= i < self.entry_seq().len(),
        ensures
            self@.contains_key(self.entry_seq()[i].0@),
            self@[self.entry_seq()[i].0@] == self.entry_seq()[i].1,
    {
        let k = self.entry_seq()[i].0@;
        assert(self.has_key_at(k));
        let j = choose|j: int| 0 <= j < self.entry_seq().len() && #[trigger] self.entry_seq()[j].0@ == k;
        assert(self.entry_seq()[j].0@ == self.entry_seq()[i].0@);
    }

    /// An empty object.
    pub fn new() -> (m: JsonMap)
        ensures
            m@ == Map::<Seq<char>, Json>::empty(),
    {
        let m = JsonMap { entries: Vec::new() };
        assert(m@ =~= Map::<Seq<char>, Json>::empty());
        m
    }

    /// The number of entries.
    pub fn len(&self) -> (n: usize)
        ensures
            n == self@.len(),
    {
        proof {
            use_type_invariant(self);
            self.lemma_len();
        }
        self.entries.len()
    }

    /// Whether the object has no entry.
    pub fn is_empty(&self) -> (b: bool)
        ensures
            b == (self@ == Map::<Seq<char>, Json>::empty()),
    {
        proof {
            use_type_invariant(self);
            self.lemma_len();
            if self.entries@.len() > 0 {
                self.lemma_entry_in_view(0);
                assert(!Map::<Seq<char>, Json>::empty().contains_key(self.entries@[0].0@));
            } else {
                assert(self@ =~= Map::<Seq<char>, Json>::empty());
            }
        }
        self.entries.len() == 0
    }

    proof fn lemma_len(self)
        requires
            self.keys_unique(),
        ensures
            self@.dom().finite(),
            self@.len() == self.entry_seq().len(),
        decreases self.entry_seq().len(),
    {
        let s = self.entry_seq();
        let keys = s.map_values(|e: (String, Json)| e.0@);
        assert forall|i: int, j: int| 0 <= i < keys.len() && 0 <= j < keys.len() && i != j implies keys[i] != keys[j] by {
            assert(s[i].0@ != s[j].0@);
        }
        assert(keys.no_duplicates());
        keys.unique_seq_to_set();
        assert(self@.dom() =~= keys.to_set()) by {
            assert forall|k: Seq<char>| self@.dom().contains(k) implies keys.to_set().contains(k) by {
                let i = choose|i: int| 0 <= i < s.len() && #[trigger] s[i].0@ == k;
                assert(keys[i] == k);
            }
            assert forall|k: Seq<char>| keys.to_set().contains(k) implies self@.dom().contains(k) by {
                let i = choose|i: int| 0 <= i < keys.len() && keys[i] == k;
                assert(s[i].0@ == k);
            }
        }
    }

    /// The position of the entry with key `key`, if any.
    fn position(&self, key: &str) -> (r: Option<usize>)
        ensures
            match r {
                Some(i) => i < self.entry_seq().len() && self.entry_seq()[i as int].0@ == key@,
                None => !self@.contains_key(key@),
            },
    {
        let n = self.entries.len();
        let mut i: usize = 0;
        while i < n
            invariant
                n == self.entries@.len(),
                i <= n,
                forall|j: int| 0 <= j < i ==> self.entries@[j].0@ != key@,
            decreases n - i,
        {
            if str_eq(self.entries[i].0.as_str(), key) {
                return Some(i);
            }
            i = i + 1;
        }
        None
    }

    /// Whether the object has an entry with key `key`.
    pub fn contains_key(&self, key: &str) -> (b: bool)
        ensures
            b == self@.contains_key(key@),
    {
        self.position(key).is_some()
    }

    /// The value under `key`, if any.
    pub fn get(&self, key: &str) -> (r: Option<&Json>)
        ensures
            match r {
                Some(v) => self@.contains_key(key@) && *v == self@[key@],
                None => !self@.contains_key(key@),
            },
    {
        proof {
            use_type_invariant(self);
        }
        match self.position(key) {
            Some(i) => {
                proof {
                    self.lemma_entry_in_view(i as int);
                }
                Some(&self.entries[i].1)
            },
            None => None,
        }
    }

    /// Sets the value under `key`; returns the value it replaced, if any.
    pub fn insert(&mut self, key: String, value: Json) -> (r: Option<Json>)
        ensures
            final(self)@ == old(self)@.insert(key@, value),
            r == map_get(old(self)@, key@),
    {
        proof {
            use_type_invariant(&*self);
        }
        let ghost k = key@;
        let ghost v = value;
        match self.position(key.as_str()) {
            Some(i) => {
                proof {
                    self.lemma_entry_in_view(i as int);
                }
                let ghost before = self.entries@;
                let mut entries: Vec<(String, Json)> = Vec::new();
                std::mem::swap(&mut entries, &mut self.entries);
                let old_entry = entries.remove(i);
                entries.insert(i, (key, value));
                proof {
                    let after = entries@;
                    assert(after =~= before.update(i as int, (after[i as int].0, v)));
                    assert forall|a: int, b: int|
                        0 <= a < after.len() && 0 <= b < after.len() && a != b
                        implies #[trigger] after[a].0@ != #[trigger] after[b].0@ by {
                        assert(before[a].0@ != before[b].0@);
                    }
                }
                self.entries = entries;
                proof {
                    let after = self.entries@;
                    assert(after =~= before.update(i as int, (after[i as int].0, v)));
                    assert forall|a: int, b: int|
                        0 <= a < after.len() && 0 <= b < after.len() && a != b
                        implies #[trigger] after[a].0@ != #[trigger] after[b].0@ by {
                        assert(before[a].0@ != before[b].0@);
                    }
                    assert(self.keys_unique());
                    assert forall|q: Seq<char>| #[trigger] self@.contains_key(q) == old(self)@.insert(k, v).contains_key(q) by {
                        if old(self)@.contains_key(q) {
                            let j = choose|j: int| 0 <= j < before.len() && #[trigger] before[j].0@ == q;
                            assert(after[j].0@ == q);
                        }
                        if self@.contains_key(q) {
                            let j = choose|j: int| 0 <= j < after.len() && #[trigger] after[j].0@ == q;
                            assert(before[j].0@ == q);
                        }
                        assert(after[i as int].0@ == k);
                    }
                    assert forall|q: Seq<char>| #[trigger] self@.contains_key(q) implies self@[q] == old(self)@.insert(k, v)[q] by {
                        let j = choose|j: int| 0 <= j < after.len() && #[trigger] after[j].0@ == q;
                        self.lemma_entry_in_view(j);
                        if j != i {
                            old(self).lemma_entry_in_view(j);
                        }
                    }
                    assert(self@ =~= old(self)@.insert(k, v));
                }
                Some(old_entry.1)
            },
            None => {
                let ghost before = self.entries@;
                let mut entries: Vec<(String, Json)> = Vec::new();
                std::mem::swap(&mut entries, &mut self.entries);
                entries.push((key, value));
                proof {
                    let after = entries@;
                    assert forall|a: int, b: int|
                        0 <= a < after.len() && 0 <= b < after.len() && a != b
                        implies #[trigger] after[a].0@ != #[trigger] after[b].0@ by {
                        if a < before.len() && b < before.len() {
                            assert(before[a].0@ != before[b].0@);
                        } else if a < before.len() {
                            assert(before[a] == after[a]);
                            assert(old(self).has_key_at(before[a].0@));
                        } else {
                            assert(before[b] == after[b]);
                            assert(old(self).has_key_at(before[b].0@));
                        }
                    }
                }
                self.entries = entries;
                proof {
                    let after = self.entries@;
                    assert forall|a: int, b: int|
                        0 <= a < after.len() && 0 <= b < after.len() && a != b
                        implies #[trigger] after[a].0@ != #[trigger] after[b].0@ by {
                        if a < before.len() && b < before.len() {
                            assert(before[a].0@ != before[b].0@);
                        } else if a < before.len() {
                            assert(before[a] == after[a]);
                            assert(old(self).has_key_at(before[a].0@));
                        } else {
                            assert(before[b] == after[b]);
                            assert(old(self).has_key_at(before[b].0@));
                        }
                    }
                    assert(self.keys_unique());
                    assert forall|q: Seq<char>| #[trigger] self@.contains_key(q) == old(self)@.insert(k, v).contains_key(q) by {
                        if old(self)@.contains_key(q) {
                            let j = choose|j: int| 0 <= j < before.len() && #[trigger] before[j].0@ == q;
                            assert(after[j].0@ == q);
                        }
                        if self@.contains_key(q) && q != k {
                            let j = choose|j: int| 0 <= j < after.len() && #[trigger] after[j].0@ == q;
                            assert(before[j].0@ == q);
                        }
                        assert(after[before.len() as int].0@ == k);
                    }
                    assert forall|q: Seq<char>| #[trigger] self@.contains_key(q) implies self@[q] == old(self)@.insert(k, v)[q] by {
                        let j = choose|j: int| 0 <= j < after.len() && #[trigger] after[j].0@ == q;
                        self.lemma_entry_in_view(j);
                        if j < before.len() {
                            old(self).lemma_entry_in_view(j);
                        }
                    }
                    assert(self@ =~= old(self)@.insert(k, v));
                }
                None
            },
        }
    }
}


impl JsonMap {
    /// Removes the entry with key `key`; returns its value, if there was one.
    pub fn remove(&mut self, key: &str) -> (r: Option<Json>)
        ensures
            final(self)@ == old(self)@.remove(key@),
            r == map_get(old(self)@, key@),
            r is None ==> *final(self) == *old(self),
    {
        proof {
            use_type_invariant(&*self);
        }
        let ghost k = key@;
        match self.position(key) {
            Some(i) => {
                proof {
                    self.lemma_entry_in_view(i as int);
                }
                let ghost before = self.entries@;
                let mut entries: Vec<(String, Json)> = Vec::new();
                std::mem::swap(&mut entries, &mut self.entries);
                let old_entry = entries.remove(i);
                proof {
                    let after = entries@;
                    assert(after =~= before.remove(i as int));
                    assert forall|a: int, b: int|
                        0 <= a < after.len() && 0 <= b < after.len() && a != b
                        implies #[trigger] after[a].0@ != #[trigger] after[b].0@ by {
                        let a2 = if a < i { a } else { a + 1 };
                        let b2 = if b < i { b } else { b + 1 };
                        assert(after[a] == before[a2]);
                        assert(after[b] == before[b2]);
                        assert(before[a2].0@ != before[b2].0@);
                    }
                }
                self.entries = entries;
                proof {
                    let after = self.entries@;
                    assert forall|q: Seq<char>| #[trigger] self@.contains_key(q) == old(self)@.remove(k).contains_key(q) by {
                        if old(self)@.contains_key(q) && q != k {
                            let j = choose|j: int| 0 <= j < before.len() && #[trigger] before[j].0@ == q;
                            assert(j != i);
                            let j2 = if j < i { j } else { j - 1 };
                            assert(after[j2] == before[j]);
                        }
                        if self@.contains_key(q) {
                            let j = choose|j: int| 0 <= j < after.len() && #[trigger] after[j].0@ == q;
                            let j2 = if j < i { j } else { j + 1 };
                            assert(after[j] == before[j2]);
                            assert(before[j2].0@ != before[i as int].0@);
                        }
                    }
                    assert forall|q: Seq<char>| #[trigger] self@.contains_key(q) implies self@[q] == old(self)@.remove(k)[q] by {
                        let j = choose|j: int| 0 <= j < after.len() && #[trigger] after[j].0@ == q;
                        let j2 = if j < i { j } else { j + 1 };
                        assert(after[j] == before[j2]);
                        self.lemma_entry_in_view(j);
                        old(self).lemma_entry_in_view(j2);
                    }
                    assert(self@ =~= old(self)@.remove(k));
                }
                Some(old_entry.1)
            },
            None => {
                assert(old(self)@.remove(k) =~= old(self)@);
                None
            },
        }
    }

    /// The entries, in storage order.
    pub fn entries(&self) -> (r: &Vec<(String, Json)>)
        ensures
            r@ == self.entry_seq(),
    {
        &self.entries
    }
}

/// The value an optional reference points to.
pub open spec fn deref_opt(v: Option<&Json>) -> Option<Json> {
    match v {
        Some(x) => Some(*x),
        None => None,
    }
}

/// The value under `k` when `v` is an object, as `Value::get` gives it.
pub open spec fn member(v: Json, k: Seq<char>) -> Option<Json> {
    match v {
        Json::Object(m) => map_get(m@, k),
        _ => None,
    }
}

/// The text of `v` when it is a string.
pub open spec fn str_value(v: Option<Json>) -> Option<Seq<char>> {
    match v {
        Some(Json::String(s)) => Some(s@),
        _ => None,
    }
}

/// The elements of `v` when it is an array.
pub open spec fn array_value(v: Option<Json>) -> Option<Seq<Json>> {
    match v {
        Some(Json::Array(a)) => Some(a@),
        _ => None,
    }
}

/// The boolean `v` holds, if it is one.
pub open spec fn bool_value(v: Option<Json>) -> Option<bool> {
    match v {
        Some(Json::Bool(b)) => Some(b),
        _ => None,
    }
}

impl Json {
    /// The value under `key` when this is an object (`Value::get`).
    pub fn get(&self, key: &str) -> (r: Option<&Json>)
        ensures
            match r {
                Some(v) => member(*self, key@) == Some(*v),
                None => member(*self, key@) is None,
            },
    {
        match self {
            Json::Object(m) => m.get(key),
            _ => None,
        }
    }

    /// The text when this is a string (`Value::as_str`).
    pub fn as_str(&self) -> (r: Option<&str>)
        ensures
            match r {
                Some(s) => str_value(Some(*self)) == Some(s@),
                None => str_value(Some(*self)) is None,
            },
    {
        match self {
            Json::String(s) => Some(s.as_str()),
            _ => None,
        }
    }

    /// The elements when this is an array (`Value::as_array`).
    pub fn as_array(&self) -> (r: Option<&Vec<Json>>)
        ensures
            match r {
                Some(a) => *self == Json::Array(*a),
                None => !(*self is Array),
            },
    {
        match self {
            Json::Array(a) => Some(a),
            _ => None,
        }
    }

    /// The object when this is one (`Value::as_object`).
    pub fn as_object(&self) -> (r: Option<&JsonMap>)
        ensures
            match r {
                Some(m) => *self == Json::Object(*m),
                None => !(*self is Object),
            },
    {
        match self {
            Json::Object(m) => Some(m),
            _ => None,
        }
    }

    /// The boolean when this is one (`Value::as_bool`).
    pub fn as_bool(&self) -> (r: Option<bool>)
        ensures
            r == bool_value(Some(*self)),
    {
        match self {
            Json::Bool(b) => Some(*b),
            _ => None,
        }
    }

    /// Whether this is `null`.
    pub fn is_null(&self) -> (b: bool)
        ensures
            b == (*self is Null),
    {
        match self {
            Json::Null => true,
            _ => false,
        }
    }
}

/// `a` and `b` hold the same document: equal scalars and strings, arrays
/// of the same length whose elements pair up, and objects whose entries
/// pair up key for key in the same order.
pub closed spec fn same_json(a: Json, b: Json) -> bool
    decreases a,
{
    match a {
        Json::Array(x) => match b {
            Json::Array(y) => x@.len() == y@.len() && forall|i: int|
                0 <= i < x@.len() ==> same_json(#[trigger] x@[i], y@[i]),
            _ => false,
        },
        Json::Object(m) => match b {
            Json::Object(n) => m.entries@.len() == n.entries@.len() && forall|i: int|
                0 <= i < m.entries@.len() ==> #[trigger] m.entries@[i].0@ == n.entries@[i].0@
                    && same_json(m.entries@[i].1, n.entries@[i].1),
            _ => false,
        },
        Json::String(s) => match b {
            Json::String(t) => s@ == t@,
            _ => false,
        },
        _ => a == b,
    }
}

/// `p` is the integer `n`.
pub open spec fn is_integer(p: Json, n: int) -> bool {
    ||| p matches Json::Number(JsonNumber::PosInt(u)) && u == n
    ||| p matches Json::Number(JsonNumber::NegInt(i)) && i == n
}

/// `p` holds the same document as `v`, up to the order of object entries
/// and the form an integer is held in: equal scalars and strings, arrays
/// whose elements pair up, and objects with the same keys whose values
/// pair up.
pub closed spec fn same_doc(p: Json, v: Json) -> bool
    decreases v,
{
    match v {
        Json::Number(JsonNumber::PosInt(u)) => is_integer(p, u as int),
        Json::Number(JsonNumber::NegInt(i)) => is_integer(p, i as int),
        Json::String(s) => p matches Json::String(t) && t@ == s@,
        Json::Array(items) => p matches Json::Array(ps) && ps@.len() == items@.len() && forall|i: int|
            0 <= i < items@.len() ==> same_doc(ps@[i], #[trigger] items@[i]),
        Json::Object(m) => p matches Json::Object(pm) && pm@.dom() == m@.dom() && forall|i: int|
            0 <= i < m.entries@.len() ==> same_doc(
                pm@[(#[trigger] m.entries@[i]).0@],
                m.entries@[i].1,
            ),
        _ => p == v,
    }
}

/// A document read as the same as a string is that string.
pub proof fn lemma_same_doc_string(p: Json, v: Json)
    requires
        same_doc(p, v),
        v is String,
    ensures
        str_value(Some(p)) == str_value(Some(v)),
{
}

/// A document read as the same as an object has the same keys, each with
/// the same value.
pub proof fn lemma_same_doc_member(p: Json, v: Json, k: Seq<char>)
    requires
        same_doc(p, v),
        v is Object,
        member(v, k) is Some,
    ensures
        p is Object,
        member(p, k) matches Some(x) && same_doc(x, member(v, k)->0),
{
    let m = v->Object_0;
    let pm = p->Object_0;
    assert(m.has_key_at(k));
    let j = choose|j: int| 0 <= j < m.entry_seq().len() && #[trigger] m.entry_seq()[j].0@ == k;
    assert(m.entries@[j].0@ == k);
    assert(same_doc(pm@[m.entries@[j].0@], m.entries@[j].1));
}

/// `v` nests arrays and objects at most `d` deep.
pub closed spec fn depth_within(v: Json, d: nat) -> bool
    decreases v,
{
    match v {
        Json::Array(items) => d > 0 && forall|i: int|
            0 <= i < items@.len() ==> depth_within(#[trigger] items@[i], (d - 1) as nat),
        Json::Object(m) => d > 0 && forall|i: int|
            0 <= i < m.entries@.len() ==> depth_within((#[trigger] m.entries@[i]).1, (d - 1) as nat),
        _ => true,
    }
}

/// Scalars nest nothing.
pub proof fn lemma_depth_scalar(v: Json, d: nat)
    requires
        !(v is Array),
        !(v is Object),
    ensures
        depth_within(v, d),
{
}

/// An object nests one level more than its values.
pub proof fn lemma_depth_object(m: JsonMap, d: nat)
    requires
        m.keys_unique(),
        d > 0,
        forall|k: Seq<char>| #[trigger] m@.contains_key(k) ==> depth_within(m@[k], (d - 1) as nat),
    ensures
        depth_within(Json::Object(m), d),
{
    assert forall|i: int| 0 <= i < m.entries@.len() implies depth_within(
        (#[trigger] m.entries@[i]).1,
        (d - 1) as nat,
    ) by {
        m.lemma_entry_in_view(i);
    }
}

/// Copies of optional documents: both absent, or both present and the same.
pub open spec fn same_json_opt(a: Option<Json>, b: Option<Json>) -> bool {
    match (a, b) {
        (Some(x), Some(y)) => same_json(x, y),
        (None, None) => true,
        _ => false,
    }
}

impl Json {
    /// A copy of this document.
    pub fn deep_copy(&self) -> (r: Json)
        ensures
            same_json(r, *self),
        decreases self,
    {
        match self {
            Json::Null => Json::Null,
            Json::Bool(b) => Json::Bool(*b),
            Json::Number(n) => Json::Number(*n),
            Json::String(s) => Json::String(s.clone()),
            Json::Array(items) => {
                let mut out: Vec<Json> = Vec::new();
                let n = items.len();
                for i in 0..n
                    invariant
                        n == items@.len(),
                        *self == Json::Array(*items),
                        out@.len() == i,
                        forall|j: int| 0 <= j < i ==> same_json(#[trigger] out@[j], items@[j]),
                {
                    proof {
                        assert(decreases_to!(*self => (*self)->Array_0));
                        assert(decreases_to!(*items => items[i as int]));
                    }
                    let c = items[i].deep_copy();
                    out.push(c);
                }
                Json::Array(out)
            },
            Json::Object(m) => {
                proof {
                    use_type_invariant(m);
                }
                let mut out: Vec<(String, Json)> = Vec::new();
                let n = m.entries.len();
                for i in 0..n
                    invariant
                        n == m.entries@.len(),
                        *self == Json::Object(*m),
                        m.keys_unique(),
                        out@.len() == i,
                        forall|j: int|
                            0 <= j < i ==> (#[trigger] out@[j]).0 == m.entries@[j].0 && same_json(
                                out@[j].1,
                                m.entries@[j].1,
                            ),
                {
                    proof {
                        assert(decreases_to!(*self => (*self)->Object_0));
                        assert(decreases_to!(*m => m.entries));
                        assert(decreases_to!(m.entries => m.entries[i as int]));
                        assert(decreases_to!(m.entries[i as int] => m.entries[i as int].1));
                    }
                    let k = m.entries[i].0.clone();
                    let v = m.entries[i].1.deep_copy();
                    out.push((k, v));
                    assert(out@[i as int].0 == m.entries@[i as int].0);
                }
                assert forall|i: int, j: int|
                    0 <= i < out@.len() && 0 <= j < out@.len() && i != j implies #[trigger] out@[i].0@
                    != #[trigger] out@[j].0@ by {
                    assert(out@[i].0 == m.entries@[i].0);
                    assert(out@[j].0 == m.entries@[j].0);
                }
                Json::Object(JsonMap { entries: out })
            },
        }
    }
}

/// No number in `v` is a double.
pub closed spec fn float_free(v: Json) -> bool
    decreases v,
{
    match v {
        Json::Number(JsonNumber::Float(_)) => false,
        Json::Array(items) => forall|i: int| 0 <= i < items@.len() ==> float_free(#[trigger] items@[i]),
        Json::Object(m) => forall|i: int| 0 <= i < m.entries@.len() ==> float_free(#[trigger] m.entries@[i].1),
        _ => true,
    }
}

/// One level of `float_free`.
pub broadcast proof fn lemma_float_free_unfold(v: Json)
    ensures
        #[trigger] float_free(v) == match v {
            Json::Number(JsonNumber::Float(_)) => false,
            Json::Array(items) => forall|i: int| 0 <= i < items@.len() ==> float_free(#[trigger] items@[i]),
            Json::Object(m) => forall|i: int|
                0 <= i < m.entry_seq().len() ==> float_free(#[trigger] m.entry_seq()[i].1),
            _ => true,
        },
{
    match v {
        Json::Object(m) => {
            assert(m.entry_seq() == m.entries@);
            if float_free(v) {
                assert forall|i: int| 0 <= i < m.entry_seq().len() implies float_free(#[trigger] m.entry_seq()[i].1) by {
                    assert(float_free(m.entries@[i].1));
                }
            }
            if forall|i: int| 0 <= i < m.entry_seq().len() ==> float_free(#[trigger] m.entry_seq()[i].1) {
                assert forall|i: int| 0 <= i < m.entries@.len() implies float_free(#[trigger] m.entries@[i].1) by {
                    assert(float_free(m.entry_seq()[i].1));
                }
            }
        },
        _ => {},
    }
}

/// An object is free of doubles when every value it holds is.
pub proof fn lemma_float_free_object(m: JsonMap)
    requires
        m.keys_unique(),
        forall|k: Seq<char>| #[trigger] m@.contains_key(k) ==> float_free(m@[k]),
    ensures
        float_free(Json::Object(m)),
{
    lemma_float_free_unfold(Json::Object(m));
    assert forall|i: int| 0 <= i < m.entry_seq().len() implies float_free(#[trigger] m.entry_seq()[i].1) by {
        m.lemma_entry_in_view(i);
    }
}

/// An array is free of doubles when every element is.
pub proof fn lemma_float_free_array(items: Vec<Json>)
    requires
        forall|i: int| 0 <= i < items@.len() ==> float_free(#[trigger] items@[i]),
    ensures
        float_free(Json::Array(items)),
{
    lemma_float_free_unfold(Json::Array(items));
}

/// Strings, booleans, `null` and integers hold no double.
pub proof fn lemma_float_free_scalar(v: Json)
    requires
        !(v is Array),
        !(v is Object),
        !(v matches Json::Number(JsonNumber::Float(_))),
    ensures
        float_free(v),
{
    lemma_float_free_unfold(v);
}

} // verus!
