//! A JSON document as plain values, and the queries the library makes of it.
//!
//! Objects keep their entries in order; `get` finds the first entry with the
//! key (documents read from disk hold each key once).
use vstd::prelude::*;

use crate::text;

verus! {

/// A JSON number, as `serde_json` distinguishes them.
#[derive(Debug)]
pub enum JsonNumber {
    /// A non-negative integer.
    PosInt(u64),
    /// A negative integer.
    NegInt(i64),
    /// Any other number, kept in its textual form.
    Float(String),
}

/// A JSON value.
#[derive(Debug)]
pub enum Json {
    Null,
    Bool(bool),
    Number(JsonNumber),
    Str(String),
    Array(Vec<Json>),
    Object(Vec<(String, Json)>),
}

/// Mathematical model of a JSON number.
pub enum NumV {
    PosInt(u64),
    NegInt(i64),
    Float(Seq<char>),
}

/// Mathematical model of a JSON value.
pub enum JsonV {
    Null,
    Bool(bool),
    Number(NumV),
    Str(Seq<char>),
    Array(Seq<JsonV>),
    Object(Seq<(Seq<char>, JsonV)>),
}

pub open spec fn num_view(n: JsonNumber) -> NumV {
    match n {
        JsonNumber::PosInt(u) => NumV::PosInt(u),
        JsonNumber::NegInt(i) => NumV::NegInt(i),
        JsonNumber::Float(s) => NumV::Float(s@),
    }
}

/// The model of a JSON value.
pub open spec fn json_view(j: Json) -> JsonV
    decreases j, 1int,
{
    match j {
        Json::Null => JsonV::Null,
        Json::Bool(b) => JsonV::Bool(b),
        Json::Number(n) => JsonV::Number(num_view(n)),
        Json::Str(s) => JsonV::Str(s@),
        Json::Array(v) => {
            proof {
                broadcast use vstd::std_specs::vec::axiom_vec_decreases_to_view;
                assert(decreases_to!(v => v@));
            }
            JsonV::Array(items_view(v@))
        },
        Json::Object(v) => {
            proof {
                broadcast use vstd::std_specs::vec::axiom_vec_decreases_to_view;
                assert(decreases_to!(v => v@));
            }
            JsonV::Object(entries_view(v@))
        },
    }
}

/// The models of a sequence of JSON values.
pub open spec fn items_view(s: Seq<Json>) -> Seq<JsonV>
    decreases s, 0int,
{
    if s.len() == 0 {
        seq![]
    } else {
        seq![json_view(s[0])] + items_view(s.drop_first())
    }
}

/// The models of a sequence of object entries.
pub open spec fn entries_view(s: Seq<(String, Json)>) -> Seq<(Seq<char>, JsonV)>
    decreases s, 0int,
{
    if s.len() == 0 {
        seq![]
    } else {
        seq![(s[0].0@, json_view(s[0].1))] + entries_view(s.drop_first())
    }
}

impl View for Json {
    type V = JsonV;

    open spec fn view(&self) -> JsonV {
        json_view(*self)
    }
}

/// First entry of `entries` whose key is `key`.
pub open spec fn entries_get(entries: Seq<(Seq<char>, JsonV)>, key: Seq<char>) -> Option<JsonV>
    decreases entries.len(),
{
    if entries.len() == 0 {
        None
    } else if entries[0].0 == key {
        Some(entries[0].1)
    } else {
        entries_get(entries.drop_first(), key)
    }
}

/// `Value::get` with a string key: the member of an object, `None` otherwise.
pub open spec fn get(j: JsonV, key: Seq<char>) -> Option<JsonV> {
    match j {
        JsonV::Object(entries) => entries_get(entries, key),
        _ => None,
    }
}

/// `Value::as_str`.
pub open spec fn as_str(j: JsonV) -> Option<Seq<char>> {
    match j {
        JsonV::Str(s) => Some(s),
        _ => None,
    }
}

/// `Value::as_i64`.
pub open spec fn as_i64(j: JsonV) -> Option<i64> {
    match j {
        JsonV::Number(NumV::PosInt(u)) => if u <= i64::MAX as u64 {
            Some(u as i64)
        } else {
            None
        },
        JsonV::Number(NumV::NegInt(i)) => Some(i),
        _ => None,
    }
}

/// `Value::as_u64`.
pub open spec fn as_u64(j: JsonV) -> Option<u64> {
    match j {
        JsonV::Number(NumV::PosInt(u)) => Some(u),
        _ => None,
    }
}

/// `Value::as_bool`.
pub open spec fn as_bool(j: JsonV) -> Option<bool> {
    match j {
        JsonV::Bool(b) => Some(b),
        _ => None,
    }
}

/// `Value::as_array`.
pub open spec fn as_array(j: JsonV) -> Option<Seq<JsonV>> {
    match j {
        JsonV::Array(v) => Some(v),
        _ => None,
    }
}

/// `v.get(key).and_then(as_str)`.
pub open spec fn get_str(j: JsonV, key: Seq<char>) -> Option<Seq<char>> {
    match get(j, key) {
        Some(v) => as_str(v),
        None => None,
    }
}

/// `v.get(key).and_then(as_i64)`.
pub open spec fn get_i64(j: JsonV, key: Seq<char>) -> Option<i64> {
    match get(j, key) {
        Some(v) => as_i64(v),
        None => None,
    }
}

/// `v.get(key).and_then(as_u64)`.
pub open spec fn get_u64(j: JsonV, key: Seq<char>) -> Option<u64> {
    match get(j, key) {
        Some(v) => as_u64(v),
        None => None,
    }
}

/// `v.get(key).and_then(as_bool)`.
pub open spec fn get_bool(j: JsonV, key: Seq<char>) -> Option<bool> {
    match get(j, key) {
        Some(v) => as_bool(v),
        None => None,
    }
}

/// `v.get(key).and_then(as_array)`.
pub open spec fn get_array(j: JsonV, key: Seq<char>) -> Option<Seq<JsonV>> {
    match get(j, key) {
        Some(v) => as_array(v),
        None => None,
    }
}

/// `opt.unwrap_or(d)` for character sequences.
pub open spec fn str_or(o: Option<Seq<char>>, d: Seq<char>) -> Seq<char> {
    match o {
        Some(s) => s,
        None => d,
    }
}

/// `opt.unwrap_or(d)` for integers.
pub open spec fn i64_or(o: Option<i64>, d: i64) -> i64 {
    match o {
        Some(x) => x,
        None => d,
    }
}

/// Each model in `items_view(s)` is the model of the value at the same index.
pub proof fn lemma_items_view(s: Seq<Json>)
    ensures
        items_view(s).len() == s.len(),
        forall|k: int| 0 <= k < s.len() ==> #[trigger] items_view(s)[k] == json_view(s[k]),
    decreases s.len(),
{
    if s.len() > 0 {
        lemma_items_view(s.drop_first());
        assert forall|k: int| 0 <= k < s.len() implies #[trigger] items_view(s)[k] == json_view(
            s[k],
        ) by {
            if k > 0 {
                assert(s.drop_first()[k - 1] == s[k]);
            }
        }
    }
}

/// Each model in `entries_view(s)` is the model of the entry at the same index.
pub proof fn lemma_entries_view(s: Seq<(String, Json)>)
    ensures
        entries_view(s).len() == s.len(),
        forall|k: int|
            0 <= k < s.len() ==> #[trigger] entries_view(s)[k] == (s[k].0@, json_view(s[k].1)),
    decreases s.len(),
{
    if s.len() > 0 {
        lemma_entries_view(s.drop_first());
        assert forall|k: int| 0 <= k < s.len() implies #[trigger] entries_view(s)[k] == (
            s[k].0@,
            json_view(s[k].1),
        ) by {
            if k > 0 {
                assert(s.drop_first()[k - 1] == s[k]);
            }
        }
    }
}

impl Clone for JsonNumber {
    fn clone(&self) -> (r: Self)
        ensures
            num_view(r) == num_view(*self),
    {
        match self {
            JsonNumber::PosInt(u) => JsonNumber::PosInt(*u),
            JsonNumber::NegInt(i) => JsonNumber::NegInt(*i),
            JsonNumber::Float(s) => JsonNumber::Float(s.clone()),
        }
    }
}

impl Clone for Json {
    #[verifier::loop_isolation(false)]
    fn clone(&self) -> (r: Self)
        ensures
            r@ == self@,
        decreases self,
    {
        match self {
            Json::Null => Json::Null,
            Json::Bool(b) => Json::Bool(*b),
            Json::Number(n) => Json::Number(n.clone()),
            Json::Str(s) => Json::Str(s.clone()),
            Json::Array(items) => {
                let mut out: Vec<Json> = Vec::new();
                let mut i: usize = 0;
                while i < items.len()
                    invariant
                        i <= items@.len(),
                        out@.len() == i,
                        forall|k: int| 0 <= k < i ==> json_view(#[trigger] out@[k]) == json_view(items@[k]),
                    decreases items.len() - i,
                {
                    proof {
                        broadcast use vstd::std_specs::vec::axiom_vec_index_decreases;
                        assert(decreases_to!(items => items[i as int]));
                        assert(decreases_to!(*self => items));
                        assert(decreases_to!(*self => items[i as int]));
                    }
                    let c = items[i].clone();
                    out.push(c);
                    i = i + 1;
                }
                proof {
                    lemma_items_view(out@);
                    lemma_items_view(items@);
                    assert(items_view(out@) =~= items_view(items@));
                }
                Json::Array(out)
            },
            Json::Object(entries) => {
                let mut out: Vec<(String, Json)> = Vec::new();
                let mut i: usize = 0;
                while i < entries.len()
                    invariant
                        i <= entries@.len(),
                        out@.len() == i,
                        forall|k: int| 0 <= k < i ==> (#[trigger] out@[k]).0@ == entries@[k].0@
                            && json_view(out@[k].1) == json_view(entries@[k].1),
                    decreases entries.len() - i,
                {
                    proof {
                        broadcast use vstd::std_specs::vec::axiom_vec_index_decreases;
                        assert(decreases_to!(entries => entries[i as int]));
                        assert(decreases_to!(entries[i as int] => entries[i as int].1));
                        assert(decreases_to!(*self => entries));
                        assert(decreases_to!(*self => entries[i as int].1));
                    }
                    let k = entries[i].0.clone();
                    let v = entries[i].1.clone();
                    out.push((k, v));
                    i = i + 1;
                }
                proof {
                    lemma_entries_view(out@);
                    lemma_entries_view(entries@);
                    assert(entries_view(out@) =~= entries_view(entries@));
                }
                Json::Object(out)
            },
        }
    }
}

fn num_eq(a: &JsonNumber, b: &JsonNumber) -> (r: bool)
    ensures
        r == (num_view(*a) == num_view(*b)),
{
    match (a, b) {
        (JsonNumber::PosInt(x), JsonNumber::PosInt(y)) => *x == *y,
        (JsonNumber::NegInt(x), JsonNumber::NegInt(y)) => *x == *y,
        (JsonNumber::Float(x), JsonNumber::Float(y)) => *x == *y,
        _ => false,
    }
}

/// Whether two JSON values are equal, member order of objects included.
#[verifier::loop_isolation(false)]
pub fn json_eq(a: &Json, b: &Json) -> (r: bool)
    ensures
        r == (a@ == b@),
    decreases a,
{
    match (a, b) {
        (Json::Null, Json::Null) => true,
        (Json::Bool(x), Json::Bool(y)) => *x == *y,
        (Json::Number(x), Json::Number(y)) => num_eq(x, y),
        (Json::Str(x), Json::Str(y)) => *x == *y,
        (Json::Array(x), Json::Array(y)) => {
            proof {
                lemma_items_view(x@);
                lemma_items_view(y@);
            }
            if x.len() != y.len() {
                assert(items_view(x@).len() != items_view(y@).len());
                return false;
            }
            let mut i: usize = 0;
            while i < x.len()
                invariant
                    i <= x@.len() == y@.len(),
                    forall|k: int| 0 <= k < i ==> json_view(#[trigger] x@[k]) == json_view(y@[k]),
                decreases x.len() - i,
            {
                proof {
                    broadcast use vstd::std_specs::vec::axiom_vec_index_decreases;
                    assert(decreases_to!(x => x[i as int]));
                    assert(decreases_to!(*a => x[i as int]));
                }
                if !json_eq(&x[i], &y[i]) {
                    assert(items_view(x@)[i as int] != items_view(y@)[i as int]);
                    return false;
                }
                i = i + 1;
            }
            assert(items_view(x@) =~= items_view(y@));
            true
        },
        (Json::Object(x), Json::Object(y)) => {
            proof {
                lemma_entries_view(x@);
                lemma_entries_view(y@);
            }
            if x.len() != y.len() {
                assert(entries_view(x@).len() != entries_view(y@).len());
                return false;
            }
            let mut i: usize = 0;
            while i < x.len()
                invariant
                    i <= x@.len() == y@.len(),
                    forall|k: int| 0 <= k < i ==> (#[trigger] x@[k]).0@ == y@[k].0@ && json_view(x@[k].1) == json_view(y@[k].1),
                decreases x.len() - i,
            {
                proof {
                    broadcast use vstd::std_specs::vec::axiom_vec_index_decreases;
                    assert(decreases_to!(x => x[i as int]));
                    assert(decreases_to!(x[i as int] => x[i as int].1));
                    assert(decreases_to!(*a => x[i as int].1));
                }
                if x[i].0 != y[i].0 || !json_eq(&x[i].1, &y[i].1) {
                    assert(entries_view(x@)[i as int] != entries_view(y@)[i as int]);
                    return false;
                }
                i = i + 1;
            }
            assert(entries_view(x@) =~= entries_view(y@));
            true
        },
        _ => false,
    }
}

impl Json {
    /// `Value::get` with a string key.
    pub fn get<'a>(&'a self, key: &str) -> (r: Option<&'a Json>)
        ensures
            match r {
                Some(v) => get(self@, key@) == Some(v@),
                None => get(self@, key@) is None,
            },
    {
        match self {
            Json::Object(entries) => {
                let k = String::from_str(key);
                let ghost ev = entries_view(entries@);
                proof {
                    lemma_entries_view(entries@);
                    assert(ev.skip(0) =~= ev);
                }
                let mut i: usize = 0;
                while i < entries.len()
                    invariant
                        i <= entries@.len(),
                        k@ == key@,
                        self@ == JsonV::Object(ev),
                        ev == entries_view(entries@),
                        ev.len() == entries@.len(),
                        forall|j: int| 0 <= j < entries@.len() ==> #[trigger] ev[j] == (entries@[j].0@, json_view(entries@[j].1)),
                        entries_get(ev, key@) == entries_get(ev.skip(i as int), key@),
                    decreases entries.len() - i,
                {
                    proof {
                        assert(ev.skip(i as int).drop_first() =~= ev.skip(i + 1));
                        assert(ev.skip(i as int)[0] == ev[i as int]);
                    }
                    if entries[i].0 == k {
                        return Some(&entries[i].1);
                    }
                    i = i + 1;
                }
                None
            },
            _ => None,
        }
    }

    /// `Value::as_str`.
    pub fn as_str(&self) -> (r: Option<&str>)
        ensures
            match r {
                Some(s) => as_str(self@) == Some(s@),
                None => as_str(self@) is None,
            },
    {
        match self {
            Json::Str(s) => Some(s.as_str()),
            _ => None,
        }
    }

    /// `Value::as_i64`.
    pub fn as_i64(&self) -> (r: Option<i64>)
        ensures
            r == as_i64(self@),
    {
        match self {
            Json::Number(JsonNumber::PosInt(u)) => if *u <= i64::MAX as u64 {
                Some(*u as i64)
            } else {
                None
            },
            Json::Number(JsonNumber::NegInt(i)) => Some(*i),
            _ => None,
        }
    }

    /// `Value::as_u64`.
    pub fn as_u64(&self) -> (r: Option<u64>)
        ensures
            r == as_u64(self@),
    {
        match self {
            Json::Number(JsonNumber::PosInt(u)) => Some(*u),
            _ => None,
        }
    }

    /// `Value::as_bool`.
    pub fn as_bool(&self) -> (r: Option<bool>)
        ensures
            r == as_bool(self@),
    {
        match self {
            Json::Bool(b) => Some(*b),
            _ => None,
        }
    }

    /// `Value::as_array`.
    pub fn as_array(&self) -> (r: Option<&Vec<Json>>)
        ensures
            match r {
                Some(v) => as_array(self@) == Some(items_view(v@)),
                None => as_array(self@) is None,
            },
    {
        match self {
            Json::Array(v) => Some(v),
            _ => None,
        }
    }

    /// `v.get(key).and_then(as_str)`, as an owned string.
    pub fn get_str(&self, key: &str) -> (r: Option<String>)
        ensures
            match r {
                Some(s) => get_str(self@, key@) == Some(s@),
                None => get_str(self@, key@) is None,
            },
    {
        match self.get(key) {
            Some(v) => match v.as_str() {
                Some(s) => Some(String::from_str(s)),
                None => None,
            },
            None => None,
        }
    }

    /// `v.get(key).and_then(as_i64)`.
    pub fn get_i64(&self, key: &str) -> (r: Option<i64>)
        ensures
            r == get_i64(self@, key@),
    {
        match self.get(key) {
            Some(v) => v.as_i64(),
            None => None,
        }
    }

    /// `v.get(key).and_then(as_u64)`.
    pub fn get_u64(&self, key: &str) -> (r: Option<u64>)
        ensures
            r == get_u64(self@, key@),
    {
        match self.get(key) {
            Some(v) => v.as_u64(),
            None => None,
        }
    }

    /// `v.get(key).and_then(as_bool)`.
    pub fn get_bool(&self, key: &str) -> (r: Option<bool>)
        ensures
            r == get_bool(self@, key@),
    {
        match self.get(key) {
            Some(v) => v.as_bool(),
            None => None,
        }
    }

    /// `v.get(key).and_then(as_array)`.
    pub fn get_array<'a>(&'a self, key: &str) -> (r: Option<&'a Vec<Json>>)
        ensures
            match r {
                Some(v) => get_array(self@, key@) == Some(items_view(v@)),
                None => get_array(self@, key@) is None,
            },
    {
        match self.get(key) {
            Some(v) => v.as_array(),
            None => None,
        }
    }
}

// ── Building values ───────────────────────────────────────────

/// Appends one member to an object's entries.
pub fn push_member(entries: &mut Vec<(String, Json)>, key: &str, value: Json)
    ensures
        entries_view(final(entries)@) == entries_view(old(entries)@).push((key@, value@)),
{
    let ghost before = entries@;
    let ghost vv = value@;
    entries.push((String::from_str(key), value));
    proof {
        lemma_entries_view(before);
        lemma_entries_view(entries@);
        assert(entries@[before.len() as int] == (entries@[before.len() as int].0, entries@[before.len() as int].1));
        assert(entries_view(entries@) =~= entries_view(before).push((key@, vv)));
    }
}

/// Appends one item to an array's items.
pub fn push_item(items: &mut Vec<Json>, value: Json)
    ensures
        items_view(final(items)@) == items_view(old(items)@).push(value@),
{
    let ghost before = items@;
    let ghost vv = value@;
    items.push(value);
    proof {
        lemma_items_view(before);
        lemma_items_view(items@);
        assert(items_view(items@) =~= items_view(before).push(vv));
    }
}

/// The index of the first entry with `key`, if any.
pub open spec fn key_index(entries: Seq<(Seq<char>, JsonV)>, key: Seq<char>) -> Option<int>
    decreases entries.len(),
{
    if entries.len() == 0 {
        None
    } else if entries[0].0 == key {
        Some(0)
    } else {
        match key_index(entries.drop_first(), key) {
            Some(i) => Some(i + 1),
            None => None,
        }
    }
}

/// `Map::insert` on the entries: the first entry with `key` gets `value`;
/// without one, the member is appended.
pub open spec fn set_entry(entries: Seq<(Seq<char>, JsonV)>, key: Seq<char>, value: JsonV) -> Seq<
    (Seq<char>, JsonV),
> {
    match key_index(entries, key) {
        Some(i) => entries.update(i, (key, value)),
        None => entries.push((key, value)),
    }
}

pub proof fn lemma_key_index(entries: Seq<(Seq<char>, JsonV)>, key: Seq<char>)
    ensures
        match key_index(entries, key) {
            Some(i) => 0 <= i < entries.len() && entries[i].0 == key && entries_get(entries, key)
                == Some(entries[i].1) && forall|j: int| 0 <= j < i ==> entries[j].0 != key,
            None => entries_get(entries, key) is None && forall|j: int|
                0 <= j < entries.len() ==> entries[j].0 != key,
        },
    decreases entries.len(),
{
    if entries.len() > 0 {
        lemma_key_index(entries.drop_first(), key);
        if entries[0].0 != key {
            assert forall|j: int| 1 <= j < entries.len() implies entries[j] == entries.drop_first()[j - 1] by {}
        }
    }
}

/// Looking a key up after appending an entry: the earlier entries win.
pub proof fn lemma_entries_get_push(
    e: Seq<(Seq<char>, JsonV)>,
    x: (Seq<char>, JsonV),
    k: Seq<char>,
)
    ensures
        entries_get(e.push(x), k) == match entries_get(e, k) {
            Some(v) => Some(v),
            None => if x.0 == k {
                Some(x.1)
            } else {
                None
            },
        },
    decreases e.len(),
{
    if e.len() > 0 {
        assert(e.push(x)[0] == e[0]);
        assert(e.push(x).drop_first() =~= e.drop_first().push(x));
        lemma_entries_get_push(e.drop_first(), x, k);
    } else {
        assert(e.push(x)[0] == x);
        assert(e.push(x).drop_first() =~= Seq::<(Seq<char>, JsonV)>::empty());
        assert(entries_get(Seq::<(Seq<char>, JsonV)>::empty(), k) is None);
    }
}

/// Looking a key up after `set_entry`: the new value under its key, the
/// old lookups under every other key.
pub proof fn lemma_set_entry_get(e: Seq<(Seq<char>, JsonV)>, k: Seq<char>, v: JsonV, k2: Seq<char>)
    ensures
        entries_get(set_entry(e, k, v), k2) == if k2 == k {
            Some(v)
        } else {
            entries_get(e, k2)
        },
    decreases e.len(),
{
    if e.len() == 0 {
        assert(set_entry(e, k, v) =~= seq![(k, v)]);
        assert(seq![(k, v)].drop_first() =~= Seq::<(Seq<char>, JsonV)>::empty());
        assert(entries_get(Seq::<(Seq<char>, JsonV)>::empty(), k2) is None);
        assert(entries_get(e, k2) is None);
    } else if e[0].0 == k {
        assert(key_index(e, k) == Some(0int));
        assert(set_entry(e, k, v).drop_first() =~= e.drop_first());
    } else {
        let t = e.drop_first();
        lemma_set_entry_get(t, k, v, k2);
        lemma_key_index(t, k);
        match key_index(t, k) {
            Some(i) => {
                assert(key_index(e, k) == Some(i + 1));
                assert(set_entry(e, k, v) =~= seq![e[0]] + set_entry(t, k, v));
            },
            None => {
                assert(key_index(e, k) is None);
                assert(set_entry(e, k, v) =~= seq![e[0]] + set_entry(t, k, v));
            },
        }
        assert((seq![e[0]] + set_entry(t, k, v)).drop_first() =~= set_entry(t, k, v));
        assert((seq![e[0]] + set_entry(t, k, v))[0] == e[0]);
    }
}

/// Setting a key to the value it already has changes nothing.
pub proof fn lemma_set_entry_same(e: Seq<(Seq<char>, JsonV)>, k: Seq<char>, v: JsonV)
    requires
        entries_get(e, k) == Some(v),
    ensures
        set_entry(e, k, v) == e,
{
    lemma_key_index(e, k);
    let i = key_index(e, k)->0;
    assert(e.update(i, (k, v)) =~= e);
}

pub(crate) fn find_key(entries: &Vec<(String, Json)>, key: &str) -> (r: Option<usize>)
    ensures
        match r {
            Some(k) => key_index(entries_view(entries@), key@) == Some(k as int),
            None => key_index(entries_view(entries@), key@) is None,
        },
{
    let ghost ev = entries_view(entries@);
    proof {
        lemma_entries_view(entries@);
        lemma_key_index(ev, key@);
    }
    let mut i: usize = 0;
    while i < entries.len()
        invariant
            i <= entries@.len(),
            ev == entries_view(entries@),
            ev.len() == entries@.len(),
            forall|k: int| 0 <= k < entries@.len() ==> #[trigger] ev[k] == (entries@[k].0@, json_view(entries@[k].1)),
            forall|j: int| 0 <= j < i ==> ev[j].0 != key@,
            match key_index(ev, key@) {
                Some(x) => 0 <= x < ev.len() && ev[x].0 == key@ && forall|j: int| 0 <= j < x ==> ev[j].0 != key@,
                None => forall|j: int| 0 <= j < ev.len() ==> ev[j].0 != key@,
            },
        decreases entries.len() - i,
    {
        if text::str_eq(entries[i].0.as_str(), key) {
            assert(ev[i as int].0 == key@);
            return Some(i);
        }
        i = i + 1;
    }
    None
}

/// `Map::insert`: sets member `key` of an object's entries.
pub fn set_member(entries: &mut Vec<(String, Json)>, key: &str, value: Json)
    ensures
        entries_view(final(entries)@) == set_entry(entries_view(old(entries)@), key@, value@),
{
    let ghost before = entries_view(entries@);
    let ghost vv = value@;
    match find_key(entries, key) {
        Some(i) => {
            proof {
                lemma_entries_view(entries@);
                lemma_key_index(before, key@);
            }
            entries.set(i, (String::from_str(key), value));
            proof {
                lemma_entries_view(entries@);
                assert(entries_view(entries@) =~= before.update(i as int, (key@, vv)));
            }
        },
        None => {
            push_member(entries, key, value);
        },
    }
}

/// Whether the entries hold `key`.
pub fn has_member(entries: &Vec<(String, Json)>, key: &str) -> (r: bool)
    ensures
        r == (entries_get(entries_view(entries@), key@) is Some),
{
    proof {
        lemma_key_index(entries_view(entries@), key@);
    }
    find_key(entries, key).is_some()
}

} // verus!
