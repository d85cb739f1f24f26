//! A JSON value as plain data, with the lookups that `serde_json` offers
//! on its own `Value` (`v["key"]`, `as_str`, `as_u64`, `as_bool`,
//! `as_array`).

use vstd::prelude::*;
use vstd::string::*;

verus! {

/// A JSON number: an unsigned integer, a signed one (as `serde_json` holds
/// integers below zero), or a float held by its bit pattern (64-bit, or
/// 32-bit where it was written from an `f32`).
#[derive(Clone, Copy, Debug, PartialEq, Eq, Structural)]
pub enum JsonNumber {
    PosInt(u64),
    NegInt(i64),
    Float(u64),
    Float32(u32),
}

/// A JSON value. An object holds its pairs in order, and a lookup takes the
/// first pair with the key (an object read by `serde_json` holds each key
/// once).
pub enum JsonValue {
    Null,
    Bool(bool),
    Number(JsonNumber),
    Str(String),
    Array(Vec<JsonValue>),
    Object(Vec<(String, JsonValue)>),
}

/// The mathematical view of a JSON value.
pub enum JsonV {
    Null,
    Bool(bool),
    Number(JsonNumber),
    Str(Seq<char>),
    Array(Seq<JsonV>),
    Object(Seq<(Seq<char>, JsonV)>),
}

pub open spec fn json_view(v: JsonValue) -> JsonV
    decreases v,
{
    match v {
        JsonValue::Null => JsonV::Null,
        JsonValue::Bool(b) => JsonV::Bool(b),
        JsonValue::Number(n) => JsonV::Number(n),
        JsonValue::Str(s) => JsonV::Str(s@),
        JsonValue::Array(items) => JsonV::Array(json_seq_view(items@)),
        JsonValue::Object(pairs) => JsonV::Object(json_pairs_view(pairs@)),
    }
}

pub open spec fn json_seq_view(s: Seq<JsonValue>) -> Seq<JsonV>
    decreases s,
{
    if s.len() == 0 {
        Seq::empty()
    } else {
        json_seq_view(s.drop_last()).push(json_view(s[s.len() - 1]))
    }
}

pub open spec fn json_pairs_view(s: Seq<(String, JsonValue)>) -> Seq<(Seq<char>, JsonV)>
    decreases s,
{
    if s.len() == 0 {
        Seq::empty()
    } else {
        json_pairs_view(s.drop_last()).push((s[s.len() - 1].0@, json_view(s[s.len() - 1].1)))
    }
}

impl View for JsonValue {
    type V = JsonV;

    open spec fn view(&self) -> JsonV {
        json_view(*self)
    }
}

pub proof fn lemma_json_seq_view(s: Seq<JsonValue>)
    ensures
        json_seq_view(s).len() == s.len(),
        forall|i: int| 0 <= i < s.len() ==> #[trigger] json_seq_view(s)[i] == json_view(s[i]),
    decreases s.len(),
{
    if s.len() > 0 {
        lemma_json_seq_view(s.drop_last());
    }
}

pub proof fn lemma_json_pairs_view(s: Seq<(String, JsonValue)>)
    ensures
        json_pairs_view(s).len() == s.len(),
        forall|i: int|
            0 <= i < s.len() ==> #[trigger] json_pairs_view(s)[i] == (s[i].0@, json_view(s[i].1)),
    decreases s.len(),
{
    if s.len() > 0 {
        lemma_json_pairs_view(s.drop_last());
    }
}

/// The value of the first pair with key `key`.
pub open spec fn pairs_get(ps: Seq<(Seq<char>, JsonV)>, key: Seq<char>) -> Option<JsonV>
    decreases ps.len(),
{
    if ps.len() == 0 {
        None
    } else if ps[0].0 == key {
        Some(ps[0].1)
    } else {
        pairs_get(ps.drop_first(), key)
    }
}

/// The keys of an object, in order; none for another value.
pub open spec fn object_keys(v: JsonV) -> Seq<Seq<char>> {
    match v {
        JsonV::Object(ps) => ps.map_values(|p: (Seq<char>, JsonV)| p.0),
        _ => Seq::empty(),
    }
}

/// `v[key]` where `v` is an object holding `key`; `None` otherwise (which
/// `serde_json` reads as `null`).
pub open spec fn obj_get(v: JsonV, key: Seq<char>) -> Option<JsonV> {
    match v {
        JsonV::Object(ps) => pairs_get(ps, key),
        _ => None,
    }
}

/// `v[key].as_str().unwrap_or("")`
pub open spec fn str_or_empty(v: JsonV, key: Seq<char>) -> Seq<char> {
    match obj_get(v, key) {
        Some(JsonV::Str(s)) => s,
        _ => Seq::empty(),
    }
}

/// A string element of an array, or the empty string.
pub open spec fn item_str(x: JsonV) -> Seq<char> {
    match x {
        JsonV::Str(s) => s,
        _ => Seq::empty(),
    }
}

/// `v[key].as_array()` with each element read by `as_str().unwrap_or("")`,
/// or no strings where `v[key]` is not an array.
pub open spec fn strs_or_empty(v: JsonV, key: Seq<char>) -> Seq<Seq<char>> {
    match obj_get(v, key) {
        Some(JsonV::Array(items)) => items.map_values(|x: JsonV| item_str(x)),
        _ => Seq::empty(),
    }
}

/// `v[key].as_bool().unwrap_or(false)`
pub open spec fn bool_or_false(v: JsonV, key: Seq<char>) -> bool {
    match obj_get(v, key) {
        Some(JsonV::Bool(b)) => b,
        _ => false,
    }
}

/// `v[key].as_u64().unwrap_or(0)`: a number that is a whole number not
/// below zero, however it is held; 0 otherwise.
pub open spec fn u64_or_zero(v: JsonV, key: Seq<char>) -> u64 {
    match obj_get(v, key) {
        Some(JsonV::Number(JsonNumber::PosInt(n))) => n,
        Some(JsonV::Number(JsonNumber::NegInt(n))) => if n >= 0 {
            n as u64
        } else {
            0
        },
        _ => 0,
    }
}

/// Whether two strings hold the same characters.
pub fn str_equal(a: &str, b: &str) -> (r: bool)
    ensures
        r == (a@ == b@),
{
    let n = a.unicode_len();
    if n != b.unicode_len() {
        return false;
    }
    let mut i: usize = 0;
    while i < n
        invariant
            n == a@.len(),
            n == b@.len(),
            i <= n,
            forall|j: int| 0 <= j < i ==> a@[j] == b@[j],
        decreases n - i,
    {
        if a.get_char(i) != b.get_char(i) {
            return false;
        }
        i = i + 1;
    }
    assert(a@ =~= b@);
    true
}

/// `v[key]`: the value of `key` where `v` is an object holding it.
pub fn get_field<'a>(v: &'a JsonValue, key: &str) -> (r: Option<&'a JsonValue>)
    ensures
        match obj_get(json_view(*v), key@) {
            None => r is None,
            Some(j) => r matches Some(x) && json_view(*x) == j,
        },
{
    match v {
        JsonValue::Object(pairs) => {
            let ghost ps = json_pairs_view(pairs@);
            proof {
                lemma_json_pairs_view(pairs@);
            }
            let mut i: usize = 0;
            assert(ps.subrange(0, ps.len() as int) =~= ps);
            while i < pairs.len()
                invariant
                    i <= pairs@.len(),
                    *v == JsonValue::Object(*pairs),
                    ps == json_pairs_view(pairs@),
                    ps.len() == pairs@.len(),
                    forall|j: int| 0 <= j < pairs@.len() ==> #[trigger] ps[j] == (pairs@[j].0@, json_view(pairs@[j].1)),
                    pairs_get(ps, key@) == pairs_get(ps.subrange(i as int, ps.len() as int), key@),
                decreases pairs@.len() - i,
            {
                let ghost sub = ps.subrange(i as int, ps.len() as int);
                assert(sub[0] == ps[i as int]);
                assert(sub.drop_first() =~= ps.subrange(i as int + 1, ps.len() as int));
                if str_equal(pairs[i].0.as_str(), key) {
                    return Some(&pairs[i].1);
                }
                i = i + 1;
            }
            assert(ps.subrange(i as int, ps.len() as int) =~= Seq::<(Seq<char>, JsonV)>::empty());
            None
        },
        _ => None,
    }
}

/// `v[key].as_str().unwrap_or("").to_string()`
pub fn get_str(v: &JsonValue, key: &str) -> (r: String)
    ensures
        r@ == str_or_empty(json_view(*v), key@),
{
    match get_field(v, key) {
        Some(JsonValue::Str(s)) => s.clone(),
        _ => String::new(),
    }
}

/// `v[key].as_array()` with each element read by `as_str().unwrap_or("")`,
/// or no strings where `v[key]` is not an array.
pub fn get_strs(v: &JsonValue, key: &str) -> (r: Vec<String>)
    ensures
        r@.map_values(|s: String| s@) == strs_or_empty(json_view(*v), key@),
{
    match get_field(v, key) {
        Some(JsonValue::Array(items)) => {
            proof {
                lemma_json_seq_view(items@);
            }
            let mut out: Vec<String> = Vec::new();
            let mut i: usize = 0;
            while i < items.len()
                invariant
                    i <= items@.len(),
                    out@.len() == i,
                    forall|j: int| 0 <= j < i ==> (#[trigger] out@[j])@ == item_str(json_view(items@[j])),
                decreases items@.len() - i,
            {
                match &items[i] {
                    JsonValue::Str(s) => out.push(s.clone()),
                    _ => out.push(String::new()),
                }
                i = i + 1;
            }
            assert(out@.map_values(|s: String| s@) =~= json_seq_view(items@).map_values(
                |x: JsonV| item_str(x),
            ));
            out
        },
        _ => {
            let out: Vec<String> = Vec::new();
            assert(out@.map_values(|s: String| s@) =~= Seq::<Seq<char>>::empty());
            out
        },
    }
}

/// `v[key].as_bool().unwrap_or(false)`
pub fn get_bool(v: &JsonValue, key: &str) -> (r: bool)
    ensures
        r == bool_or_false(json_view(*v), key@),
{
    match get_field(v, key) {
        Some(JsonValue::Bool(b)) => *b,
        _ => false,
    }
}

/// `v[key].as_u64().unwrap_or(0)`
pub fn get_u64(v: &JsonValue, key: &str) -> (r: u64)
    ensures
        r == u64_or_zero(json_view(*v), key@),
{
    match get_field(v, key) {
        Some(JsonValue::Number(JsonNumber::PosInt(n))) => *n,
        Some(JsonValue::Number(JsonNumber::NegInt(n))) => if *n >= 0 {
            *n as u64
        } else {
            0
        },
        _ => 0,
    }
}

/// A string made from a literal.
pub fn text(s: &str) -> (r: String)
    ensures
        r@ == s@,
{
    String::from_str(s)
}

} // verus!
