//! JSON documents as the library reads and edits them.
//!
//! serde_json parses and prints; the library works on `Json`, its own plain
//! model of a document, whose contents the contracts can speak of.

use vstd::prelude::*;
use crate::text::{chars_of, same_text};

verus! {

/// A JSON value. Numbers that are unsigned integers fitting in `u64` are kept as
/// such; any other number keeps its JSON text. An object keeps its members in
/// order.
#[derive(Debug)]
pub enum Json {
    Null,
    Bool(bool),
    Unsigned(u64),
    OtherNumber(String),
    Str(String),
    Array(Vec<Json>),
    Object(Vec<(String, Json)>),
}

/// serde_json's JSON value, which is moved into and out of `Json`.
#[verifier::external_type_specification]
#[verifier::external_body]
pub struct ExValue(serde_json::Value);

/// The document that serde_json parses from a text, as a `Json`; `None` where
/// the text is no JSON document.
pub uninterp spec fn parsed_json(text: Seq<char>) -> Option<Json>;

/// Moves a serde_json value into the library's model.
#[verifier::external_body]
fn from_serde(v: serde_json::Value) -> (r: Json) {
    match v {
        serde_json::Value::Null => Json::Null,
        serde_json::Value::Bool(b) => Json::Bool(b),
        serde_json::Value::Number(n) => match n.as_u64() {
            Some(u) => Json::Unsigned(u),
            None => Json::OtherNumber(n.to_string()),
        },
        serde_json::Value::String(s) => Json::Str(s),
        serde_json::Value::Array(a) => Json::Array(a.into_iter().map(from_serde).collect()),
        serde_json::Value::Object(o) => Json::Object(o.into_iter().map(|(k, x)| (k, from_serde(x))).collect()),
    }
}

/// Relies on `serde_json::from_str`: parses a whole JSON document, a function of
/// the text alone; the error is serde_json's message.
#[verifier::external_body]
pub fn parse_json(text: &str) -> (r: Result<Json, String>)
    ensures
        r.is_ok() == parsed_json(text@).is_some(),
        r.is_ok() ==> r.unwrap() == parsed_json(text@).unwrap(),
{
    match serde_json::from_str::<serde_json::Value>(text) {
        Ok(v) => Ok(from_serde(v)),
        Err(e) => Err(e.to_string()),
    }
}

/// Relies on the `Display` of `serde_json::Value`: the compact JSON text of a
/// value.
#[verifier::external_body]
pub fn json_text(j: &Json) -> (r: String) {
    serde_of(j).to_string()
}

/// A serde_json copy of a `Json`.
#[verifier::external_body]
fn serde_of(j: &Json) -> (r: serde_json::Value) {
    match j {
        Json::Null => serde_json::Value::Null,
        Json::Bool(b) => serde_json::Value::Bool(*b),
        Json::Unsigned(u) => serde_json::Value::from(*u),
        Json::OtherNumber(t) => serde_json::from_str(t).unwrap_or(serde_json::Value::Null),
        Json::Str(s) => serde_json::Value::String(s.clone()),
        Json::Array(a) => serde_json::Value::Array(a.iter().map(serde_of).collect()),
        Json::Object(o) => serde_json::Value::Object(o.iter().map(|(k, x)| (k.clone(), serde_of(x))).collect()),
    }
}

/// The last member of `es` under `key` (serde_json keeps the last of repeated
/// keys).
pub open spec fn entry_get(es: Seq<(String, Json)>, key: Seq<char>) -> Option<Json>
    decreases es.len(),
{
    if es.len() == 0 {
        None
    } else if es.last().0@ == key {
        Some(es.last().1)
    } else {
        entry_get(es.drop_last(), key)
    }
}

/// The member of an object under `key`.
pub open spec fn member(j: Json, key: Seq<char>) -> Option<Json> {
    match j {
        Json::Object(es) => entry_get(es@, key),
        _ => None,
    }
}

/// The member under `key` of a value that may be missing.
pub open spec fn member_of(o: Option<Json>, key: Seq<char>) -> Option<Json> {
    match o {
        Some(j) => member(j, key),
        None => None,
    }
}

/// The first element of an array.
pub open spec fn first_of(o: Option<Json>) -> Option<Json> {
    match o {
        Some(Json::Array(a)) => if a@.len() > 0 {
            Some(a@[0])
        } else {
            None
        },
        _ => None,
    }
}

/// The last element of an array.
pub open spec fn last_of(o: Option<Json>) -> Option<Json> {
    match o {
        Some(Json::Array(a)) => if a@.len() > 0 {
            Some(a@.last())
        } else {
            None
        },
        _ => None,
    }
}

/// The text of a string.
pub open spec fn text_of(o: Option<Json>) -> Option<Seq<char>> {
    match o {
        Some(Json::Str(s)) => Some(s@),
        _ => None,
    }
}

/// The value of a boolean.
pub open spec fn bool_of(o: Option<Json>) -> Option<bool> {
    match o {
        Some(Json::Bool(b)) => Some(b),
        _ => None,
    }
}

/// `r` is the reference form of `o`.
pub open spec fn refers(r: Option<&Json>, o: Option<Json>) -> bool {
    match r {
        Some(x) => o == Some(*x),
        None => o.is_none(),
    }
}

impl Json {
    /// The member under `key`, where this is an object that has one.
    pub fn get(&self, key: &str) -> (r: Option<&Json>)
        ensures
            refers(r, member(*self, key@)),
    {
        match self {
            Json::Object(es) => {
                let mut i: usize = es.len();
                assert(es@.subrange(0, i as int) =~= es@);
                while i > 0
                    invariant
                        i <= es@.len(),
                        entry_get(es@, key@) == entry_get(es@.subrange(0, i as int), key@),
                        member(*self, key@) == entry_get(es@, key@),
                    decreases i,
                {
                    proof {
                        assert(es@.subrange(0, i as int).drop_last() =~= es@.subrange(0, i - 1));
                    }
                    assert(es@.subrange(0, i as int).last() == es@[i - 1]);
                    if same_text(es[i - 1].0.as_str(), key) {
                        assert(es@[i - 1].0@ == key@);
                        assert(entry_get(es@.subrange(0, i as int), key@) == Some(es@[i - 1].1));
                        return Some(&es[i - 1].1);
                    }
                    i = i - 1;
                }
                None
            },
            _ => None,
        }
    }

    /// The first element, where this is a non-empty array.
    pub fn first(&self) -> (r: Option<&Json>)
        ensures
            refers(r, first_of(Some(*self))),
    {
        match self {
            Json::Array(a) => {
                if a.len() > 0 {
                    Some(&a[0])
                } else {
                    None
                }
            },
            _ => None,
        }
    }

    /// The last element, where this is a non-empty array.
    pub fn last(&self) -> (r: Option<&Json>)
        ensures
            refers(r, last_of(Some(*self))),
    {
        match self {
            Json::Array(a) => {
                if a.len() > 0 {
                    Some(&a[a.len() - 1])
                } else {
                    None
                }
            },
            _ => None,
        }
    }

    /// The text, where this is a string.
    pub fn as_text(&self) -> (r: Option<&str>)
        ensures
            match r {
                Some(t) => text_of(Some(*self)) == Some(t@),
                None => text_of(Some(*self)).is_none(),
            },
    {
        match self {
            Json::Str(s) => Some(s.as_str()),
            _ => None,
        }
    }

    /// The value, where this is a boolean.
    pub fn as_bool(&self) -> (r: Option<bool>)
        ensures
            r == bool_of(Some(*self)),
    {
        match self {
            Json::Bool(b) => Some(*b),
            _ => None,
        }
    }
}

/// The member under `key` of a value that may be missing.
pub fn get_of<'a>(o: Option<&'a Json>, key: &str) -> (r: Option<&'a Json>)
    ensures
        forall|oo: Option<Json>| refers(o, oo) ==> refers(r, member_of(oo, key@)),
{
    match o {
        Some(j) => j.get(key),
        None => None,
    }
}

/// The first element of a value that may be missing.
pub fn first_in<'a>(o: Option<&'a Json>) -> (r: Option<&'a Json>)
    ensures
        forall|oo: Option<Json>| refers(o, oo) ==> refers(r, first_of(oo)),
{
    match o {
        Some(j) => j.first(),
        None => None,
    }
}

/// The text of a value that may be missing.
pub fn text_in(o: Option<&Json>) -> (r: Option<String>)
    ensures
        forall|oo: Option<Json>|
            refers(o, oo) ==> match r {
                Some(t) => text_of(oo) == Some(t@),
                None => text_of(oo).is_none(),
            },
{
    match o {
        Some(j) => match j.as_text() {
            Some(t) => Some(t.to_string()),
            None => None,
        },
        None => None,
    }
}

/// The last element of a value that may be missing.
pub fn last_in<'a>(o: Option<&'a Json>) -> (r: Option<&'a Json>)
    ensures
        forall|oo: Option<Json>| refers(o, oo) ==> refers(r, last_of(oo)),
{
    match o {
        Some(j) => j.last(),
        None => None,
    }
}

/// The members of `es` but those under `key`, in order.
pub open spec fn without(es: Seq<(String, Json)>, key: Seq<char>) -> Seq<(String, Json)>
    decreases es.len(),
{
    if es.len() == 0 {
        es
    } else if es.last().0@ == key {
        without(es.drop_last(), key)
    } else {
        without(es.drop_last(), key).push(es.last())
    }
}

/// Taking the members under one key out leaves every other member as it was.
pub proof fn lemma_without_get(es: Seq<(String, Json)>, key: Seq<char>, k: Seq<char>)
    ensures
        k != key ==> entry_get(without(es, key), k) == entry_get(es, k),
        entry_get(without(es, key), key).is_none(),
    decreases es.len(),
{
    if es.len() > 0 {
        lemma_without_get(es.drop_last(), key, k);
        let w = without(es.drop_last(), key);
        if es.last().0@ != key {
            assert(w.push(es.last()).drop_last() =~= w);
        }
    }
}

/// Takes the members under `key` out of an object: returns the value the
/// object had under it; every other member stays.
pub fn take_member(j: &mut Json, key: &str) -> (r: Option<Json>)
    ensures
        r == member(*old(j), key@),
        member(*final(j), key@).is_none(),
        forall|k: Seq<char>| k != key@ ==> #[trigger] member(*final(j), k) == member(*old(j), k),
        (*old(j) is Object) == (*final(j) is Object),
{
    match j {
        Json::Object(es) => {
            let ghost orig = es@;
            let n = es.len();
            let mut kept: Vec<(String, Json)> = Vec::new();
            let mut found: Option<Json> = None;
            let mut i: usize = 0;
            assert(orig.subrange(0, 0) =~= Seq::<(String, Json)>::empty());
            assert(orig.subrange(0, n as int) =~= orig);
            while es.len() > 0
                invariant
                    i <= n == orig.len(),
                    es@ == orig.subrange(i as int, n as int),
                    kept@ == without(orig.subrange(0, i as int), key@),
                    found == entry_get(orig.subrange(0, i as int), key@),
                decreases es@.len(),
            {
                let e = es.remove(0);
                proof {
                    assert(orig.subrange(0, i + 1).drop_last() =~= orig.subrange(0, i as int));
                    assert(orig.subrange(i + 1, n as int) =~= orig.subrange(i as int, n as int).drop_first());
                }
                if same_text(e.0.as_str(), key) {
                    found = Some(e.1);
                } else {
                    kept.push(e);
                }
                i = i + 1;
            }
            assert(orig.subrange(0, i as int) =~= orig);
            *es = kept;
            proof {
                assert forall|k: Seq<char>| k != key@ implies #[trigger] entry_get(es@, k) == entry_get(orig, k) by {
                    lemma_without_get(orig, key@, k);
                }
                lemma_without_get(orig, key@, key@);
            }
            found
        },
        _ => None,
    }
}

/// Puts `v` under `key` in an object that has nothing under `key`; every other
/// member stays. A value that is no object is left as it is.
pub fn put_member(j: &mut Json, key: &str, v: Json)
    ensures
        *old(j) is Object ==> member(*final(j), key@) == Some(v),
        !(*old(j) is Object) ==> *final(j) == *old(j),
        forall|k: Seq<char>| k != key@ ==> #[trigger] member(*final(j), k) == member(*old(j), k),
        (*old(j) is Object) == (*final(j) is Object),
{
    match j {
        Json::Object(es) => {
            let ghost orig = es@;
            let k = key.to_string();
            es.push((k, v));
            assert(es@.drop_last() =~= orig);
        },
        _ => {},
    }
}

} // verus!
