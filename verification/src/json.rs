//! The crate's model of a JSON document.
//!
//! The pagination engine reads totals, page sizes and item arrays out of
//! JSON responses. Those reads are verified over this plain recursive
//! datatype; the one step that needs an outside crate — parsing text into
//! a tree — stands behind a trusted wrapper around `serde_json`.

use crate::text::{find_char, str_eq};
use vstd::prelude::*;

verus! {

/// A JSON document as plain values. Objects keep their entries in source
/// order; numbers are held as `i64` (the engine reads only counts and
/// offsets, which are integral).
#[derive(Debug)]
pub enum JsonValue {
    Null,
    Bool(bool),
    Int(i64),
    Str(String),
    Arr(Vec<JsonValue>),
    Obj(Vec<(String, JsonValue)>),
}

/// First value bound to `key` in an entry list.
pub open spec fn spec_assoc_get<V>(s: Seq<(String, V)>, key: Seq<char>) -> Option<V>
    decreases s.len(),
{
    if s.len() == 0 {
        None
    } else if s[0].0@ == key {
        Some(s[0].1)
    } else {
        spec_assoc_get(s.skip(1), key)
    }
}

/// Appending an entry binds its key only where the list had no binding.
pub proof fn lemma_assoc_get_push<V>(s: Seq<(String, V)>, k: String, v: V, q: Seq<char>)
    ensures
        spec_assoc_get(s.push((k, v)), q) == (match spec_assoc_get(s, q) {
            Some(x) => Some(x),
            None => if k@ == q {
                Some(v)
            } else {
                None
            },
        }),
    decreases s.len(),
{
    if s.len() == 0 {
        let t = s.push((k, v));
        assert(t.len() == 1);
        assert(t[0] == (k, v));
        assert(spec_assoc_get(s, q) is None);
        if k@ == q {
            assert(spec_assoc_get(t, q) == Some(v));
        } else {
            assert(t.skip(1) =~= Seq::<(String, V)>::empty());
            assert(spec_assoc_get(t, q) == spec_assoc_get(t.skip(1), q));
            assert(spec_assoc_get(t.skip(1), q) is None);
        }
    } else {
        assert(s.push((k, v))[0] == s[0]);
        assert(s.push((k, v)).skip(1) =~= s.skip(1).push((k, v)));
        lemma_assoc_get_push(s.skip(1), k, v, q);
    }
}

/// Replacing the first entry of a key rebinds that key and nothing else.
pub proof fn lemma_assoc_get_update<V>(s: Seq<(String, V)>, i: int, k: String, v: V, q: Seq<char>)
    requires
        0 <= i < s.len(),
        k@ == s[i].0@,
        forall|j: int| 0 <= j < i ==> s[j].0@ != s[i].0@,
    ensures
        spec_assoc_get(s.update(i, (k, v)), q) == if q == s[i].0@ {
            Some(v)
        } else {
            spec_assoc_get(s, q)
        },
    decreases i,
{
    let t = s.update(i, (k, v));
    if i == 0 {
        assert(t[0] == (k, v));
        assert(t.skip(1) =~= s.skip(1));
    } else {
        assert(t[0] == s[0]);
        assert(t.skip(1) =~= s.skip(1).update(i - 1, (k, v)));
        assert(s.skip(1)[i - 1] == s[i]);
        assert(forall|j: int| 0 <= j < i - 1 ==> s.skip(1)[j] == s[j + 1]);
        lemma_assoc_get_update(s.skip(1), i - 1, k, v, q);
    }
}

/// Value bound to `key` when `v` is an object; `None` otherwise.
pub open spec fn spec_obj_get(v: JsonValue, key: Seq<char>) -> Option<JsonValue> {
    match v {
        JsonValue::Obj(entries) => spec_assoc_get(entries@, key),
        _ => None,
    }
}

/// Skipping a prefix without a match leaves the first match unchanged.
pub proof fn lemma_assoc_get_skip<V>(s: Seq<(String, V)>, key: Seq<char>, i: int)
    requires
        0 <= i <= s.len(),
        forall|j: int| 0 <= j < i ==> s[j].0@ != key,
    ensures
        spec_assoc_get(s, key) == spec_assoc_get(s.skip(i), key),
    decreases i,
{
    if i > 0 {
        assert(s[0].0@ != key);
        lemma_assoc_get_skip(s.skip(1), key, i - 1);
        assert(s.skip(1).skip(i - 1) =~= s.skip(i));
    } else {
        assert(s.skip(0) =~= s);
    }
}

impl JsonValue {
    /// True when this value is an object.
    pub fn is_object(&self) -> (r: bool)
        ensures
            r == (self is Obj),
    {
        match self {
            JsonValue::Obj(_) => true,
            _ => false,
        }
    }

    /// True when this value is an array.
    pub fn is_array(&self) -> (r: bool)
        ensures
            r == (self is Arr),
    {
        match self {
            JsonValue::Arr(_) => true,
            _ => false,
        }
    }

    /// The value bound to `key`, when this value is an object with such an
    /// entry.
    #[verifier::loop_isolation(false)]
    pub fn get<'a>(&'a self, key: &str) -> (r: Option<&'a JsonValue>)
        ensures
            match r {
                Some(x) => spec_obj_get(*self, key@) == Some(*x),
                None => spec_obj_get(*self, key@) is None,
            },
    {
        match self {
            JsonValue::Obj(entries) => {
                let n = entries.len();
                let mut i: usize = 0;
                while i < n
                    invariant
                        i <= n,
                        n == entries@.len(),
                        forall|j: int| 0 <= j < i ==> entries@[j].0@ != key@,
                    decreases n - i,
                {
                    if str_eq(entries[i].0.as_str(), key) {
                        proof {
                            lemma_assoc_get_skip(entries@, key@, i as int);
                            let tail = entries@.skip(i as int);
                            assert(tail.len() == n - i);
                            assert(tail[0] == entries@[i as int]);
                            assert(tail[0].0@ == key@);
                            assert(spec_assoc_get(tail, key@) == Some(tail[0].1));
                            assert(spec_obj_get(*self, key@) == spec_assoc_get(
                                entries@,
                                key@,
                            ));
                        }
                        return Some(&entries[i].1);
                    }
                    i += 1;
                }
                proof {
                    lemma_assoc_get_skip(entries@, key@, n as int);
                }
                None
            }
            _ => None,
        }
    }

    /// Binds `key` in this object to `value`: replaces the first present
    /// binding, else appends a new entry. Every other key keeps its value.
    #[verifier::loop_isolation(false)]
    pub fn set_key(self, key: &str, value: JsonValue) -> (r: JsonValue)
        requires
            self is Obj,
        ensures
            r is Obj,
            spec_obj_get(r, key@) == Some(value),
            forall|q: Seq<char>|
                q != key@ ==> #[trigger] spec_obj_get(r, q) == spec_obj_get(self, q),
    {
        match self {
            JsonValue::Obj(mut entries) => {
                let ghost orig = entries@;
                let n = entries.len();
                let mut i: usize = 0;
                while i < n
                    invariant
                        i <= n,
                        entries@ == orig,
                        forall|j: int| 0 <= j < i ==> entries@[j].0@ != key@,
                    decreases n - i,
                {
                    if str_eq(entries[i].0.as_str(), key) {
                        let ghost gk = key@;
                        let k2 = key.to_owned();
                        let ghost gpair = (k2, value);
                        entries.set(i, (k2, value));
                        proof {
                            assert(entries@ == orig.update(i as int, gpair));
                            assert forall|q: Seq<char>| #[trigger] spec_assoc_get(entries@, q)
                                == (if q == gk {
                                Some(gpair.1)
                            } else {
                                spec_assoc_get(orig, q)
                            }) by {
                                lemma_assoc_get_update(orig, i as int, gpair.0, gpair.1, q);
                            }
                        }
                        return JsonValue::Obj(entries);
                    }
                    i += 1;
                }
                let ghost gk = key@;
                let k2 = key.to_owned();
                let ghost gpair = (k2, value);
                entries.push((k2, value));
                proof {
                    assert(entries@ == orig.push(gpair));
                    lemma_assoc_get_skip(orig, gk, orig.len() as int);
                    assert(spec_assoc_get(orig, gk) is None);
                    assert forall|q: Seq<char>| #[trigger] spec_assoc_get(entries@, q) == (if q
                        == gk {
                        Some(gpair.1)
                    } else {
                        spec_assoc_get(orig, q)
                    }) by {
                        lemma_assoc_get_push(orig, gpair.0, gpair.1, q);
                    }
                }
                JsonValue::Obj(entries)
            },
            _ => {
                proof {
                    assert(false);
                }
                self
            },
        }
    }

    /// The number held by this value, when it is an integer.
    pub fn as_int(&self) -> (r: Option<i64>)
        ensures
            match r {
                Some(n) => *self == JsonValue::Int(n),
                None => !(*self is Int),
            },
    {
        match self {
            JsonValue::Int(n) => Some(*n),
            _ => None,
        }
    }
}

/// Structural equality of two JSON values, down to leaf texts: same
/// shape, same entry order, same contents.
pub open spec fn spec_json_eq(a: JsonValue, b: JsonValue) -> bool
    decreases a,
{
    match a {
        JsonValue::Null => b is Null,
        JsonValue::Bool(x) => (b matches JsonValue::Bool(y) && x == y),
        JsonValue::Int(x) => (b matches JsonValue::Int(y) && x == y),
        JsonValue::Str(x) => (b matches JsonValue::Str(y) && x@ == y@),
        JsonValue::Arr(xs) => (b matches JsonValue::Arr(ys) && xs@.len() == ys@.len() && (forall|
            i: int,
        |
            0 <= i < xs@.len() ==> spec_json_eq(#[trigger] xs@[i], ys@[i]))),
        JsonValue::Obj(xs) => (b matches JsonValue::Obj(ys) && xs@.len() == ys@.len() && (forall|
            i: int,
        |
            0 <= i < xs@.len() ==> (#[trigger] xs@[i].0@ == ys@[i].0@ && spec_json_eq(
                xs@[i].1,
                ys@[i].1,
            )))),
    }
}

impl JsonValue {
    /// Structural equality with another value.
    #[verifier::loop_isolation(false)]
    pub fn deep_eq(&self, other: &JsonValue) -> (r: bool)
        ensures
            r == spec_json_eq(*self, *other),
        decreases *self,
    {
        match (self, other) {
            (JsonValue::Null, JsonValue::Null) => true,
            (JsonValue::Bool(x), JsonValue::Bool(y)) => *x == *y,
            (JsonValue::Int(x), JsonValue::Int(y)) => *x == *y,
            (JsonValue::Str(x), JsonValue::Str(y)) => str_eq(x.as_str(), y.as_str()),
            (JsonValue::Arr(xs), JsonValue::Arr(ys)) => {
                if xs.len() != ys.len() {
                    return false;
                }
                let n = xs.len();
                let mut i: usize = 0;
                while i < n
                    invariant
                        i <= n,
                        forall|j: int| 0 <= j < i ==> spec_json_eq(#[trigger] xs@[j], ys@[j]),
                    decreases n - i,
                {
                    if !xs[i].deep_eq(&ys[i]) {
                        return false;
                    }
                    i += 1;
                }
                true
            },
            (JsonValue::Obj(xs), JsonValue::Obj(ys)) => {
                if xs.len() != ys.len() {
                    return false;
                }
                let n = xs.len();
                let mut i: usize = 0;
                while i < n
                    invariant
                        i <= n,
                        forall|j: int| #![trigger xs@[j]]
                            0 <= j < i ==> (xs@[j].0@ == ys@[j].0@ && spec_json_eq(
                                xs@[j].1,
                                ys@[j].1,
                            )),
                    decreases n - i,
                {
                    if !str_eq(xs[i].0.as_str(), ys[i].0.as_str()) {
                        return false;
                    }
                    if !xs[i].1.deep_eq(&ys[i].1) {
                        return false;
                    }
                    i += 1;
                }
                true
            },
            _ => false,
        }
    }
}

/// Value reached from `v` by following the dot-separated keys of `path`.
/// An empty segment is an ordinary (empty) key, as in the wire format.
pub open spec fn spec_get_path(v: JsonValue, path: Seq<char>) -> Option<JsonValue>
    decreases path.len(),
{
    match crate::text::spec_find_char(path, '.') {
        None => spec_obj_get(v, path),
        Some(i) => {
            if 0 <= i < path.len() {
                match spec_obj_get(v, path.take(i)) {
                    None => None,
                    Some(w) => spec_get_path(w, path.skip(i + 1)),
                }
            } else {
                None
            }
        },
    }
}

#[verifier::external_type_specification]
#[verifier::external_body]
pub struct ExSerdeValue(serde_json::Value);

/// The tree a JSON text parses to in this crate's model, or `None` for a
/// text that is not JSON. Determined by the text alone.
pub uninterp spec fn json_of(s: Seq<char>) -> Option<JsonValue>;

/// Converts serde_json's tree into the crate's model, one variant arm
/// each. A number that is not an `i64` integer carries nothing the
/// engine reads and becomes `Null`.
#[verifier::external_body]
fn from_serde(v: serde_json::Value) -> JsonValue {
    match v {
        serde_json::Value::Null => JsonValue::Null,
        serde_json::Value::Bool(b) => JsonValue::Bool(b),
        serde_json::Value::Number(n) => match n.as_i64() {
            Some(i) => JsonValue::Int(i),
            None => JsonValue::Null,
        },
        serde_json::Value::String(s) => JsonValue::Str(s),
        serde_json::Value::Array(a) => JsonValue::Arr(a.into_iter().map(from_serde).collect()),
        serde_json::Value::Object(m) => JsonValue::Obj(
            m.into_iter().map(|(k, x)| (k, from_serde(x))).collect(),
        ),
    }
}

/// Relies on `serde_json::from_str`: whether a text parses, and what
/// tree it parses to, is a function of the text alone.
#[verifier::external_body]
pub(crate) fn parse_json(s: &str) -> (r: Option<JsonValue>)
    ensures
        r == json_of(s@),
{
    match serde_json::from_str::<serde_json::Value>(s) {
        Ok(v) => Some(from_serde(v)),
        Err(_) => None,
    }
}

/// A type decodable from one element of a page's item array.
pub trait FromJson: Sized {
    /// The relation the decode promises: which elements decode, and to
    /// what.
    spec fn spec_from_json(v: JsonValue, r: Result<Self, crate::acquire::AcquireError>) -> bool;

    /// Decodes one element. A failure is this element's alone.
    fn from_json(v: &JsonValue) -> (r: Result<Self, crate::acquire::AcquireError>)
        ensures
            Self::spec_from_json(*v, r),
    ;
}

/// Walks a dot-separated path through nested objects, as
/// `get_nested_value` does on the wire format: each segment must name an
/// entry of an object, else the result is `None`.
pub fn get_path<'a>(v: &'a JsonValue, path: &str) -> (r: Option<&'a JsonValue>)
    ensures
        match r {
            Some(x) => spec_get_path(*v, path@) == Some(*x),
            None => spec_get_path(*v, path@) is None,
        },
    decreases path@.len(),
{
    proof {
        crate::text::lemma_find_char_first(path@, '.');
    }
    match find_char(path, '.') {
        None => v.get(path),
        Some(i) => {
            let n = path.unicode_len();
            let head = path.substring_char(0, i);
            let rest = path.substring_char(i + 1, n);
            assert(head@ == path@.take(i as int));
            assert(rest@ == path@.skip(i + 1));
            match v.get(head) {
                None => None,
                Some(w) => get_path(w, rest),
            }
        },
    }
}

} // verus!
