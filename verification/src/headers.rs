//! The shared header set: a mapping of header name to value with
//! case-insensitive names and last-write-wins updates. Names are stored
//! lowercased, so lookups compare exactly.

use crate::json::{lemma_assoc_get_push, lemma_assoc_get_skip, lemma_assoc_get_update,
    spec_assoc_get};
use crate::text::str_eq;
use vstd::prelude::*;

verus! {

/// ASCII lowercase of one character.
pub open spec fn spec_lower_char(c: char) -> char {
    if 'A' <= c && c <= 'Z' {
        ((c as u8) + 32) as char
    } else {
        c
    }
}

/// ASCII lowercase of a character sequence.
pub open spec fn spec_lower(s: Seq<char>) -> Seq<char> {
    s.map(|_i: int, c: char| spec_lower_char(c))
}

/// Lowercasing twice is lowercasing once.
pub proof fn lemma_lower_idempotent(s: Seq<char>)
    ensures
        spec_lower(spec_lower(s)) == spec_lower(s),
{
    assert(spec_lower(spec_lower(s)) =~= spec_lower(s)) by {
        assert(forall|i: int|
            0 <= i < s.len() ==> #[trigger] spec_lower_char(spec_lower_char(s[i]))
                == spec_lower_char(s[i]));
    }
}

/// ASCII lowercase of one character.
pub fn lower_char(c: char) -> (r: char)
    ensures
        r == spec_lower_char(c),
{
    if 'A' <= c && c <= 'Z' {
        ((c as u8) + 32) as char
    } else {
        c
    }
}

/// ASCII lowercase of a string, character by character.
#[verifier::loop_isolation(false)]
pub fn lower_string(s: &str) -> (r: String)
    ensures
        r@ == spec_lower(s@),
{
    let n = s.unicode_len();
    let mut out = String::new();
    let mut i: usize = 0;
    while i < n
        invariant
            i <= n,
            out@ == spec_lower(s@).take(i as int),
        decreases n - i,
    {
        let c = s.get_char(i);
        out.push(lower_char(c));
        proof {
            assert(out@ =~= spec_lower(s@).take(i + 1));
        }
        i += 1;
    }
    proof {
        assert(spec_lower(s@).take(n as int) =~= spec_lower(s@));
    }
    out
}

/// A well-formed header list: every stored name is lowercase, and no two
/// entries share a name. Under this shape the list is a mapping.
pub open spec fn wf_headers(h: Seq<(String, String)>) -> bool {
    &&& forall|i: int| 0 <= i < h.len() ==> #[trigger] h[i].0@ == spec_lower(h[i].0@)
    &&& forall|i: int, j: int| #![trigger h[i].0@, h[j].0@] 0 <= i < j < h.len() ==> h[i].0@ != h[j].0@
}

/// The value a header list gives for a (lowercased) name.
pub open spec fn spec_header_value(h: Seq<(String, String)>, key: Seq<char>) -> Option<Seq<char>> {
    match spec_assoc_get(h, key) {
        Some(v) => Some(v@),
        None => None,
    }
}

/// Looks a name up, case-insensitively.
#[verifier::loop_isolation(false)]
pub fn header_get<'a>(h: &'a Vec<(String, String)>, name: &str) -> (r: Option<&'a String>)
    ensures
        match r {
            Some(v) => spec_header_value(h@, spec_lower(name@)) == Some(v@),
            None => spec_header_value(h@, spec_lower(name@)) is None,
        },
{
    let key = lower_string(name);
    let n = h.len();
    let mut i: usize = 0;
    while i < n
        invariant
            i <= n,
            forall|j: int| 0 <= j < i ==> h@[j].0@ != key@,
        decreases n - i,
    {
        if str_eq(h[i].0.as_str(), key.as_str()) {
            proof {
                lemma_assoc_get_skip(h@, key@, i as int);
                let tail = h@.skip(i as int);
                assert(tail[0] == h@[i as int]);
                assert(spec_assoc_get(tail, key@) == Some(tail[0].1));
            }
            return Some(&h[i].1);
        }
        i += 1;
    }
    proof {
        lemma_assoc_get_skip(h@, key@, n as int);
    }
    None
}

/// Binds `name` (lowercased) to `value`, replacing any present binding and
/// leaving every other name unchanged: one whole-map step, never a partial
/// one.
#[verifier::loop_isolation(false)]
pub fn header_set(h: &mut Vec<(String, String)>, name: &str, value: &str)
    requires
        wf_headers(old(h)@),
    ensures
        wf_headers(final(h)@),
        spec_header_value(final(h)@, spec_lower(name@)) == Some(value@),
        forall|q: Seq<char>|
            q != spec_lower(name@) ==> #[trigger] spec_header_value(final(h)@, q)
                == spec_header_value(old(h)@, q),
{
    let key = lower_string(name);
    proof {
        lemma_lower_idempotent(name@);
    }
    let n = h.len();
    let mut i: usize = 0;
    while i < n
        invariant
            i <= n,
            h@ == old(h)@,
            forall|j: int| 0 <= j < i ==> h@[j].0@ != key@,
        decreases n - i,
    {
        if str_eq(h[i].0.as_str(), key.as_str()) {
            let ghost prev = h@;
            let ghost gk = key;
            let lv = value.to_owned();
            let ghost gv = lv;
            h.set(i, (key, lv));
            proof {
                assert(h@ == prev.update(i as int, (gk, gv)));
                assert forall|q: Seq<char>| #[trigger] spec_assoc_get(h@, q) == (if q == key@ {
                    Some(gv)
                } else {
                    spec_assoc_get(prev, q)
                }) by {
                    lemma_assoc_get_update(prev, i as int, gk, gv, q);
                }
                assert forall|a: int, b: int| #![trigger h@[a].0@, h@[b].0@]
                    0 <= a < b < h@.len() implies h@[a].0@ != h@[b].0@ by {
                    assert(h@[i as int].0@ == prev[i as int].0@);
                    assert(a != i ==> h@[a] == prev[a]);
                    assert(b != i ==> h@[b] == prev[b]);
                }
                assert(forall|j: int|
                    0 <= j < h@.len() ==> #[trigger] h@[j].0@ == spec_lower(h@[j].0@));
            }
            return ;
        }
        i += 1;
    }
    let ghost prev = h@;
    let ghost gk = key;
    let lv = value.to_owned();
    let ghost gv = lv;
    h.push((key, lv));
    proof {
        assert(h@ == prev.push((gk, gv)));
        lemma_assoc_get_skip(prev, gk@, prev.len() as int);
        assert(spec_assoc_get(prev, gk@) is None);
        assert forall|q: Seq<char>| #[trigger] spec_assoc_get(h@, q)
            == (match spec_assoc_get(prev, q) {
            Some(x) => Some(x),
            None => if gk@ == q {
                Some(gv)
            } else {
                None
            },
        }) by {
            lemma_assoc_get_push(prev, gk, gv, q);
        }
        assert forall|a: int, b: int| #![trigger h@[a].0@, h@[b].0@]
            0 <= a < b < h@.len() implies h@[a].0@ != h@[b].0@ by {
            if b < prev.len() {
                assert(h@[a] == prev[a] && h@[b] == prev[b]);
            } else {
                assert(h@[a] == prev[a] && h@[b].0@ == gk@);
            }
        }
        assert(forall|j: int| 0 <= j < h@.len() ==> #[trigger] h@[j].0@ == spec_lower(h@[j].0@));
    }
}

/// An entry-for-entry copy of a header list.
#[verifier::loop_isolation(false)]
pub fn copy_headers(h: &Vec<(String, String)>) -> (r: Vec<(String, String)>)
    ensures
        r@ == h@,
{
    let mut out: Vec<(String, String)> = Vec::new();
    let n = h.len();
    let mut i: usize = 0;
    while i < n
        invariant
            i <= n,
            out@ == h@.take(i as int),
        decreases n - i,
    {
        let k = h[i].0.clone();
        let v = h[i].1.clone();
        out.push((k, v));
        proof {
            assert(out@ =~= h@.take(i + 1));
        }
        i += 1;
    }
    proof {
        assert(h@.take(n as int) =~= h@);
    }
    out
}

/// The value the merge of `base` under `ov` gives a name: the last
/// override of that name wins; a name no override touches keeps its base
/// value.
pub open spec fn spec_merge_value(
    base: Seq<(String, String)>,
    ov: Seq<(String, String)>,
    q: Seq<char>,
) -> Option<Seq<char>>
    decreases ov.len(),
{
    if ov.len() == 0 {
        spec_header_value(base, q)
    } else if spec_lower(ov.last().0@) == q {
        Some(ov.last().1@)
    } else {
        spec_merge_value(base, ov.drop_last(), q)
    }
}

/// Merges per-call override headers over the shared base set: an override
/// wins on a shared name, every other name keeps its base value.
#[verifier::loop_isolation(false)]
pub fn merge_headers(base: &Vec<(String, String)>, overrides: &Vec<(String, String)>) -> (r: Vec<
    (String, String),
>)
    requires
        wf_headers(base@),
    ensures
        wf_headers(r@),
        forall|q: Seq<char>| #[trigger]
            spec_header_value(r@, q) == spec_merge_value(base@, overrides@, q),
{
    let mut out = copy_headers(base);
    let n = overrides.len();
    let mut i: usize = 0;
    proof {
        assert(forall|q: Seq<char>| #[trigger]
            spec_merge_value(base@, overrides@.take(0), q) == spec_header_value(base@, q));
    }
    while i < n
        invariant
            i <= n,
            wf_headers(out@),
            forall|q: Seq<char>| #[trigger]
                spec_header_value(out@, q) == spec_merge_value(base@, overrides@.take(i as int), q),
        decreases n - i,
    {
        header_set(&mut out, overrides[i].0.as_str(), overrides[i].1.as_str());
        proof {
            let t = overrides@.take(i + 1);
            assert(t.drop_last() =~= overrides@.take(i as int));
            assert(t.last() == overrides@[i as int]);
            assert forall|q: Seq<char>| #[trigger] spec_header_value(out@, q) == spec_merge_value(
                base@,
                t,
                q,
            ) by {
                if q == spec_lower(overrides@[i as int].0@) {
                } else {
                }
            }
            assert(overrides@.take((i + 1) as int) == t);
        }
        i += 1;
    }
    proof {
        assert(overrides@.take(n as int) =~= overrides@);
    }
    out
}

} // verus!
