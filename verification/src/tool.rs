//! Small data utilities around the engine: nested JSON lookup, input
//! normalization, cookie rendering, zero-width marking, and clamping.

use crate::json::{lemma_assoc_get_push, spec_assoc_get, spec_get_path, spec_json_eq, spec_obj_get,
    JsonValue};
use crate::text::{find_char, spec_find_char, str_eq};
use vstd::prelude::*;

verus! {

/// What the data utilities can fail with.
#[derive(Debug)]
pub enum DataError {
    ValueError(String),
    TypeError(String),
    Other(String),
}

/// Structure-aware helpers over the crate's JSON model.
#[derive(Debug)]
pub struct DataProcessor;

/// An object that carries its items under an `items` array.
pub open spec fn spec_item_container(v: JsonValue) -> bool {
    match spec_obj_get(v, "items"@) {
        Some(w) => w is Arr,
        None => false,
    }
}

impl DataProcessor {
    /// The value a dotted path reaches from `data`, segment by segment
    /// through nested objects.
    pub fn get_nested_value<'a>(data: &'a JsonValue, path: &str) -> (r: Option<&'a JsonValue>)
        ensures
            match r {
                Some(x) => spec_get_path(*data, path@) == Some(*x),
                None => spec_get_path(*data, path@) is None,
            },
    {
        crate::json::get_path(data, path)
    }

    /// Whether `data` is an object that carries its items under an
    /// `items` array.
    pub fn is_item_container(data: &JsonValue) -> (r: bool)
        ensures
            r == spec_item_container(*data),
    {
        match data.get("items") {
            Some(w) => w.is_array(),
            None => false,
        }
    }

    /// Normalizes an input into the list of records it stands for: an
    /// item container yields its items, any other object stands alone,
    /// an array is taken as is, and anything else is a type error.
    pub fn normalize_input(data: JsonValue) -> (r: Result<Vec<JsonValue>, DataError>)
        ensures
            spec_item_container(data) ==> (match spec_obj_get(data, "items"@) {
                Some(w) => match w {
                    JsonValue::Arr(items) => r == Ok::<Vec<JsonValue>, DataError>(items),
                    _ => false,
                },
                None => false,
            }),
            !spec_item_container(data) && data is Obj ==> (r matches Ok(v) && v@.len() == 1
                && v@[0] == data),
            !spec_item_container(data) ==> (data matches JsonValue::Arr(items) ==> r == Ok::<
                Vec<JsonValue>,
                DataError,
            >(items)),
            !(data is Obj) && !(data is Arr) ==> (r matches Err(DataError::TypeError(m)) && m@
                == "Input must be an object or a list of objects"@),
    {
        if Self::is_item_container(&data) {
            match crate::pagination::decode_page(data, "items") {
                Ok(items) => Ok(items),
                Err(_) => {
                    proof {
                        assert(false);
                    }
                    Ok(Vec::new())
                },
            }
        } else {
            match data {
                JsonValue::Obj(entries) => {
                    let mut v: Vec<JsonValue> = Vec::new();
                    v.push(JsonValue::Obj(entries));
                    Ok(v)
                },
                JsonValue::Arr(items) => Ok(items),
                _ => Err(DataError::TypeError(
                    "Input must be an object or a list of objects".to_owned(),
                )),
            }
        }
    }
}

/// The value a dotted path reads out of one record for comparison: a
/// missing key, or a non-object met where another key remains, reads as
/// `Null`.
pub open spec fn spec_lenient_path(v: JsonValue, path: Seq<char>) -> JsonValue
    decreases path.len(),
{
    if !(v is Obj) {
        JsonValue::Null
    } else {
        match spec_find_char(path, '.') {
            None => match spec_obj_get(v, path) {
                Some(w) => w,
                None => JsonValue::Null,
            },
            Some(i) => {
                if 0 <= i < path.len() {
                    match spec_obj_get(v, path.take(i)) {
                        Some(w) => spec_lenient_path(w, path.skip(i + 1)),
                        None => JsonValue::Null,
                    }
                } else {
                    JsonValue::Null
                }
            },
        }
    }
}

/// Whether a strict walk of the path goes through: every value a key is
/// looked up in must be an object. A missing key ends the walk quietly,
/// as the lenient read does.
pub open spec fn spec_strict_path_ok(v: JsonValue, path: Seq<char>) -> bool
    decreases path.len(),
{
    &&& v is Obj
    &&& match spec_find_char(path, '.') {
        None => true,
        Some(i) => {
            if 0 <= i < path.len() {
                match spec_obj_get(v, path.take(i)) {
                    Some(w) => spec_strict_path_ok(w, path.skip(i + 1)),
                    None => true,
                }
            } else {
                true
            }
        },
    }
}

/// The value a dotted path reads out of one record, leniently.
#[verifier::loop_isolation(false)]
fn lenient_path<'a>(v: &'a JsonValue, path: &str) -> (r: Option<&'a JsonValue>)
    ensures
        match r {
            Some(x) => spec_lenient_path(*v, path@) == *x,
            None => spec_lenient_path(*v, path@) is Null,
        },
    decreases path@.len(),
{
    if !v.is_object() {
        return None;
    }
    proof {
        crate::text::lemma_find_char_first(path@, '.');
    }
    match find_char(path, '.') {
        None => v.get(path),
        Some(i) => {
            let n = path.unicode_len();
            let head = path.substring_char(0, i);
            let rest = path.substring_char(i + 1, n);
            assert(head@ == path@.take(i as int));
            assert(rest@ == path@.skip(i + 1));
            match v.get(head) {
                None => None,
                Some(w) => lenient_path(w, rest),
            }
        },
    }
}

/// Whether a strict walk of the path goes through.
#[verifier::loop_isolation(false)]
fn strict_path_ok(v: &JsonValue, path: &str) -> (r: bool)
    ensures
        r == spec_strict_path_ok(*v, path@),
    decreases path@.len(),
{
    if !v.is_object() {
        return false;
    }
    proof {
        crate::text::lemma_find_char_first(path@, '.');
    }
    match find_char(path, '.') {
        None => true,
        Some(i) => {
            let n = path.unicode_len();
            let head = path.substring_char(0, i);
            let rest = path.substring_char(i + 1, n);
            assert(head@ == path@.take(i as int));
            assert(rest@ == path@.skip(i + 1));
            match v.get(head) {
                None => true,
                Some(w) => strict_path_ok(w, rest),
            }
        },
    }
}

/// A target list holds a value, structurally.
pub open spec fn spec_contains_value(targets: Seq<JsonValue>, v: JsonValue) -> bool {
    exists|i: int| 0 <= i < targets.len() && spec_json_eq(#[trigger] targets[i], v)
}

/// A target list holds a value, structurally.
#[verifier::loop_isolation(false)]
fn contains_value(targets: &Vec<JsonValue>, v: &JsonValue) -> (r: bool)
    ensures
        r == spec_contains_value(targets@, *v),
{
    let n = targets.len();
    let mut i: usize = 0;
    while i < n
        invariant
            i <= n,
            forall|j: int| 0 <= j < i ==> !spec_json_eq(#[trigger] targets@[j], *v),
        decreases n - i,
    {
        if targets[i].deep_eq(v) {
            return true;
        }
        i += 1;
    }
    false
}

/// A record matches the filter when the value its path reads equals one
/// of the targets.
pub open spec fn spec_record_matches(
    rec: JsonValue,
    path: Seq<char>,
    targets: Seq<JsonValue>,
) -> bool {
    spec_contains_value(targets, spec_lenient_path(rec, path))
}

/// The records an input stands for: an item container's items, a lone
/// object, an array as given — or nothing, for any other shape.
pub open spec fn spec_records_of(data: JsonValue) -> Option<Seq<JsonValue>> {
    if spec_item_container(data) {
        match spec_obj_get(data, "items"@) {
            Some(w) => match w {
                JsonValue::Arr(items) => Some(items@),
                _ => None,
            },
            None => None,
        }
    } else {
        match data {
            JsonValue::Obj(_) => Some(seq![data]),
            JsonValue::Arr(items) => Some(items@),
            _ => None,
        }
    }
}

/// How many records match the filter.
pub open spec fn spec_match_count(
    records: Seq<JsonValue>,
    path: Seq<char>,
    targets: Seq<JsonValue>,
) -> int
    decreases records.len(),
{
    if records.len() == 0 {
        0
    } else {
        (if spec_record_matches(records[0], path, targets) {
            1int
        } else {
            0int
        }) + spec_match_count(records.skip(1), path, targets)
    }
}

/// No filter matches a negative number of records.
proof fn lemma_match_count_nonneg(records: Seq<JsonValue>, path: Seq<char>, targets: Seq<JsonValue>)
    ensures
        spec_match_count(records, path, targets) >= 0,
    decreases records.len(),
{
    if records.len() > 0 {
        lemma_match_count_nonneg(records.skip(1), path, targets);
    }
}

/// The `k`-th matching record, counting matches only.
pub open spec fn spec_nth_match(
    records: Seq<JsonValue>,
    path: Seq<char>,
    targets: Seq<JsonValue>,
    k: int,
) -> JsonValue
    decreases records.len(),
{
    if records.len() == 0 {
        JsonValue::Null
    } else if spec_record_matches(records[0], path, targets) {
        if k == 0 {
            records[0]
        } else {
            spec_nth_match(records.skip(1), path, targets, k - 1)
        }
    } else {
        spec_nth_match(records.skip(1), path, targets, k)
    }
}

impl DataProcessor {
    /// Keeps the records whose dotted-path value equals one of the
    /// targets, in input order. The input is first normalized to its
    /// records; each record's path value is then read leniently — a
    /// missing key, or a non-object met where a key remains, reads as
    /// `Null` — except that in strict mode a non-object met on the path
    /// fails the whole call.
    #[verifier::loop_isolation(false)]
    pub fn filter_by_nested_values(
        data: JsonValue,
        id_path: &str,
        target_values: &Vec<JsonValue>,
        strict_mode: bool,
    ) -> (r: Result<Vec<JsonValue>, DataError>)
        ensures
            id_path@.len() == 0 ==> (r matches Err(DataError::ValueError(m)) && m@
                == "id_path must be a non-empty string"@),
            id_path@.len() > 0 ==> match spec_records_of(data) {
                None => r matches Err(DataError::TypeError(_)),
                Some(records) => {
                    &&& (strict_mode && (exists|i: int|
                        0 <= i < records.len() && !spec_strict_path_ok(
                            #[trigger] records[i],
                            id_path@,
                        ))) <==> (r matches Err(DataError::ValueError(m)) && m@
                        == "Non-object value on the path"@)
                    &&& (r matches Ok(out) ==> {
                        &&& out@.len() == spec_match_count(records, id_path@, target_values@)
                        &&& forall|k: int|
                            0 <= k < out@.len() ==> #[trigger] out@[k] == spec_nth_match(
                                records,
                                id_path@,
                                target_values@,
                                k,
                            )
                    })
                    &&& (!(strict_mode && (exists|i: int|
                        0 <= i < records.len() && !spec_strict_path_ok(
                            #[trigger] records[i],
                            id_path@,
                        ))) ==> r is Ok)
                },
            },
    {
        if id_path.unicode_len() == 0 {
            return Err(DataError::ValueError("id_path must be a non-empty string".to_owned()));
        }
        let ghost gdata = data;
        let records = match Self::normalize_input(data) {
            Ok(v) => v,
            Err(e) => {
                return Err(e);
            },
        };
        let ghost grecords = records@;
        proof {
            if spec_item_container(gdata) {
                assert(spec_records_of(gdata) == Some(grecords));
            } else if gdata is Obj {
                assert(grecords =~= seq![gdata]);
                assert(spec_records_of(gdata) == Some(grecords));
            } else {
                assert(spec_records_of(gdata) == Some(grecords));
            }
        }
        let ghost path = id_path@;
        let ghost targets = target_values@;
        let mut rest = records;
        let mut out: Vec<JsonValue> = Vec::new();
        let n = rest.len();
        let mut i: usize = 0;
        while i < n
            invariant
                i <= n,
                n == grecords.len(),
                rest@ == grecords.skip(i as int),
                out@.len() + spec_match_count(rest@, path, targets) == spec_match_count(
                    grecords,
                    path,
                    targets,
                ),
                forall|k: int|
                    0 <= k < out@.len() ==> #[trigger] out@[k] == spec_nth_match(
                        grecords,
                        path,
                        targets,
                        k,
                    ),
                forall|j: int|
                    0 <= j < spec_match_count(rest@, path, targets) ==> #[trigger] spec_nth_match(
                        rest@,
                        path,
                        targets,
                        j,
                    ) == spec_nth_match(grecords, path, targets, out@.len() + j),
                strict_mode ==> forall|j: int|
                    0 <= j < i ==> spec_strict_path_ok(#[trigger] grecords[j], path),
            decreases n - i,
        {
            let ghost prev_rest = rest@;
            let ghost prev_out = out@;
            let record = rest.remove(0);
            let ghost grec = record;
            proof {
                assert(grec == prev_rest[0]);
                assert(rest@ =~= prev_rest.skip(1));
            }
            if strict_mode {
                if !strict_path_ok(&record, id_path) {
                    proof {
                        assert(grecords[i as int] == grec);
                        assert(!spec_strict_path_ok(grecords[i as int], path));
                    }
                    return Err(DataError::ValueError("Non-object value on the path".to_owned()));
                }
            }
            let matched = match lenient_path(&record, id_path) {
                Some(x) => contains_value(target_values, x),
                None => {
                    let null_value = JsonValue::Null;
                    contains_value(target_values, &null_value)
                },
            };
            proof {
                assert(matched == spec_record_matches(grec, path, targets));
                lemma_match_count_nonneg(rest@, path, targets);
            }
            if matched {
                out.push(record);
                proof {
                    assert(spec_match_count(prev_rest, path, targets) == 1 + spec_match_count(
                        rest@,
                        path,
                        targets,
                    ));
                    assert(spec_nth_match(prev_rest, path, targets, 0) == grec);
                    assert(spec_nth_match(prev_rest, path, targets, 0) == spec_nth_match(
                        grecords,
                        path,
                        targets,
                        prev_out.len() as int,
                    ));
                    assert forall|j: int|
                        0 <= j < spec_match_count(rest@, path, targets) implies #[trigger] spec_nth_match(
                        rest@,
                        path,
                        targets,
                        j,
                    ) == spec_nth_match(grecords, path, targets, out@.len() + j) by {
                        assert(spec_nth_match(prev_rest, path, targets, j + 1) == spec_nth_match(
                            rest@,
                            path,
                            targets,
                            j,
                        ));
                        assert(spec_nth_match(prev_rest, path, targets, j + 1) == spec_nth_match(
                            grecords,
                            path,
                            targets,
                            prev_out.len() + j + 1,
                        ));
                    }
                }
            } else {
                proof {
                    assert(spec_match_count(prev_rest, path, targets) == spec_match_count(
                        rest@,
                        path,
                        targets,
                    ));
                    assert forall|j: int|
                        0 <= j < spec_match_count(rest@, path, targets) implies #[trigger] spec_nth_match(
                        rest@,
                        path,
                        targets,
                        j,
                    ) == spec_nth_match(grecords, path, targets, out@.len() + j) by {
                        assert(spec_nth_match(prev_rest, path, targets, j) == spec_nth_match(
                            rest@,
                            path,
                            targets,
                            j,
                        ));
                    }
                }
            }
            i += 1;
        }
        proof {
            assert(rest@.len() == 0);
            assert(spec_match_count(rest@, path, targets) == 0);
        }
        Ok(out)
    }
}

/// A name list holds a key.
pub open spec fn spec_has_str(l: Seq<String>, k: Seq<char>) -> bool {
    exists|i: int| 0 <= i < l.len() && l[i]@ == k
}

/// The view of an optional name list.
pub open spec fn spec_opt_names(l: Option<&Vec<String>>) -> Option<Seq<String>> {
    match l {
        Some(v) => Some(v@),
        None => None,
    }
}

/// Whether the filtering choice keeps a key: a list of allowed names
/// keeps exactly those, a list of excluded names keeps everything else,
/// and no list keeps everything. Giving both lists keeps nothing; the
/// filter rejects that combination up front.
pub open spec fn spec_key_kept(
    k: Seq<char>,
    allowed: Option<Seq<String>>,
    excluded: Option<Seq<String>>,
) -> bool {
    match allowed {
        Some(inc) => match excluded {
            Some(_) => false,
            None => spec_has_str(inc, k),
        },
        None => match excluded {
            Some(exc) => !spec_has_str(exc, k),
            None => true,
        },
    }
}

/// A name list holds a key.
#[verifier::loop_isolation(false)]
fn has_str(l: &Vec<String>, k: &str) -> (r: bool)
    ensures
        r == spec_has_str(l@, k@),
{
    let n = l.len();
    let mut i: usize = 0;
    while i < n
        invariant
            i <= n,
            forall|j: int| 0 <= j < i ==> l@[j]@ != k@,
        decreases n - i,
    {
        if str_eq(l[i].as_str(), k) {
            return true;
        }
        i += 1;
    }
    false
}

/// Whether the filtering choice keeps a key.
fn key_kept(k: &str, allowed: Option<&Vec<String>>, excluded: Option<&Vec<String>>) -> (r: bool)
    ensures
        r == spec_key_kept(k@, spec_opt_names(allowed), spec_opt_names(excluded)),
{
    match allowed {
        Some(inc) => match excluded {
            Some(_) => false,
            None => has_str(inc, k),
        },
        None => match excluded {
            Some(exc) => !has_str(exc, k),
            None => true,
        },
    }
}

/// One object's entries after filtering: a kept key keeps its first
/// value, a dropped key is bound to nothing.
pub open spec fn spec_filtered_obj(
    src: JsonValue,
    dst: JsonValue,
    allowed: Option<Seq<String>>,
    excluded: Option<Seq<String>>,
) -> bool {
    &&& dst is Obj
    &&& forall|q: Seq<char>| #[trigger]
        spec_obj_get(dst, q) == (if spec_key_kept(q, allowed, excluded) {
            spec_obj_get(src, q)
        } else {
            None
        })
}

/// Filters one entry list down to its kept keys, in order.
#[verifier::loop_isolation(false)]
fn filter_entries(
    entries: Vec<(String, JsonValue)>,
    allowed: Option<&Vec<String>>,
    excluded: Option<&Vec<String>>,
) -> (r: Vec<(String, JsonValue)>)
    ensures
        forall|q: Seq<char>| #[trigger]
            spec_assoc_get(r@, q) == (if spec_key_kept(
                q,
                spec_opt_names(allowed),
                spec_opt_names(excluded),
            ) {
                spec_assoc_get(entries@, q)
            } else {
                None
            }),
{
    let ghost orig = entries@;
    let ghost inc = spec_opt_names(allowed);
    let ghost exc = spec_opt_names(excluded);
    let mut rest = entries;
    let mut out: Vec<(String, JsonValue)> = Vec::new();
    let n = rest.len();
    let mut i: usize = 0;
    while i < n
        invariant
            i <= n,
            n == orig.len(),
            rest@ == orig.skip(i as int),
            forall|q: Seq<char>|
                spec_key_kept(q, inc, exc) ==> #[trigger] spec_assoc_get(orig, q) == (
                match spec_assoc_get(out@, q) {
                    Some(v) => Some(v),
                    None => spec_assoc_get(rest@, q),
                }),
            forall|q: Seq<char>|
                !spec_key_kept(q, inc, exc) ==> #[trigger] spec_assoc_get(out@, q) is None,
        decreases n - i,
    {
        let ghost prev_rest = rest@;
        let ghost prev_out = out@;
        let pair = rest.remove(0);
        let ghost gpair = pair;
        proof {
            assert(gpair == prev_rest[0]);
            assert(rest@ =~= prev_rest.skip(1));
        }
        if key_kept(pair.0.as_str(), allowed, excluded) {
            out.push(pair);
            proof {
                assert(out@ == prev_out.push(gpair));
                assert forall|q: Seq<char>| #[trigger] spec_assoc_get(out@, q) == (
                match spec_assoc_get(prev_out, q) {
                    Some(x) => Some(x),
                    None => if gpair.0@ == q {
                        Some(gpair.1)
                    } else {
                        None
                    },
                }) by {
                    lemma_assoc_get_push(prev_out, gpair.0, gpair.1, q);
                }
            }
        }
        i += 1;
    }
    proof {
        assert(rest@.len() == 0);
    }
    out
}

/// How many elements of a list are objects.
pub open spec fn spec_obj_count(items: Seq<JsonValue>) -> int
    decreases items.len(),
{
    if items.len() == 0 {
        0
    } else {
        (if items[0] is Obj {
            1int
        } else {
            0int
        }) + spec_obj_count(items.skip(1))
    }
}

/// A list never holds a negative number of objects.
proof fn lemma_obj_count_nonneg(items: Seq<JsonValue>)
    ensures
        spec_obj_count(items) >= 0,
    decreases items.len(),
{
    if items.len() > 0 {
        lemma_obj_count_nonneg(items.skip(1));
    }
}

/// The `k`-th object of a list, counting objects only.
pub open spec fn spec_nth_obj(items: Seq<JsonValue>, k: int) -> JsonValue
    decreases items.len(),
{
    if items.len() == 0 {
        JsonValue::Null
    } else if items[0] is Obj {
        if k == 0 {
            items[0]
        } else {
            spec_nth_obj(items.skip(1), k - 1)
        }
    } else {
        spec_nth_obj(items.skip(1), k)
    }
}

impl DataProcessor {
    /// Filters a record, or a list of records, down to chosen fields:
    /// with a list of allowed names only those fields stay; with a list
    /// of excluded names everything else stays. Giving both lists at
    /// once is an error, as is an input that is neither an object nor an
    /// array. In an array every object is filtered and every other
    /// element is dropped.
    #[verifier::loop_isolation(false)]
    pub fn filter_data(
        data: JsonValue,
        allowed: Option<&Vec<String>>,
        excluded: Option<&Vec<String>>,
    ) -> (r: Result<JsonValue, DataError>)
        ensures
            (allowed is Some && excluded is Some) ==> (r matches Err(DataError::ValueError(m))
                && m@ == "Cannot give allowed and excluded fields at once"@),
            !(allowed is Some && excluded is Some) ==> {
                &&& data is Obj ==> (r matches Ok(d) && spec_filtered_obj(
                    data,
                    d,
                    spec_opt_names(allowed),
                    spec_opt_names(excluded),
                ))
                &&& (data matches JsonValue::Arr(items) ==> (r matches Ok(d) && d matches
                    JsonValue::Arr(outs) && {
                    &&& outs@.len() == spec_obj_count(items@)
                    &&& forall|k: int|
                        0 <= k < outs@.len() ==> spec_filtered_obj(
                            spec_nth_obj(items@, k),
                            #[trigger] outs@[k],
                            spec_opt_names(allowed),
                            spec_opt_names(excluded),
                        )
                }))
                &&& (!(data is Obj) && !(data is Arr)) ==> (r matches Err(DataError::TypeError(m))
                    && m@ == "Unsupported data type"@)
            },
    {
        if allowed.is_some() && excluded.is_some() {
            return Err(DataError::ValueError(
                "Cannot give allowed and excluded fields at once".to_owned(),
            ));
        }
        let ghost inc = spec_opt_names(allowed);
        let ghost exc = spec_opt_names(excluded);
        match data {
            JsonValue::Obj(entries) => Ok(JsonValue::Obj(filter_entries(entries, allowed, excluded))),
            JsonValue::Arr(items) => {
                let ghost orig = items@;
                let mut rest = items;
                let mut out: Vec<JsonValue> = Vec::new();
                let n = rest.len();
                let mut i: usize = 0;
                while i < n
                    invariant
                        i <= n,
                        n == orig.len(),
                        rest@ == orig.skip(i as int),
                        out@.len() + spec_obj_count(rest@) == spec_obj_count(orig),
                        forall|k: int|
                            0 <= k < out@.len() ==> spec_filtered_obj(
                                spec_nth_obj(orig, k),
                                #[trigger] out@[k],
                                inc,
                                exc,
                            ),
                        forall|j: int|
                            0 <= j < spec_obj_count(rest@) ==> #[trigger] spec_nth_obj(rest@, j)
                                == spec_nth_obj(orig, out@.len() + j),
                    decreases n - i,
                {
                    let ghost prev_rest = rest@;
                    let ghost prev_out = out@;
                    let element = rest.remove(0);
                    let ghost ge = element;
                    proof {
                        assert(ge == prev_rest[0]);
                        assert(rest@ =~= prev_rest.skip(1));
                    }
                    match element {
                        JsonValue::Obj(entries) => {
                            let ghost gentries = entries@;
                            let filtered = JsonValue::Obj(filter_entries(entries, allowed, excluded));
                            out.push(filtered);
                            proof {
                                lemma_obj_count_nonneg(rest@);
                                assert(spec_obj_count(prev_rest) == 1 + spec_obj_count(rest@));
                                assert(spec_nth_obj(prev_rest, 0) == ge);
                                assert(spec_nth_obj(prev_rest, 0) == spec_nth_obj(
                                    orig,
                                    prev_out.len() as int,
                                ));
                                assert(spec_filtered_obj(ge, filtered, inc, exc)) by {
                                    assert(forall|q: Seq<char>| #[trigger]
                                        spec_obj_get(ge, q) == spec_assoc_get(gentries, q));
                                }
                                assert forall|j: int|
                                    0 <= j < spec_obj_count(rest@) implies #[trigger] spec_nth_obj(
                                    rest@,
                                    j,
                                ) == spec_nth_obj(orig, out@.len() + j) by {
                                    assert(spec_nth_obj(prev_rest, j + 1) == spec_nth_obj(
                                        rest@,
                                        j,
                                    ));
                                    assert(spec_nth_obj(prev_rest, j + 1) == spec_nth_obj(
                                        orig,
                                        prev_out.len() + j + 1,
                                    ));
                                }
                            }
                        },
                        _ => {
                            proof {
                                assert(spec_obj_count(prev_rest) == spec_obj_count(rest@));
                                assert forall|j: int|
                                    0 <= j < spec_obj_count(rest@) implies #[trigger] spec_nth_obj(
                                    rest@,
                                    j,
                                ) == spec_nth_obj(orig, out@.len() + j) by {
                                    assert(spec_nth_obj(prev_rest, j) == spec_nth_obj(rest@, j));
                                }
                            }
                        },
                    }
                    i += 1;
                }
                proof {
                    assert(rest@.len() == 0);
                    assert(spec_obj_count(rest@) == 0);
                }
                Ok(JsonValue::Arr(out))
            },
            _ => Err(DataError::TypeError("Unsupported data type".to_owned())),
        }
    }
}

/// Conversions between plain representations.
#[derive(Debug)]
pub struct DataConverter;

/// The `Cookie` header line a list of cookie pairs renders to:
/// `name=value` entries joined by `"; "`, in order.
pub open spec fn spec_cookie_line(c: Seq<(String, String)>) -> Seq<char>
    decreases c.len(),
{
    if c.len() == 0 {
        Seq::empty()
    } else if c.len() == 1 {
        c[0].0@ + "="@ + c[0].1@
    } else {
        spec_cookie_line(c.drop_last()) + "; "@ + c.last().0@ + "="@ + c.last().1@
    }
}

impl DataConverter {
    /// Renders cookie pairs as one `Cookie` header line.
    #[verifier::loop_isolation(false)]
    pub fn convert_cookie(cookie: &Vec<(String, String)>) -> (r: String)
        ensures
            r@ == spec_cookie_line(cookie@),
    {
        let mut s = String::new();
        let n = cookie.len();
        let mut i: usize = 0;
        while i < n
            invariant
                i <= n,
                s@ == spec_cookie_line(cookie@.take(i as int)),
            decreases n - i,
        {
            if i > 0 {
                s.append("; ");
            }
            s.append(cookie[i].0.as_str());
            s.append("=");
            s.append(cookie[i].1.as_str());
            proof {
                let t = cookie@.take(i + 1);
                assert(t.drop_last() =~= cookie@.take(i as int));
                assert(t.last() == cookie@[i as int]);
                assert(t[0] == cookie@[0]);
            }
            i += 1;
        }
        proof {
            assert(cookie@.take(n as int) =~= cookie@);
        }
        s
    }
}

/// Text markers and related string work.
#[derive(Debug)]
pub struct StringProcessor;

/// Every character preceded by a zero-width space.
pub open spec fn spec_interleave_zw(s: Seq<char>) -> Seq<char>
    decreases s.len(),
{
    if s.len() == 0 {
        Seq::empty()
    } else {
        spec_interleave_zw(s.drop_last()).push('\u{200b}').push(s.last())
    }
}

/// The text with its leading zero-width spaces removed.
pub open spec fn spec_trim_zw(s: Seq<char>) -> Seq<char>
    decreases s.len(),
{
    if s.len() > 0 && s[0] == '\u{200b}' {
        spec_trim_zw(s.skip(1))
    } else {
        s
    }
}

/// Trimming removes exactly the leading run of zero-width spaces.
proof fn lemma_trim_zw_skip(s: Seq<char>, k: int)
    requires
        0 <= k <= s.len(),
        forall|j: int| 0 <= j < k ==> s[j] == '\u{200b}',
        k < s.len() ==> s[k] != '\u{200b}',
    ensures
        spec_trim_zw(s) == s.skip(k),
    decreases k,
{
    if k == 0 {
        assert(s.skip(0) =~= s);
    } else {
        assert(s[0] == '\u{200b}');
        lemma_trim_zw_skip(s.skip(1), k - 1);
        assert(s.skip(1).skip(k - 1) =~= s.skip(k));
        assert(forall|j: int| 0 <= j < k - 1 ==> s.skip(1)[j] == s[j + 1]);
    }
}

impl StringProcessor {
    /// Marks a text against naive matching: a zero-width space before
    /// each character, with the leading run of zero-width spaces then
    /// stripped.
    #[verifier::loop_isolation(false)]
    pub fn insert_zero_width(text: &str) -> (r: String)
        ensures
            r@ == spec_trim_zw(spec_interleave_zw(text@)),
    {
        let n = text.unicode_len();
        let mut inter = String::new();
        let mut i: usize = 0;
        while i < n
            invariant
                i <= n,
                inter@ == spec_interleave_zw(text@.take(i as int)),
            decreases n - i,
        {
            inter.push('\u{200b}');
            inter.push(text.get_char(i));
            proof {
                let t = text@.take(i + 1);
                assert(t.drop_last() =~= text@.take(i as int));
                assert(t.last() == text@[i as int]);
            }
            i += 1;
        }
        proof {
            assert(text@.take(n as int) =~= text@);
        }
        let m = inter.unicode_len();
        let mut k: usize = 0;
        while k < m
            invariant
                k <= m,
                forall|j: int| 0 <= j < k ==> inter@[j] == '\u{200b}',
            decreases m - k,
        {
            if inter.get_char(k) != '\u{200b}' {
                proof {
                    lemma_trim_zw_skip(inter@, k as int);
                }
                return inter.substring_char(k, m).to_owned();
            }
            k += 1;
        }
        proof {
            lemma_trim_zw_skip(inter@, m as int);
            assert(inter@.skip(m as int) =~= Seq::<char>::empty());
        }
        String::new()
    }
}

/// Plain numeric helpers.
#[derive(Debug)]
pub struct MathUtils;

impl MathUtils {
    /// `value` forced into `[min_val, max_val]`; with an inverted range
    /// the upper bound wins, as chaining max then min does.
    pub fn clamp(value: i32, min_val: i32, max_val: i32) -> (r: i32)
        ensures
            r == if value < min_val {
                if min_val > max_val {
                    max_val
                } else {
                    min_val
                }
            } else if value > max_val {
                max_val
            } else {
                value
            },
    {
        let lower = if value > min_val {
            value
        } else {
            min_val
        };
        if lower < max_val {
            lower
        } else {
            max_val
        }
    }
}

} // verus!
