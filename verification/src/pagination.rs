//! The pagination engine: planning page counts and per-page request
//! parameters, decoding one page's item array, and flattening fetched
//! pages into one capped output sequence. The scheduler that bounds how
//! many fetches run at once is a small state machine here; the embedding
//! program performs the fetches it allows.

use crate::acquire::{AcquireError, HttpMethod};
use crate::json::{spec_get_path, spec_obj_get, JsonValue};
use crate::text::str_eq;
use vstd::arithmetic::div_mod::{lemma_fundamental_div_mod, lemma_mod_bound};
use vstd::arithmetic::mul::lemma_mul_inequality;
use vstd::math::min;
use vstd::prelude::*;

verus! {

/// Page size used when neither the request nor the response names one.
pub const DEFAULT_PAGE_SIZE: i64 = 5;

/// At most this many page fetches are in flight at once.
pub const MAX_IN_FLIGHT: u8 = 3;

/// The four field names that map a paged endpoint: the query key naming
/// the page size, the query key naming the offset or page number, and the
/// response fields declaring effective page size and offset.
#[derive(Debug)]
pub struct PaginationConfig {
    pub amount_key: String,
    pub offset_key: String,
    pub response_amount_key: String,
    pub response_offset_key: String,
}

impl PaginationConfig {
    /// The mapping assumed when the caller gives none: reads page by
    /// offset, writes page by number.
    pub fn default_for(method: HttpMethod) -> (r: Self)
        ensures
            r.amount_key@ == "limit"@,
            r.offset_key@ == if method is Get {
                "offset"@
            } else {
                "current_page"@
            },
            r.response_amount_key@ == "limit"@,
            r.response_offset_key@ == "offset"@,
    {
        PaginationConfig {
            amount_key: "limit".to_owned(),
            offset_key: if matches!(method, HttpMethod::Get) {
                "offset".to_owned()
            } else {
                "current_page".to_owned()
            },
            response_amount_key: "limit".to_owned(),
            response_offset_key: "offset".to_owned(),
        }
    }
}

/// Total item count the initial response declares under the dotted
/// `total_key` path: a non-negative integer, else undetermined.
pub open spec fn spec_total_of(initial: JsonValue, total_key: Seq<char>) -> Option<i64> {
    match spec_get_path(initial, total_key) {
        Some(v) => match v {
            JsonValue::Int(n) => if n >= 0 {
                Some(n)
            } else {
                None
            },
            _ => None,
        },
        None => None,
    }
}

/// Page size resolved with the documented priority: the caller's own
/// request parameter, else the response's declared page size, else the
/// fixed default. A negative declaration counts as absent.
pub open spec fn spec_page_size(
    params: JsonValue,
    initial: JsonValue,
    config: PaginationConfig,
) -> i64 {
    match spec_obj_get(params, config.amount_key@) {
        Some(v) => match v {
            JsonValue::Int(n) => if n >= 0 {
                n
            } else {
                spec_response_page_size(initial, config)
            },
            _ => spec_response_page_size(initial, config),
        },
        None => spec_response_page_size(initial, config),
    }
}

/// Page size the response itself declares, else the fixed default.
pub open spec fn spec_response_page_size(initial: JsonValue, config: PaginationConfig) -> i64 {
    match spec_obj_get(initial, config.response_amount_key@) {
        Some(v) => match v {
            JsonValue::Int(n) => if n >= 0 {
                n
            } else {
                DEFAULT_PAGE_SIZE
            },
            _ => DEFAULT_PAGE_SIZE,
        },
        None => DEFAULT_PAGE_SIZE,
    }
}

/// Ceiling division: the number of pages `total` items fill at `size`
/// items a page.
pub open spec fn spec_ceil_div(total: int, size: int) -> int
    recommends
        size >= 1,
{
    (total + size - 1) / size
}

/// Ceiling division partitions the items: every page before the last is
/// full, the last page holds what remains, and nothing is lost — the
/// pages cover `total` exactly.
pub proof fn lemma_pagination_partition(total: int, size: int)
    requires
        size >= 1,
        total >= 0,
    ensures
        spec_ceil_div(total, size) >= 0,
        total <= spec_ceil_div(total, size) * size,
        total > 0 ==> (spec_ceil_div(total, size) - 1) * size < total,
        total == 0 ==> spec_ceil_div(total, size) == 0,
        spec_ceil_div(total, size) <= total,
{
    let q = spec_ceil_div(total, size);
    lemma_fundamental_div_mod(total + size - 1, size);
    lemma_mod_bound(total + size - 1, size);
    let r = (total + size - 1) % size;
    assert(total + size - 1 == q * size + r);
    if total == 0 {
        assert(q * size == size - 1 - r);
        assert(q == 0) by (nonlinear_arith)
            requires
                q * size == size - 1 - r,
                0 <= r < size,
                size >= 1,
        ;
    } else {
        assert(q * size == total + (size - 1 - r));
        assert(total <= q * size);
        assert((q - 1) * size == q * size - size) by (nonlinear_arith);
        assert((q - 1) * size < total);
        assert(q >= 1) by (nonlinear_arith)
            requires
                q * size >= total,
                total > 0,
                size >= 1,
                (q - 1) * size < total,
        ;
        assert(q <= total) by (nonlinear_arith)
            requires
                (q - 1) * size < total,
                size >= 1,
                q >= 1,
        ;
    }
}

/// What the planner computed for one paged endpoint.
#[derive(Debug, Clone, Copy)]
pub struct PaginationPlan {
    pub total_items: u64,
    pub items_per_page: u64,
    pub total_pages: u64,
}

impl PaginationPlan {
    /// The plan's internal shape: totals fit the wire's integer range and
    /// the page count is the ceiling of items over page size.
    pub open spec fn wf(&self) -> bool {
        &&& self.total_items <= i64::MAX
        &&& 1 <= self.items_per_page <= i64::MAX
        &&& self.total_pages == spec_ceil_div(self.total_items as int, self.items_per_page as int)
    }
}

/// Plans the whole fetch from the initial response: reads the declared
/// total under `total_key`, resolves the page size, and computes the page
/// count by ceiling division. An undetermined total or a page size of
/// zero is a configuration error, and says which.
pub fn plan_pagination(
    initial: &JsonValue,
    params: &JsonValue,
    total_key: &str,
    config: &PaginationConfig,
) -> (r: Result<PaginationPlan, AcquireError>)
    ensures
        r is Ok <==> (spec_total_of(*initial, total_key@) is Some && spec_page_size(
            *params,
            *initial,
            *config,
        ) >= 1),
        spec_total_of(*initial, total_key@) is None ==> (r matches Err(
            AcquireError::PaginationConfig(m),
        ) && m@ == "Failed to get total items"@),
        (spec_total_of(*initial, total_key@) is Some && spec_page_size(*params, *initial, *config)
            == 0) ==> (r matches Err(AcquireError::PaginationConfig(m)) && m@
            == "Invalid items per page"@),
        r matches Ok(plan) ==> {
            &&& plan.wf()
            &&& Some(plan.total_items as i64) == spec_total_of(*initial, total_key@)
            &&& plan.items_per_page as i64 == spec_page_size(*params, *initial, *config)
        },
{
    let total: u64 = match crate::json::get_path(initial, total_key) {
        Some(v) => match v.as_int() {
            Some(n) => if n >= 0 {
                n as u64
            } else {
                return Err(AcquireError::PaginationConfig("Failed to get total items".to_owned()));
            },
            None => {
                return Err(AcquireError::PaginationConfig("Failed to get total items".to_owned()));
            },
        },
        None => {
            return Err(AcquireError::PaginationConfig("Failed to get total items".to_owned()));
        },
    };
    let from_params: Option<i64> = match params.get(config.amount_key.as_str()) {
        Some(v) => match v.as_int() {
            Some(n) => if n >= 0 {
                Some(n)
            } else {
                None
            },
            None => None,
        },
        None => None,
    };
    let size: i64 = match from_params {
        Some(n) => n,
        None => match initial.get(config.response_amount_key.as_str()) {
            Some(v) => match v.as_int() {
                Some(n) => if n >= 0 {
                    n
                } else {
                    DEFAULT_PAGE_SIZE
                },
                None => DEFAULT_PAGE_SIZE,
            },
            None => DEFAULT_PAGE_SIZE,
        },
    };
    if size == 0 {
        return Err(AcquireError::PaginationConfig("Invalid items per page".to_owned()));
    }
    let size_u: u64 = size as u64;
    let total_pages: u64 = (total + size_u - 1) / size_u;
    proof {
        lemma_pagination_partition(total as int, size_u as int);
    }
    Ok(PaginationPlan { total_items: total, items_per_page: size_u, total_pages })
}

/// The request parameters that fetch page `page`: the caller's own
/// parameters with the offset key rebound as the strategy directs —
/// an item offset for "offset", a one-based ordinal for "page". Any
/// other strategy name is a configuration error for this page, and every
/// page of the run fails the same way.
pub fn page_request_params(
    params: JsonValue,
    config: &PaginationConfig,
    strategy: &str,
    page: u64,
    plan: &PaginationPlan,
) -> (r: Result<JsonValue, AcquireError>)
    requires
        params is Obj,
        plan.wf(),
        page < plan.total_pages,
    ensures
        r is Ok <==> (strategy@ == "offset"@ || strategy@ == "page"@),
        strategy@ == "offset"@ ==> (r matches Ok(p) && {
            &&& p is Obj
            &&& spec_obj_get(p, config.offset_key@) == Some(
                JsonValue::Int((page * plan.items_per_page) as i64),
            )
            &&& forall|q: Seq<char>|
                q != config.offset_key@ ==> #[trigger] spec_obj_get(p, q) == spec_obj_get(
                    params,
                    q,
                )
        }),
        (strategy@ != "offset"@ && strategy@ == "page"@) ==> (r matches Ok(p) && {
            &&& p is Obj
            &&& spec_obj_get(p, config.offset_key@) == Some(JsonValue::Int((page + 1) as i64))
            &&& forall|q: Seq<char>|
                q != config.offset_key@ ==> #[trigger] spec_obj_get(p, q) == spec_obj_get(
                    params,
                    q,
                )
        }),
        (strategy@ != "offset"@ && strategy@ != "page"@) ==> (r matches Err(
            AcquireError::PaginationConfig(m),
        ) && m@ == "Unsupported pagination method"@),
{
    proof {
        lemma_pagination_partition(plan.total_items as int, plan.items_per_page as int);
    }
    if str_eq(strategy, "offset") {
        proof {
            assert(plan.total_pages >= 1);
            lemma_mul_inequality(
                page as int,
                plan.total_pages as int - 1,
                plan.items_per_page as int,
            );
        }
        let offset: u64 = page * plan.items_per_page;
        Ok(params.set_key(config.offset_key.as_str(), JsonValue::Int(offset as i64)))
    } else if str_eq(strategy, "page") {
        Ok(params.set_key(config.offset_key.as_str(), JsonValue::Int((page + 1) as i64)))
    } else {
        Err(AcquireError::PaginationConfig("Unsupported pagination method".to_owned()))
    }
}

/// Extracts one page's item array: the value under `data_key` when it is
/// an array, an empty page when that value has another shape, and a
/// decode error — not an empty page — when the key is missing entirely.
#[verifier::loop_isolation(false)]
pub fn decode_page(body: JsonValue, data_key: &str) -> (r: Result<Vec<JsonValue>, AcquireError>)
    ensures
        r is Ok <==> spec_obj_get(body, data_key@) is Some,
        spec_obj_get(body, data_key@) is None ==> (r matches Err(AcquireError::Decode(m)) && m@
            == "Data key not found"@),
        match spec_obj_get(body, data_key@) {
            Some(v) => match v {
                JsonValue::Arr(items) => r == Ok::<Vec<JsonValue>, AcquireError>(items),
                _ => r matches Ok(out) && out@ =~= Seq::<JsonValue>::empty(),
            },
            None => r is Err,
        },
{
    match body {
        JsonValue::Obj(mut entries) => {
            let ghost orig = entries@;
            let n = entries.len();
            let mut i: usize = 0;
            while i < n
                invariant
                    i <= n,
                    entries@ == orig,
                    forall|j: int| 0 <= j < i ==> entries@[j].0@ != data_key@,
                decreases n - i,
            {
                if str_eq(entries[i].0.as_str(), data_key) {
                    proof {
                        crate::json::lemma_assoc_get_skip(orig, data_key@, i as int);
                        let tail = orig.skip(i as int);
                        assert(tail[0] == orig[i as int]);
                        assert(crate::json::spec_assoc_get(tail, data_key@) == Some(tail[0].1));
                    }
                    let pair = entries.remove(i);
                    match pair.1 {
                        JsonValue::Arr(items) => {
                            return Ok(items);
                        },
                        _ => {
                            return Ok(Vec::new());
                        },
                    }
                }
                i += 1;
            }
            proof {
                crate::json::lemma_assoc_get_skip(orig, data_key@, n as int);
            }
            Err(AcquireError::Decode("Data key not found".to_owned()))
        },
        _ => Err(AcquireError::Decode("Data key not found".to_owned())),
    }
}

/// Decodes each element of a page into the target item type: an element
/// that fails to decode yields an error at its own position, and the
/// rest of the page goes on.
#[verifier::loop_isolation(false)]
pub fn decode_elements<T: crate::json::FromJson>(items: &Vec<JsonValue>) -> (r: Vec<
    Result<T, AcquireError>,
>)
    ensures
        r@.len() == items@.len(),
        forall|i: int|
            0 <= i < items@.len() ==> T::spec_from_json(items@[i], #[trigger] r@[i]),
{
    let n = items.len();
    let mut out: Vec<Result<T, AcquireError>> = Vec::new();
    let mut i: usize = 0;
    while i < n
        invariant
            i <= n,
            out@.len() == i,
            forall|j: int| 0 <= j < i ==> T::spec_from_json(items@[j], #[trigger] out@[j]),
        decreases n - i,
    {
        out.push(T::from_json(&items[i]));
        i += 1;
    }
    out
}

/// The output elements one fetched page contributes: its items in source
/// order, or a single error element for a page that failed as a whole.
pub open spec fn spec_page_elems(p: Result<Vec<JsonValue>, AcquireError>) -> Seq<
    Result<JsonValue, AcquireError>,
> {
    match p {
        Ok(items) => items@.map(|_i: int, x: JsonValue| Ok(x)),
        Err(e) => seq![Err(e)],
    }
}

/// The flat output of a run: each page's elements in the order the pages
/// are given (their completion order), items within a page in source
/// order.
pub open spec fn spec_flatten(pages: Seq<Result<Vec<JsonValue>, AcquireError>>) -> Seq<
    Result<JsonValue, AcquireError>,
>
    decreases pages.len(),
{
    if pages.len() == 0 {
        Seq::empty()
    } else {
        spec_page_elems(pages[0]) + spec_flatten(pages.skip(1))
    }
}

/// Flattening one more page appends exactly that page's elements.
pub proof fn lemma_flatten_take_succ(pages: Seq<Result<Vec<JsonValue>, AcquireError>>, i: int)
    requires
        0 <= i < pages.len(),
    ensures
        spec_flatten(pages.take(i + 1)) == spec_flatten(pages.take(i)) + spec_page_elems(pages[i]),
    decreases i,
{
    let a = pages.take(i + 1);
    let b = pages.take(i);
    if i == 0 {
        assert(b =~= Seq::<Result<Vec<JsonValue>, AcquireError>>::empty());
        assert(a.len() == 1 && a[0] == pages[0]);
        assert(a.skip(1) =~= Seq::<Result<Vec<JsonValue>, AcquireError>>::empty());
        assert(spec_flatten(a) =~= spec_flatten(b) + spec_page_elems(pages[0]));
    } else {
        lemma_flatten_take_succ(pages.skip(1), i - 1);
        assert(a[0] == pages[0]);
        assert(b[0] == pages[0]);
        assert(a.skip(1) =~= pages.skip(1).take(i));
        assert(b.skip(1) =~= pages.skip(1).take(i - 1));
        assert(pages.skip(1)[i - 1] == pages[i]);
        assert(spec_flatten(a) == spec_page_elems(pages[0]) + (spec_flatten(pages.skip(1).take(i - 1))
            + spec_page_elems(pages[i])));
        assert(spec_page_elems(pages[0]) + (spec_flatten(pages.skip(1).take(i - 1))
            + spec_page_elems(pages[i])) =~= (spec_page_elems(pages[0]) + spec_flatten(
            pages.skip(1).take(i - 1),
        )) + spec_page_elems(pages[i]));
    }
}

/// Flattens fetched pages into the single output sequence, in the order
/// the pages completed: items of a whole page in source order, a failed
/// page as one error element, and — when a global limit is set — only the
/// first `limit` elements, the rest discarded.
#[verifier::loop_isolation(false)]
pub fn flatten_pages(pages: Vec<Result<Vec<JsonValue>, AcquireError>>, limit: Option<usize>) -> (r:
    Vec<Result<JsonValue, AcquireError>>)
    ensures
        limit is None ==> r@ == spec_flatten(pages@),
        limit matches Some(l) ==> r@ == spec_flatten(pages@).take(
            min(l as int, spec_flatten(pages@).len() as int),
        ),
{
    let ghost orig = pages@;
    let mut rest = pages;
    let mut out: Vec<Result<JsonValue, AcquireError>> = Vec::new();
    let npages = rest.len();
    let mut pi: usize = 0;
    while pi < npages
        invariant
            pi <= npages,
            npages == orig.len(),
            rest@ == orig.skip(pi as int),
            out@ == spec_flatten(orig.take(pi as int)),
        decreases npages - pi,
    {
        let page = rest.remove(0);
        proof {
            assert(page == orig[pi as int]);
            assert(rest@ =~= orig.skip(pi + 1));
            lemma_flatten_take_succ(orig, pi as int);
        }
        match page {
            Ok(items) => {
                let ghost iorig = items@;
                let mut it = items;
                let k0 = it.len();
                let mut k: usize = 0;
                while k < k0
                    invariant
                        k <= k0,
                        k0 == iorig.len(),
                        it@ == iorig.skip(k as int),
                        out@ == spec_flatten(orig.take(pi as int)) + iorig.take(k as int).map(
                            |_i: int, x: JsonValue| Ok::<JsonValue, AcquireError>(x),
                        ),
                    decreases k0 - k,
                {
                    let item = it.remove(0);
                    proof {
                        assert(item == iorig[k as int]);
                        assert(it@ =~= iorig.skip(k + 1));
                    }
                    out.push(Ok(item));
                    proof {
                        assert(iorig.take(k + 1).map(
                            |_i: int, x: JsonValue| Ok::<JsonValue, AcquireError>(x),
                        ) =~= iorig.take(k as int).map(
                            |_i: int, x: JsonValue| Ok::<JsonValue, AcquireError>(x),
                        ).push(Ok(iorig[k as int])));
                        assert(out@ =~= spec_flatten(orig.take(pi as int)) + iorig.take(
                            k + 1,
                        ).map(|_i: int, x: JsonValue| Ok::<JsonValue, AcquireError>(x)));
                    }
                    k += 1;
                }
                proof {
                    assert(iorig.take(k0 as int) =~= iorig);
                    assert(spec_page_elems(orig[pi as int]) == iorig.map(
                        |_i: int, x: JsonValue| Ok::<JsonValue, AcquireError>(x),
                    ));
                }
            },
            Err(e) => {
                let ghost ge = e;
                out.push(Err(e));
                proof {
                    assert(spec_page_elems(orig[pi as int]) =~= seq![
                        Err::<JsonValue, AcquireError>(ge),
                    ]);
                    assert(out@ =~= spec_flatten(orig.take(pi as int)) + spec_page_elems(
                        orig[pi as int],
                    ));
                }
            },
        }
        pi += 1;
    }
    proof {
        assert(orig.take(npages as int) =~= orig);
    }
    match limit {
        Some(l) => {
            out.truncate(l);
            proof {
                assert(out@ =~= spec_flatten(orig).take(
                    min(l as int, spec_flatten(orig).len() as int),
                ));
            }
            out
        },
        None => out,
    }
}

/// When every page fails — as all do under an unknown pagination
/// strategy — the output holds exactly one error element per page and no
/// item at all.
pub proof fn lemma_error_pages_yield_no_items(pages: Seq<Result<Vec<JsonValue>, AcquireError>>)
    requires
        forall|i: int| 0 <= i < pages.len() ==> #[trigger] pages[i] is Err,
    ensures
        spec_flatten(pages).len() == pages.len(),
        forall|j: int| 0 <= j < pages.len() ==> #[trigger] spec_flatten(pages)[j] is Err,
    decreases pages.len(),
{
    if pages.len() > 0 {
        assert(pages[0] is Err);
        lemma_error_pages_yield_no_items(pages.skip(1));
        assert(spec_page_elems(pages[0]).len() == 1);
        assert(forall|j: int| 1 <= j < pages.len() ==> pages.skip(1)[j - 1] == pages[j]);
    }
}

/// The aggregator's scheduling state: pages are handed out in index
/// order, at most three fetches run at once, and once the produced
/// element count reaches the global limit no further fetch starts.
#[derive(Debug, Clone, Copy)]
pub struct StreamState {
    pub total_pages: u64,
    pub next_page: u64,
    pub in_flight: u8,
    pub produced: usize,
    pub limit: Option<usize>,
}

/// The produced count has reached the global limit.
pub open spec fn spec_limit_reached(s: StreamState) -> bool {
    match s.limit {
        Some(l) => s.produced >= l,
        None => false,
    }
}

/// Another page fetch may start: a page is left, a slot is free, and the
/// limit has not been reached.
pub open spec fn spec_can_schedule(s: StreamState) -> bool {
    &&& s.in_flight < MAX_IN_FLIGHT
    &&& s.next_page < s.total_pages
    &&& !spec_limit_reached(s)
}

impl StreamState {
    /// The state's internal shape.
    pub open spec fn wf(&self) -> bool {
        &&& self.next_page <= self.total_pages
        &&& self.in_flight <= MAX_IN_FLIGHT
        &&& match self.limit {
            Some(l) => self.produced <= l,
            None => true,
        }
    }

    /// The scheduler for one run: no page started, no fetch in flight,
    /// nothing produced.
    pub fn new(total_pages: u64, limit: Option<usize>) -> (r: Self)
        ensures
            r.wf(),
            r.total_pages == total_pages,
            r.next_page == 0,
            r.in_flight == 0,
            r.produced == 0,
            r.limit == limit,
    {
        StreamState { total_pages, next_page: 0, in_flight: 0, produced: 0, limit }
    }

    /// Whether another page fetch may start now.
    pub fn can_schedule(&self) -> (r: bool)
        ensures
            r == spec_can_schedule(*self),
    {
        let free = self.in_flight < MAX_IN_FLIGHT && self.next_page < self.total_pages;
        let capped = match self.limit {
            Some(l) => self.produced >= l,
            None => false,
        };
        free && !capped
    }

    /// Starts the fetch of the next page and says which page that is.
    pub fn start_fetch(&mut self) -> (page: u64)
        requires
            old(self).wf(),
            spec_can_schedule(*old(self)),
        ensures
            final(self).wf(),
            page == old(self).next_page,
            final(self).next_page == old(self).next_page + 1,
            final(self).in_flight == old(self).in_flight + 1,
            final(self).total_pages == old(self).total_pages,
            final(self).produced == old(self).produced,
            final(self).limit == old(self).limit,
    {
        let page = self.next_page;
        self.next_page = self.next_page + 1;
        self.in_flight = self.in_flight + 1;
        page
    }

    /// Takes one completed page's elements in, keeps what the global
    /// limit still allows — the first of them, in order — and discards
    /// the rest. Frees the fetch slot.
    pub fn deliver(
        &mut self,
        elems: Vec<Result<JsonValue, AcquireError>>,
    ) -> (out: Vec<Result<JsonValue, AcquireError>>)
        requires
            old(self).wf(),
            old(self).in_flight >= 1,
            old(self).produced + elems@.len() <= usize::MAX,
        ensures
            final(self).wf(),
            final(self).in_flight == old(self).in_flight - 1,
            final(self).next_page == old(self).next_page,
            final(self).total_pages == old(self).total_pages,
            final(self).limit == old(self).limit,
            out@ == match old(self).limit {
                None => elems@,
                Some(l) => elems@.take(min((l - old(self).produced) as int, elems@.len() as int)),
            },
            final(self).produced == old(self).produced + out@.len(),
            spec_limit_reached(*old(self)) ==> out@.len() == 0,
    {
        self.in_flight = self.in_flight - 1;
        match self.limit {
            None => {
                self.produced = self.produced + elems.len();
                elems
            },
            Some(l) => {
                let remaining = l - self.produced;
                let mut kept = elems;
                kept.truncate(remaining);
                self.produced = self.produced + kept.len();
                kept
            },
        }
    }
}

/// Once the global limit is reached the scheduler starts no further page
/// fetch, however many pages the plan still holds.
pub proof fn lemma_limit_stops_scheduling(s: StreamState)
    requires
        s.wf(),
        spec_limit_reached(s),
    ensures
        !spec_can_schedule(s),
{
}

} // verus!
