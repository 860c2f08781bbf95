//! The acquisition client: shared authentication state with atomic
//! identity switching, and the request executor's decisions — URL
//! resolution, header merging, bounded retry with exponential backoff.
//!
//! The network itself is driven by the embedding program; everything here
//! is a function from plain values to plain values, with the whole retry
//! loop available as one verified run over the sequence of attempt
//! outcomes.

use crate::data::CodeMaoSetting;
use crate::headers::{header_set, merge_headers, spec_header_value, spec_lower, spec_merge_value,
    wf_headers};
use crate::text::str_eq;
use vstd::arithmetic::power2::pow2;
use vstd::prelude::*;

verus! {

/// Retry ceiling used when a request does not override it.
pub const MAX_RETRIES: u32 = 3;

/// Milliseconds of backoff before the first retry attempt.
pub const BACKOFF_BASE_MS: u64 = 300;

/// Timeout used when a request does not override it, in milliseconds.
pub const TIMEOUT_MS: u64 = 10000;

/// Longest body excerpt a log record may carry, in characters.
pub const MAX_CHARACTER: usize = 100;

/// The last failure a retry loop observed: the send failed outright, or a
/// response arrived with a non-success status.
#[derive(Debug)]
pub enum FailureKind {
    Transport(String),
    Http(u16, String),
}

/// Everything an acquisition step can fail with.
#[derive(Debug)]
pub enum AcquireError {
    /// The send itself failed: connection refused, timeout.
    Transport(String),
    /// A response arrived with a non-success status; carries status and body.
    HttpStatus(u16, String),
    /// Malformed JSON, or a shape the decoder does not accept.
    Decode(String),
    /// Unresolvable total, non-positive page size, or an unknown strategy.
    PaginationConfig(String),
    /// An unrecognized identity, or a malformed token or cookie.
    Auth(String),
    /// The retry ceiling was reached; carries the last observed failure.
    RetriesExhausted(FailureKind),
}

/// One bearer token per recognized identity.
#[derive(Debug, Clone)]
pub struct Token {
    pub average: String,
    pub edu: String,
    pub judgement: String,
    pub blank: String,
}

impl Default for Token {
    fn default() -> (r: Self)
        ensures
            r.average@ =~= Seq::<char>::empty(),
            r.edu@ =~= Seq::<char>::empty(),
            r.judgement@ =~= Seq::<char>::empty(),
            r.blank@ =~= Seq::<char>::empty(),
    {
        Token {
            average: String::new(),
            edu: String::new(),
            judgement: String::new(),
            blank: String::new(),
        }
    }
}

/// The HTTP statuses the service answers with.
#[derive(Debug, Clone, Copy, PartialEq, Eq, Structural)]
pub enum HttpStatus {
    Created,
    Forbidden,
    NotFound,
    NotModified,
    NoContent,
    Okay,
}

impl HttpStatus {
    /// The numeric status code.
    pub fn code(&self) -> (r: u16)
        ensures
            r == self.spec_code(),
    {
        match self {
            HttpStatus::Created => 201,
            HttpStatus::Forbidden => 403,
            HttpStatus::NotFound => 404,
            HttpStatus::NotModified => 304,
            HttpStatus::NoContent => 204,
            HttpStatus::Okay => 200,
        }
    }

    /// The numeric status code.
    pub open spec fn spec_code(&self) -> u16 {
        match self {
            HttpStatus::Created => 201,
            HttpStatus::Forbidden => 403,
            HttpStatus::NotFound => 404,
            HttpStatus::NotModified => 304,
            HttpStatus::NoContent => 204,
            HttpStatus::Okay => 200,
        }
    }
}

/// An HTTP method the client can issue.
#[derive(Debug, Clone, Copy, PartialEq, Eq, Structural)]
pub enum HttpMethod {
    Get,
    Post,
    Put,
    Delete,
    Patch,
}

impl HttpMethod {
    /// The method's wire name.
    pub fn as_str(&self) -> (r: &'static str)
        ensures
            r@ == self.spec_name(),
    {
        match self {
            HttpMethod::Get => "GET",
            HttpMethod::Post => "POST",
            HttpMethod::Put => "PUT",
            HttpMethod::Delete => "DELETE",
            HttpMethod::Patch => "PATCH",
        }
    }

    /// The method's wire name.
    pub open spec fn spec_name(&self) -> Seq<char> {
        match self {
            HttpMethod::Get => "GET"@,
            HttpMethod::Post => "POST"@,
            HttpMethod::Put => "PUT"@,
            HttpMethod::Delete => "DELETE"@,
            HttpMethod::Patch => "PATCH"@,
        }
    }
}

/// A status in the success range.
pub open spec fn spec_is_success(status: u16) -> bool {
    200 <= status < 300
}

/// A status in the success range.
pub fn is_success(status: u16) -> (r: bool)
    ensures
        r == spec_is_success(status),
{
    200 <= status && status < 300
}

/// A string the client accepts as a header value: printable ASCII only,
/// so a value can never smuggle a line break into the header block.
pub open spec fn spec_valid_header_value(s: Seq<char>) -> bool {
    forall|i: int| 0 <= i < s.len() ==> 32 <= #[trigger] s[i] as int <= 126
}

/// A string the client accepts as a header value.
#[verifier::loop_isolation(false)]
pub fn valid_header_value(s: &str) -> (r: bool)
    ensures
        r == spec_valid_header_value(s@),
{
    let n = s.unicode_len();
    let mut i: usize = 0;
    while i < n
        invariant
            i <= n,
            forall|j: int| 0 <= j < i ==> 32 <= #[trigger] s@[j] as int <= 126,
        decreases n - i,
    {
        let c = s.get_char(i);
        let u = c as u32;
        if u < 32 || u > 126 {
            return false;
        }
        i += 1;
    }
    true
}

/// One identity name the service recognizes.
pub open spec fn spec_recognized_identity(id: Seq<char>) -> bool {
    ||| id == "average"@
    ||| id == "edu"@
    ||| id == "judgement"@
    ||| id == "blank"@
}

/// How a successful switch rewrites the token slots: the named slot holds
/// the new token, every other slot is untouched.
pub open spec fn spec_token_updated(
    before: Token,
    after: Token,
    id: Seq<char>,
    tok: Seq<char>,
) -> bool {
    &&& after.average@ == if id == "average"@ {
        tok
    } else {
        before.average@
    }
    &&& after.edu@ == if id == "edu"@ {
        tok
    } else {
        before.edu@
    }
    &&& after.judgement@ == if id == "judgement"@ {
        tok
    } else {
        before.judgement@
    }
    &&& after.blank@ == if id == "blank"@ {
        tok
    } else {
        before.blank@
    }
}

/// The four identity names are pairwise distinct (their lengths differ).
proof fn lemma_identity_names_distinct()
    ensures
        "average"@ != "edu"@,
        "average"@ != "judgement"@,
        "average"@ != "blank"@,
        "edu"@ != "judgement"@,
        "edu"@ != "blank"@,
        "judgement"@ != "blank"@,
{
    reveal_strlit("average");
    reveal_strlit("edu");
    reveal_strlit("judgement");
    reveal_strlit("blank");
    assert("average"@.len() == 7);
    assert("edu"@.len() == 3);
    assert("judgement"@.len() == 9);
    assert("blank"@.len() == 5);
}

/// The whole-state relation of a successful identity switch: the
/// `authorization` header holds exactly the new bearer value, every
/// other header name keeps exactly its old binding, the named token slot
/// holds the new token, and nothing else of the client moves.
pub open spec fn spec_switched(
    before: CodeMaoClient,
    after: CodeMaoClient,
    id: Seq<char>,
    tok: Seq<char>,
) -> bool {
    &&& spec_header_value(after.headers@, "authorization"@) == Some("Bearer "@ + tok)
    &&& forall|q: Seq<char>|
        q != "authorization"@ ==> #[trigger] spec_header_value(after.headers@, q)
            == spec_header_value(before.headers@, q)
    &&& spec_token_updated(before.token, after.token, id, tok)
    &&& after.base_url == before.base_url
    &&& after.settings == before.settings
}

/// The switch is atomic at the level of the header mapping: after a
/// switch, every header name is bound either exactly as before the
/// switch or — for `authorization` alone — exactly to the new bearer
/// value. No name is ever bound to anything between the two states.
pub proof fn lemma_switch_atomic(
    before: CodeMaoClient,
    after: CodeMaoClient,
    id: Seq<char>,
    tok: Seq<char>,
    q: Seq<char>,
)
    requires
        spec_switched(before, after, id, tok),
    ensures
        spec_header_value(after.headers@, q) == if q == "authorization"@ {
            Some("Bearer "@ + tok)
        } else {
            spec_header_value(before.headers@, q)
        },
{
}

/// Lowercasing the header names the client writes itself.
proof fn lemma_wire_header_names()
    ensures
        spec_lower("Authorization"@) == "authorization"@,
        spec_lower("Cookie"@) == "cookie"@,
{
    reveal_strlit("Authorization");
    reveal_strlit("authorization");
    reveal_strlit("Cookie");
    reveal_strlit("cookie");
    assert(spec_lower("Authorization"@) =~= "authorization"@);
    assert(spec_lower("Cookie"@) =~= "cookie"@);
}

/// The client: base URL, the shared header set, per-identity tokens, and
/// the configuration snapshot it was built from.
#[derive(Debug)]
pub struct CodeMaoClient {
    pub base_url: String,
    pub headers: Vec<(String, String)>,
    pub token: Token,
    pub settings: CodeMaoSetting,
}

impl CodeMaoClient {
    /// The client's internal shape: its header list is a mapping.
    pub open spec fn wf(&self) -> bool {
        wf_headers(self.headers@)
    }

    /// A client over the fixed service base URL, its header set seeded
    /// from the configuration snapshot's static headers.
    pub fn new(settings: CodeMaoSetting) -> (r: Self)
        ensures
            r.wf(),
            r.base_url@ == "https://api.codemao.cn"@,
            forall|q: Seq<char>| #[trigger]
                spec_header_value(r.headers@, q) == spec_merge_value(
                    Seq::<(String, String)>::empty(),
                    settings.PROGRAM.HEADERS@,
                    q,
                ),
            r.token.average@ =~= Seq::<char>::empty(),
            r.token.edu@ =~= Seq::<char>::empty(),
            r.token.judgement@ =~= Seq::<char>::empty(),
            r.token.blank@ =~= Seq::<char>::empty(),
            r.settings == settings,
    {
        let empty: Vec<(String, String)> = Vec::new();
        let headers = merge_headers(&empty, &settings.PROGRAM.HEADERS);
        CodeMaoClient {
            base_url: "https://api.codemao.cn".to_owned(),
            headers,
            token: Token::default(),
            settings,
        }
    }

    /// The absolute URL a request for `endpoint` goes to: an endpoint that
    /// is already absolute is used verbatim, any other is appended to the
    /// base URL.
    pub fn request_url(&self, endpoint: &str) -> (r: String)
        ensures
            r@ == if spec_is_absolute(endpoint@) {
                endpoint@
            } else {
                self.base_url@ + endpoint@
            },
    {
        if is_absolute(endpoint) {
            endpoint.to_owned()
        } else {
            self.base_url.clone().concat(endpoint)
        }
    }

    /// The headers one request carries: the shared set merged under the
    /// call's overrides, the override winning on a shared name.
    pub fn request_headers(&self, overrides: &Vec<(String, String)>) -> (r: Vec<(String, String)>)
        requires
            self.wf(),
        ensures
            wf_headers(r@),
            forall|q: Seq<char>| #[trigger]
                spec_header_value(r@, q) == spec_merge_value(self.headers@, overrides@, q),
    {
        merge_headers(&self.headers, overrides)
    }

    /// Switches the client to another identity: stores the token in that
    /// identity's slot and rebinds the `Authorization` header to
    /// `Bearer <token>`, in one step — a reader of the state sees the old
    /// binding or the new one, never anything between. An unrecognized
    /// identity or a malformed token changes nothing and reports an
    /// authentication error.
    pub fn switch_account(&mut self, token: &str, identity: &str) -> (r: Result<(), AcquireError>)
        requires
            old(self).wf(),
        ensures
            final(self).wf(),
            r is Ok <==> (spec_recognized_identity(identity@) && spec_valid_header_value(token@)),
            !spec_recognized_identity(identity@) ==> (r matches Err(AcquireError::Auth(m)) && m@
                == "Invalid identity"@),
            (spec_recognized_identity(identity@) && !spec_valid_header_value(token@)) ==> (
            r matches Err(AcquireError::Auth(m)) && m@ == "Invalid token"@),
            r is Err ==> *final(self) == *old(self),
            r is Ok ==> spec_switched(*old(self), *final(self), identity@, token@),
    {
        let recognized = str_eq(identity, "average") || str_eq(identity, "edu") || str_eq(
            identity,
            "judgement",
        ) || str_eq(identity, "blank");
        if !recognized {
            return Err(AcquireError::Auth("Invalid identity".to_owned()));
        }
        if !valid_header_value(token) {
            return Err(AcquireError::Auth("Invalid token".to_owned()));
        }
        if str_eq(identity, "average") {
            self.token.average = token.to_owned();
        } else if str_eq(identity, "edu") {
            self.token.edu = token.to_owned();
        } else if str_eq(identity, "judgement") {
            self.token.judgement = token.to_owned();
        } else {
            self.token.blank = token.to_owned();
        }
        let mut bearer = "Bearer ".to_owned();
        bearer.append(token);
        proof {
            lemma_wire_header_names();
            lemma_identity_names_distinct();
        }
        header_set(&mut self.headers, "Authorization", bearer.as_str());
        Ok(())
    }

    /// Replaces the client's `Cookie` header; every other header keeps its
    /// value. A malformed cookie string changes nothing and reports an
    /// authentication error.
    pub fn update_cookies(&mut self, cookies: &str) -> (r: Result<(), AcquireError>)
        requires
            old(self).wf(),
        ensures
            final(self).wf(),
            r is Ok <==> spec_valid_header_value(cookies@),
            r is Err ==> *final(self) == *old(self),
            r is Err ==> (r matches Err(AcquireError::Auth(m)) && m@ == "Invalid cookie"@),
            r is Ok ==> {
                &&& spec_header_value(final(self).headers@, "cookie"@) == Some(cookies@)
                &&& forall|q: Seq<char>|
                    q != "cookie"@ ==> #[trigger] spec_header_value(final(self).headers@, q)
                        == spec_header_value(old(self).headers@, q)
                &&& final(self).token == old(self).token
                &&& final(self).base_url == old(self).base_url
                &&& final(self).settings == old(self).settings
            },
    {
        if !valid_header_value(cookies) {
            return Err(AcquireError::Auth("Invalid cookie".to_owned()));
        }
        proof {
            lemma_wire_header_names();
        }
        header_set(&mut self.headers, "Cookie", cookies);
        Ok(())
    }
}

/// An endpoint that is already a full URL, by its scheme prefix.
pub open spec fn spec_is_absolute(s: Seq<char>) -> bool {
    s.len() >= 4 && s.subrange(0, 4) == "http"@
}

/// An endpoint that is already a full URL.
pub fn is_absolute(endpoint: &str) -> (r: bool)
    ensures
        r == spec_is_absolute(endpoint@),
{
    proof {
        reveal_strlit("http");
    }
    let n = endpoint.unicode_len();
    if n < 4 {
        return false;
    }
    let r = endpoint.get_char(0) == 'h' && endpoint.get_char(1) == 't' && endpoint.get_char(2)
        == 't' && endpoint.get_char(3) == 'p';
    proof {
        if r {
            assert(endpoint@.subrange(0, 4) =~= "http"@);
        } else {
            assert(endpoint@.subrange(0, 4)[0] == endpoint@[0]);
            assert(endpoint@.subrange(0, 4)[1] == endpoint@[1]);
            assert(endpoint@.subrange(0, 4)[2] == endpoint@[2]);
            assert(endpoint@.subrange(0, 4)[3] == endpoint@[3]);
        }
    }
    r
}

/// The retry ceiling a request runs with: its own override, else the
/// fixed default.
pub fn effective_retries(retries: Option<u32>) -> (r: u32)
    ensures
        r == match retries {
            Some(n) => n,
            None => MAX_RETRIES,
        },
{
    match retries {
        Some(n) => n,
        None => MAX_RETRIES,
    }
}

/// The timeout a request runs with, in milliseconds: its own override,
/// else the fixed default.
pub fn effective_timeout_ms(timeout_ms: Option<u64>) -> (r: u64)
    ensures
        r == match timeout_ms {
            Some(t) => t,
            None => TIMEOUT_MS,
        },
{
    match timeout_ms {
        Some(t) => t,
        None => TIMEOUT_MS,
    }
}

/// One logical request, immutable once built: where it goes, what it
/// carries, and its per-call overrides. A request owns its spec; nothing
/// shares it.
#[derive(Debug)]
pub struct RequestSpec {
    pub endpoint: String,
    pub method: HttpMethod,
    pub params: Option<crate::json::JsonValue>,
    pub payload: Option<crate::json::JsonValue>,
    pub files: Vec<(String, Vec<u8>)>,
    pub headers: Vec<(String, String)>,
    pub retries: Option<u32>,
    pub timeout_ms: Option<u64>,
}

impl RequestSpec {
    /// A bare request for an endpoint: no parameters, no body, no files,
    /// no overrides.
    pub fn new(endpoint: String, method: HttpMethod) -> (r: Self)
        ensures
            r.endpoint == endpoint,
            r.method == method,
            r.params is None,
            r.payload is None,
            r.files@ =~= Seq::<(String, Vec<u8>)>::empty(),
            r.headers@ =~= Seq::<(String, String)>::empty(),
            r.retries is None,
            r.timeout_ms is None,
    {
        RequestSpec {
            endpoint,
            method,
            params: None,
            payload: None,
            files: Vec::new(),
            headers: Vec::new(),
            retries: None,
            timeout_ms: None,
        }
    }

    /// The retry ceiling this request runs with: its own override, else
    /// the fixed default.
    pub fn ceiling(&self) -> (r: u32)
        ensures
            r == match self.retries {
                Some(n) => n,
                None => MAX_RETRIES,
            },
    {
        effective_retries(self.retries)
    }

    /// The timeout this request runs with, in milliseconds: its own
    /// override, else the fixed default.
    pub fn timeout(&self) -> (r: u64)
        ensures
            r == match self.timeout_ms {
                Some(t) => t,
                None => TIMEOUT_MS,
            },
    {
        effective_timeout_ms(self.timeout_ms)
    }
}

/// A delivered response, reduced to what the engine reads: status, body
/// text, response headers, and the URL it came from.
#[derive(Debug)]
pub struct ResponseData {
    pub status: u16,
    pub url: String,
    pub headers: Vec<(String, String)>,
    pub body: String,
}

/// What one send attempt came back with: a response (of any status), or a
/// transport failure before any response arrived.
#[derive(Debug)]
pub enum AttemptOutcome {
    Delivered(ResponseData),
    TransportFailure(String),
}

/// An outcome that ends the retry loop successfully.
pub open spec fn spec_outcome_success(o: AttemptOutcome) -> bool {
    match o {
        AttemptOutcome::Delivered(resp) => spec_is_success(resp.status),
        AttemptOutcome::TransportFailure(_) => false,
    }
}

/// The failure an outcome is recorded as.
pub open spec fn spec_failure_of(o: AttemptOutcome) -> FailureKind {
    match o {
        AttemptOutcome::Delivered(resp) => FailureKind::Http(resp.status, resp.body),
        AttemptOutcome::TransportFailure(m) => FailureKind::Transport(m),
    }
}

/// Position of the first successful outcome, if any.
pub open spec fn spec_first_success(s: Seq<AttemptOutcome>) -> Option<int>
    decreases s.len(),
{
    if s.len() == 0 {
        None
    } else if spec_outcome_success(s[0]) {
        Some(0int)
    } else {
        match spec_first_success(s.skip(1)) {
            None => None,
            Some(i) => Some(i + 1),
        }
    }
}

/// What `spec_first_success` returns: the least successful index, or
/// `None` when no outcome succeeds.
pub proof fn lemma_first_success_first(s: Seq<AttemptOutcome>)
    ensures
        match spec_first_success(s) {
            Some(i) => 0 <= i < s.len() && spec_outcome_success(s[i]) && (forall|j: int|
                0 <= j < i ==> !spec_outcome_success(#[trigger] s[j])),
            None => forall|j: int| 0 <= j < s.len() ==> !spec_outcome_success(#[trigger] s[j]),
        },
    decreases s.len(),
{
    if s.len() > 0 && !spec_outcome_success(s[0]) {
        lemma_first_success_first(s.skip(1));
        assert(forall|j: int| 1 <= j < s.len() ==> s[j] == s.skip(1)[j - 1]);
    }
}

/// The backoff delays a sequence of outcomes makes the executor sleep:
/// one entry of `base * 2^attempt` for each transport failure, in attempt
/// order. A delivered response, whatever its status, costs no sleep.
pub open spec fn spec_delays(s: Seq<AttemptOutcome>) -> Seq<u64>
    decreases s.len(),
{
    if s.len() == 0 {
        Seq::empty()
    } else if s.last() is TransportFailure {
        spec_delays(s.drop_last()).push((BACKOFF_BASE_MS * pow2((s.len() - 1) as nat)) as u64)
    } else {
        spec_delays(s.drop_last())
    }
}

/// What one retried request run ended as: the response of the first
/// successful attempt, or — once the ceiling was reached — the last
/// observed failure; together with the number of attempts made and the
/// backoff delays slept, in order.
#[derive(Debug)]
pub struct RetryOutcome {
    pub result: Result<ResponseData, AcquireError>,
    pub attempts: u32,
    pub delays: Vec<u64>,
}

/// Issues one logical request as a pure run over the outcomes the network
/// would hand back, one per attempt: stops at the first success, records
/// the latest failure otherwise, sleeps backoff only after transport
/// failures, and after `ceiling` fruitless attempts fails with
/// `RetriesExhausted` around the last failure. The attempt count never
/// exceeds the ceiling.
#[verifier::loop_isolation(false)]
pub fn send_with_retries(outcomes: Vec<AttemptOutcome>, ceiling: u32) -> (r: RetryOutcome)
    requires
        1 <= ceiling <= 32,
        outcomes@.len() >= ceiling,
    ensures
        1 <= r.attempts <= ceiling,
        match spec_first_success(outcomes@.take(ceiling as int)) {
            Some(i) => {
                &&& r.result matches Ok(resp) && AttemptOutcome::Delivered(resp) == outcomes@[i]
                &&& r.attempts == i + 1
                &&& r.delays@ == spec_delays(outcomes@.take(i))
            },
            None => {
                &&& r.result == Err::<ResponseData, AcquireError>(
                    AcquireError::RetriesExhausted(spec_failure_of(outcomes@[ceiling - 1])),
                )
                &&& r.attempts == ceiling
                &&& r.delays@ == spec_delays(outcomes@.take(ceiling as int))
            },
        },
{
    let ghost orig = outcomes@;
    proof {
        lemma_first_success_first(orig.take(ceiling as int));
    }
    let mut rest = outcomes;
    let mut delays: Vec<u64> = Vec::new();
    let mut last: Option<FailureKind> = None;
    let mut attempt: u32 = 0;
    while attempt < ceiling
        invariant
            attempt <= ceiling,
            rest@ == orig.skip(attempt as int),
            delays@ == spec_delays(orig.take(attempt as int)),
            forall|j: int| 0 <= j < attempt ==> !spec_outcome_success(#[trigger] orig[j]),
            attempt > 0 ==> last == Some(spec_failure_of(orig[attempt - 1])),
            attempt == 0 ==> last is None,
        decreases ceiling - attempt,
    {
        let o = rest.remove(0);
        proof {
            assert(o == orig[attempt as int]);
            assert(rest@ =~= orig.skip(attempt + 1));
        }
        match o {
            AttemptOutcome::Delivered(resp) => {
                if is_success(resp.status) {
                    proof {
                        let tried = orig.take(ceiling as int);
                        assert(spec_outcome_success(tried[attempt as int]));
                        if spec_first_success(tried) is None {
                            assert(false);
                        }
                        let k = spec_first_success(tried).unwrap();
                        if k < attempt {
                            assert(!spec_outcome_success(orig[k]));
                            assert(tried[k] == orig[k]);
                            assert(false);
                        }
                        if k > attempt {
                            assert(!spec_outcome_success(tried[attempt as int]));
                            assert(false);
                        }
                    }
                    return RetryOutcome { result: Ok(resp), attempts: attempt + 1, delays };
                }
                last = Some(FailureKind::Http(resp.status, resp.body));
            },
            AttemptOutcome::TransportFailure(m) => {
                last = Some(FailureKind::Transport(m));
                delays.push(backoff_delay_ms(attempt));
            },
        }
        proof {
            let t = orig.take(attempt + 1);
            assert(t.drop_last() =~= orig.take(attempt as int));
            assert(t.last() == orig[attempt as int]);
        }
        attempt += 1;
    }
    let failure = match last {
        Some(k) => k,
        None => {
            proof {
                assert(false);
            }
            FailureKind::Transport(String::new())
        },
    };
    RetryOutcome {
        result: Err(AcquireError::RetriesExhausted(failure)),
        attempts: ceiling,
        delays,
    }
}

/// On sustained transport failure the retry loop makes exactly `ceiling`
/// attempts, none of which succeeds; it sleeps `base * 2^attempt` before
/// each next attempt, and what it records last is a transport failure, so
/// the run ends in `RetriesExhausted` around it.
pub proof fn lemma_retry_exhausts_on_transport(outcomes: Seq<AttemptOutcome>, ceiling: int)
    requires
        1 <= ceiling <= 32,
        outcomes.len() >= ceiling,
        forall|j: int| 0 <= j < ceiling ==> #[trigger] outcomes[j] is TransportFailure,
    ensures
        spec_first_success(outcomes.take(ceiling)) is None,
        spec_delays(outcomes.take(ceiling)).len() == ceiling,
        forall|j: int|
            0 <= j < ceiling ==> #[trigger] spec_delays(outcomes.take(ceiling))[j]
                == BACKOFF_BASE_MS * pow2(j as nat),
        spec_failure_of(outcomes[ceiling - 1]) is Transport,
{
    lemma_first_success_first(outcomes.take(ceiling));
    lemma_delays_all_transport(outcomes.take(ceiling));
}

/// Over transport failures alone, the delay list has one exact backoff
/// entry per attempt.
proof fn lemma_delays_all_transport(s: Seq<AttemptOutcome>)
    requires
        forall|j: int| 0 <= j < s.len() ==> #[trigger] s[j] is TransportFailure,
        s.len() <= 32,
    ensures
        spec_delays(s).len() == s.len(),
        forall|j: int|
            0 <= j < s.len() ==> #[trigger] spec_delays(s)[j] == BACKOFF_BASE_MS * pow2(j as nat),
    decreases s.len(),
{
    if s.len() > 0 {
        lemma_delays_all_transport(s.drop_last());
        vstd::arithmetic::power2::lemma2_to64();
        assert(pow2((s.len() - 1) as nat) <= pow2(31)) by {
            if s.len() - 1 < 31 {
                vstd::arithmetic::power2::lemma_pow2_strictly_increases((s.len() - 1) as nat, 31);
            }
        }
        assert((BACKOFF_BASE_MS * pow2((s.len() - 1) as nat)) as u64 == BACKOFF_BASE_MS * pow2(
            (s.len() - 1) as nat,
        ));
    }
}

/// The body excerpt a log record carries: the whole body while it fits
/// the character budget, else the first `MAX_CHARACTER` characters and a
/// trailing ellipsis.
pub open spec fn spec_log_excerpt(body: Seq<char>) -> Seq<char> {
    if body.len() <= MAX_CHARACTER {
        body
    } else {
        body.take(MAX_CHARACTER as int) + "..."@
    }
}

/// The body excerpt a log record carries.
pub fn log_excerpt(body: &str) -> (r: String)
    ensures
        r@ == spec_log_excerpt(body@),
{
    let n = body.unicode_len();
    if n <= MAX_CHARACTER {
        body.to_owned()
    } else {
        let mut s = body.substring_char(0, MAX_CHARACTER).to_owned();
        s.append("...");
        s
    }
}

/// `n` copies of one character.
pub open spec fn spec_repeat(c: char, n: nat) -> Seq<char>
    decreases n,
{
    if n == 0 {
        Seq::empty()
    } else {
        spec_repeat(c, (n - 1) as nat).push(c)
    }
}

/// `n` copies of one character.
#[verifier::loop_isolation(false)]
fn repeat_char(c: char, n: usize) -> (r: String)
    ensures
        r@ == spec_repeat(c, n as nat),
{
    let mut s = String::new();
    let mut i: usize = 0;
    while i < n
        invariant
            i <= n,
            s@ == spec_repeat(c, i as nat),
        decreases n - i,
    {
        s.push(c);
        i += 1;
    }
    s
}

/// The header block of a log record: one `name: value` line per header,
/// in order.
pub open spec fn spec_headers_dump(h: Seq<(String, String)>) -> Seq<char>
    decreases h.len(),
{
    if h.len() == 0 {
        Seq::empty()
    } else {
        spec_headers_dump(h.drop_last()) + h.last().0@ + ": "@ + h.last().1@ + "\n"@
    }
}

/// The header block of a log record.
#[verifier::loop_isolation(false)]
fn headers_dump(h: &Vec<(String, String)>) -> (r: String)
    ensures
        r@ == spec_headers_dump(h@),
{
    let mut s = String::new();
    let n = h.len();
    let mut i: usize = 0;
    while i < n
        invariant
            i <= n,
            s@ == spec_headers_dump(h@.take(i as int)),
        decreases n - i,
    {
        s.append(h[i].0.as_str());
        s.append(": ");
        s.append(h[i].1.as_str());
        s.append("\n");
        proof {
            let t = h@.take(i + 1);
            assert(t.drop_last() =~= h@.take(i as int));
            assert(t.last() == h@[i as int]);
        }
        i += 1;
    }
    proof {
        assert(h@.take(n as int) =~= h@);
    }
    s
}

/// One whole log record, as the logger appends it for a terminal
/// response: the bracketed timestamp line, the method, URL and status
/// lines, a separator, the request headers, a separator, the body
/// excerpt, and a closing separator.
pub open spec fn spec_log_record(
    ts: Seq<char>,
    method: Seq<char>,
    url: Seq<char>,
    status: Seq<char>,
    headers: Seq<(String, String)>,
    body: Seq<char>,
) -> Seq<char> {
    "["@ + ts + "]\n"@ + "Method: "@ + method + "\nURL: "@ + url + "\nStatus: "@ + status + "\n"@
        + spec_repeat('*', 50) + "\n"@ + "Request Headers:\n"@ + spec_headers_dump(headers)
        + spec_repeat('*', 50) + "\n"@ + "Response:\n"@ + spec_log_excerpt(body) + "\n"@
        + spec_repeat('=', 50) + "\n\n"@
}

/// Renders one log record. The timestamp and status are handed in
/// already rendered; appending the record to the log file is the
/// embedding program's work.
pub fn format_log_record(
    ts: &str,
    method: &str,
    url: &str,
    status: &str,
    headers: &Vec<(String, String)>,
    body: &str,
) -> (r: String)
    ensures
        r@ == spec_log_record(ts@, method@, url@, status@, headers@, body@),
{
    let mut s = String::new();
    s.append("[");
    s.append(ts);
    s.append("]\n");
    s.append("Method: ");
    s.append(method);
    s.append("\nURL: ");
    s.append(url);
    s.append("\nStatus: ");
    s.append(status);
    s.append("\n");
    let stars = repeat_char('*', 50);
    s.append(stars.as_str());
    s.append("\n");
    s.append("Request Headers:\n");
    let dump = headers_dump(headers);
    s.append(dump.as_str());
    s.append(stars.as_str());
    s.append("\n");
    s.append("Response:\n");
    let excerpt = log_excerpt(body);
    s.append(excerpt.as_str());
    s.append("\n");
    let rule = repeat_char('=', 50);
    s.append(rule.as_str());
    s.append("\n\n");
    proof {
        assert(s@ =~= spec_log_record(ts@, method@, url@, status@, headers@, body@));
    }
    s
}

/// Backoff slept after the given attempt: `base * 2^attempt` milliseconds.
pub fn backoff_delay_ms(attempt: u32) -> (r: u64)
    requires
        attempt < 32,
    ensures
        r == BACKOFF_BASE_MS * pow2(attempt as nat),
{
    proof {
        vstd::arithmetic::power2::lemma2_to64();
        assert(pow2(attempt as nat) <= pow2(31)) by {
            if attempt < 31 {
                vstd::arithmetic::power2::lemma_pow2_strictly_increases(attempt as nat, 31);
            }
        }
        vstd::bits::lemma_u64_shl_is_mul(BACKOFF_BASE_MS, attempt as u64);
    }
    BACKOFF_BASE_MS << (attempt as u64)
}

} // verus!

