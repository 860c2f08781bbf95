//! Small reusable behaviours around fallible steps: a bounded retry
//! policy, skipping failed steps, and walking a collection chunk by
//! chunk. The retry policy is pure: it runs over the outcomes the
//! attempts would produce; the embedding program performs the waiting.

use vstd::math::min;
use vstd::prelude::*;

verus! {

/// Why a retried operation gave up.
#[derive(Debug)]
pub enum RetryError {
    MaxRetriesReached(String),
    InvalidConfig(String),
}

/// How many attempts to make, and how long to wait between them.
#[derive(Debug, Clone, Copy)]
pub struct RetryConfig {
    pub retries: u32,
    pub delay_ms: u64,
}

impl Default for RetryConfig {
    fn default() -> (r: Self)
        ensures
            r.retries == 3,
            r.delay_ms == 1000,
    {
        RetryConfig { retries: 3, delay_ms: 1000 }
    }
}

/// The attempt count a configuration asks for; three when none is given.
pub open spec fn spec_config_retries(config: Option<RetryConfig>) -> u32 {
    match config {
        Some(c) => c.retries,
        None => 3,
    }
}

/// Position of the first successful outcome, if any.
pub open spec fn spec_first_ok<T, E>(s: Seq<Result<T, E>>) -> Option<int>
    decreases s.len(),
{
    if s.len() == 0 {
        None
    } else if s[0] is Ok {
        Some(0int)
    } else {
        match spec_first_ok(s.skip(1)) {
            None => None,
            Some(i) => Some(i + 1),
        }
    }
}

/// What `spec_first_ok` returns: the least successful index, or `None`
/// when every outcome fails.
pub proof fn lemma_first_ok_first<T, E>(s: Seq<Result<T, E>>)
    ensures
        match spec_first_ok(s) {
            Some(i) => 0 <= i < s.len() && s[i] is Ok && (forall|j: int|
                0 <= j < i ==> #[trigger] s[j] is Err),
            None => forall|j: int| 0 <= j < s.len() ==> #[trigger] s[j] is Err,
        },
    decreases s.len(),
{
    if s.len() > 0 && !(s[0] is Ok) {
        lemma_first_ok_first(s.skip(1));
        assert(forall|j: int| 1 <= j < s.len() ==> s[j] == s.skip(1)[j - 1]);
    }
}

/// Retries one operation as a pure run over its attempts' outcomes, one
/// per attempt: the first success is returned and no later outcome is
/// looked at; when all configured attempts fail, so does the run. Fewer
/// than one configured attempt is itself an error.
#[verifier::loop_isolation(false)]
pub fn with_retry<T, E>(outcomes: Vec<Result<T, E>>, config: Option<RetryConfig>) -> (r: Result<
    T,
    RetryError,
>)
    requires
        spec_config_retries(config) >= 1 ==> outcomes@.len() >= spec_config_retries(config),
    ensures
        spec_config_retries(config) < 1 ==> (r matches Err(RetryError::InvalidConfig(m)) && m@
            == "Retries must be at least 1"@),
        spec_config_retries(config) >= 1 ==> (match spec_first_ok(
            outcomes@.take(spec_config_retries(config) as int),
        ) {
            Some(i) => r matches Ok(v) && outcomes@[i] == Ok::<T, E>(v),
            None => r matches Err(RetryError::MaxRetriesReached(m)) && m@
                == "Max retries reached"@,
        }),
{
    let retries: u32 = match config {
        Some(c) => c.retries,
        None => RetryConfig::default().retries,
    };
    if retries < 1 {
        return Err(RetryError::InvalidConfig("Retries must be at least 1".to_owned()));
    }
    let ghost orig = outcomes@;
    proof {
        lemma_first_ok_first(orig.take(retries as int));
    }
    let mut rest = outcomes;
    let mut i: u32 = 0;
    while i < retries
        invariant
            i <= retries,
            rest@ == orig.skip(i as int),
            forall|j: int| 0 <= j < i ==> #[trigger] orig[j] is Err,
        decreases retries - i,
    {
        let outcome = rest.remove(0);
        proof {
            assert(outcome == orig[i as int]);
            assert(rest@ =~= orig.skip(i + 1));
        }
        match outcome {
            Ok(v) => {
                proof {
                    let tried = orig.take(retries as int);
                    assert(tried[i as int] is Ok);
                    if spec_first_ok(tried) is None {
                        assert(false);
                    }
                    let k = spec_first_ok(tried).unwrap();
                    if k < i {
                        assert(orig[k] is Err);
                        assert(tried[k] == orig[k]);
                        assert(false);
                    }
                    if k > i {
                        assert(tried[i as int] is Err);
                        assert(false);
                    }
                }
                return Ok(v);
            },
            Err(_) => {},
        }
        i += 1;
    }
    Err(RetryError::MaxRetriesReached("Max retries reached".to_owned()))
}

/// Turns a failed step into a skipped one.
pub trait SkipOnError<T>: Sized {
    /// The carried value, or `None` for a skipped step.
    spec fn spec_skip(self) -> Option<T>;

    /// The carried value, or `None` for a skipped step.
    fn skip_on_error(self) -> (r: Option<T>)
        ensures
            r == self.spec_skip(),
    ;
}

impl<T, E> SkipOnError<T> for Result<T, E> {
    open spec fn spec_skip(self) -> Option<T> {
        match self {
            Ok(v) => Some(v),
            Err(_) => None,
        }
    }

    fn skip_on_error(self) -> (r: Option<T>) {
        match self {
            Ok(v) => Some(v),
            Err(_) => None,
        }
    }
}

/// A collection walked front to back, a chunk at a time.
#[derive(Debug)]
pub struct Chunked<T> {
    pub items: Vec<T>,
    pub chunk_size: usize,
}

impl<T> Chunked<T> {
    /// Hands out the next chunk: `chunk_size` items while that many
    /// remain, the remainder as a last shorter chunk, then nothing. A
    /// chunk size of zero yields empty chunks and consumes nothing.
    pub fn next(&mut self) -> (r: Option<Vec<T>>)
        ensures
            final(self).chunk_size == old(self).chunk_size,
            old(self).chunk_size == 0 ==> (r matches Some(c) && c@ =~= Seq::<T>::empty()
                && final(self).items@ == old(self).items@),
            old(self).chunk_size >= 1 && old(self).items@.len() == 0 ==> (r is None
                && final(self).items@ == old(self).items@),
            old(self).chunk_size >= 1 && old(self).items@.len() > 0 ==> (r matches Some(c) && {
                let m = min(old(self).chunk_size as int, old(self).items@.len() as int);
                &&& c@ == old(self).items@.take(m)
                &&& final(self).items@ == old(self).items@.skip(m)
            }),
    {
        if self.chunk_size == 0 {
            return Some(Vec::new());
        }
        if self.items.len() == 0 {
            return None;
        }
        let ghost orig = self.items@;
        let m = if self.chunk_size <= self.items.len() {
            self.chunk_size
        } else {
            self.items.len()
        };
        let mut chunk: Vec<T> = Vec::new();
        let mut k: usize = 0;
        while k < m
            invariant
                k <= m,
                m == min(self.chunk_size as int, orig.len() as int),
                self.chunk_size == old(self).chunk_size,
                self.items@ == orig.skip(k as int),
                chunk@ == orig.take(k as int),
            decreases m - k,
        {
            let item = self.items.remove(0);
            proof {
                assert(item == orig[k as int]);
                assert(self.items@ =~= orig.skip(k + 1));
            }
            chunk.push(item);
            proof {
                assert(chunk@ =~= orig.take(k + 1));
            }
            k += 1;
        }
        Some(chunk)
    }
}

/// Hands a collection out as chunks.
pub trait ChunkedIterator<T>: Sized {
    /// The items the walk will cover, in order.
    spec fn spec_items(self) -> Seq<T>;

    /// A chunked walk over the collection.
    fn chunks(self, chunk_size: usize) -> (r: Chunked<T>)
        ensures
            r.items@ == self.spec_items(),
            r.chunk_size == chunk_size,
    ;
}

impl<T> ChunkedIterator<T> for Vec<T> {
    open spec fn spec_items(self) -> Seq<T> {
        self@
    }

    fn chunks(self, chunk_size: usize) -> (r: Chunked<T>) {
        Chunked { items: self, chunk_size }
    }
}

} // verus!
