//! The quorum map-then-reduce primitive: per-authority calls complete in
//! arrival order, and a caller-supplied reducer folds each completion
//! into an accumulator, deciding to continue, to shorten the remaining
//! wait, or to end early.
//!
//! The concurrent machinery that launches calls and races timers lives
//! outside the library; what arrives here is the completion sequence in
//! arrival order, each completion carrying its arrival time. The fold
//! below decides everything else: reducer errors abort the whole
//! operation, mapper errors are ordinary results handed to the reducer,
//! and a timeout simply yields the accumulator so far, because a timeout
//! is a normal termination mode, not a failure.

use crate::base::{sat_add, AuthorityName, SuiError};
use crate::committee::Committee;
use vstd::prelude::*;

verus! {

/// The reducer's decision after folding one completion.
pub enum ReduceOutput<A> {
    /// Keep waiting for further completions.
    Continue(A),
    /// Keep waiting, but no longer than this many milliseconds more.
    ContinueWithTimeout(A, u64),
    /// Stop: the accumulator is final.
    End(A),
}

/// One completed per-authority call: its arrival time in milliseconds
/// since the broadcast began, the authority, and its result. A mapper
/// failure arrives as an `Err` result.
pub struct Completion<V> {
    pub at: u64,
    pub authority: AuthorityName,
    pub result: Result<V, SuiError>,
}

/// The caller-supplied fold step. The executable `reduce` must behave
/// exactly as its specification `reduce_spec` says, so everything the
/// broadcaster guarantees is pinned down by the reducer's own spec.
pub trait Reducer<A, V>: Sized {
    spec fn reduce_spec(
        &self,
        accumulator: A,
        authority: AuthorityName,
        weight: u64,
        result: Result<V, SuiError>,
    ) -> Result<ReduceOutput<A>, SuiError>;

    fn reduce(
        &self,
        accumulator: A,
        authority: AuthorityName,
        weight: u64,
        result: Result<V, SuiError>,
    ) -> (r: Result<ReduceOutput<A>, SuiError>)
        ensures
            r == self.reduce_spec(accumulator, authority, weight, result),
    ;
}

/// Whether a completion arriving at `at` falls outside the window.
pub open spec fn past_deadline(at: u64, global_timeout: u64, local: Option<u64>) -> bool {
    at >= global_timeout || (local matches Some(d) && at >= d)
}

/// The broadcast fold from position `i`: stop with the accumulator when
/// the completions run out or the next one arrives past the global or
/// the most recently requested per-call deadline; abort on a reducer
/// error; stop with the final value on `End`.
pub open spec fn fold_completions<A, V, R: Reducer<A, V>>(
    red: R,
    committee: Committee,
    accumulator: A,
    s: Seq<Completion<V>>,
    i: int,
    global_timeout: u64,
    local: Option<u64>,
) -> Result<A, SuiError>
    decreases s.len() - i,
{
    if i < 0 || i >= s.len() {
        Ok(accumulator)
    } else if past_deadline(s[i].at, global_timeout, local) {
        Ok(accumulator)
    } else {
        match red.reduce_spec(
            accumulator,
            s[i].authority,
            committee.weight_of(s[i].authority),
            s[i].result,
        ) {
            Err(e) => Err(e),
            Ok(ReduceOutput::Continue(a)) => fold_completions(
                red,
                committee,
                a,
                s,
                i + 1,
                global_timeout,
                local,
            ),
            Ok(ReduceOutput::ContinueWithTimeout(a, t)) => fold_completions(
                red,
                committee,
                a,
                s,
                i + 1,
                global_timeout,
                Some(sat_add(s[i].at, t)),
            ),
            Ok(ReduceOutput::End(a)) => Ok(a),
        }
    }
}

/// Whether the fold from position `i` stops before exhausting the
/// completions: by a deadline, a reducer error, or `End`.
pub open spec fn fold_stops_early<A, V, R: Reducer<A, V>>(
    red: R,
    committee: Committee,
    accumulator: A,
    s: Seq<Completion<V>>,
    i: int,
    global_timeout: u64,
    local: Option<u64>,
) -> bool
    decreases s.len() - i,
{
    if i < 0 || i >= s.len() {
        false
    } else if past_deadline(s[i].at, global_timeout, local) {
        true
    } else {
        match red.reduce_spec(
            accumulator,
            s[i].authority,
            committee.weight_of(s[i].authority),
            s[i].result,
        ) {
            Err(_) => true,
            Ok(ReduceOutput::Continue(a)) => fold_stops_early(
                red,
                committee,
                a,
                s,
                i + 1,
                global_timeout,
                local,
            ),
            Ok(ReduceOutput::ContinueWithTimeout(a, t)) => fold_stops_early(
                red,
                committee,
                a,
                s,
                i + 1,
                global_timeout,
                Some(sat_add(s[i].at, t)),
            ),
            Ok(ReduceOutput::End(_)) => true,
        }
    }
}

/// Fold the completions of one broadcast. The result is exactly the
/// mathematical fold of the completion sequence under the reducer's own
/// specification.
pub fn quorum_map_then_reduce_with_timeout<A, V, R: Reducer<A, V>>(
    committee: &Committee,
    reducer: &R,
    initial: A,
    completions: Vec<Completion<V>>,
    global_timeout: u64,
) -> (r: Result<A, SuiError>)
    requires
        committee.wf(),
    ensures
        r == fold_completions(
            *reducer,
            *committee,
            initial,
            completions@,
            0,
            global_timeout,
            None::<u64>,
        ),
{
    let ghost orig = completions@;
    let mut remaining = completions;
    let mut accumulator = initial;
    let mut local: Option<u64> = None;
    let ghost mut k: int = 0;
    loop
        invariant
            committee.wf(),
            orig == completions@,
            0 <= k <= orig.len(),
            remaining@ == orig.skip(k),
            fold_completions(*reducer, *committee, initial, orig, 0, global_timeout, None::<u64>)
                == fold_completions(
                *reducer,
                *committee,
                accumulator,
                orig,
                k,
                global_timeout,
                local,
            ),
        decreases orig.len() - k,
    {
        if remaining.len() == 0 {
            proof {
                assert(orig.skip(k).len() == 0);
                assert(k == orig.len());
                assert(fold_completions(
                    *reducer,
                    *committee,
                    accumulator,
                    orig,
                    k,
                    global_timeout,
                    local,
                ) == Ok::<A, SuiError>(accumulator));
            }
            return Ok(accumulator);
        }
        let comp = remaining.remove(0);
        proof {
            assert(comp == orig[k]);
            assert(remaining@ =~= orig.skip(k + 1));
        }
        proof {
            assert(0 <= k < orig.len());
        }
        if comp.at >= global_timeout {
            proof {
                assert(past_deadline(orig[k].at, global_timeout, local));
                assert(fold_completions(
                    *reducer,
                    *committee,
                    accumulator,
                    orig,
                    k,
                    global_timeout,
                    local,
                ) == Ok::<A, SuiError>(accumulator));
            }
            return Ok(accumulator);
        }
        let stop_local = match local {
            Some(d) => comp.at >= d,
            None => false,
        };
        if stop_local {
            proof {
                assert(past_deadline(orig[k].at, global_timeout, local));
                assert(fold_completions(
                    *reducer,
                    *committee,
                    accumulator,
                    orig,
                    k,
                    global_timeout,
                    local,
                ) == Ok::<A, SuiError>(accumulator));
            }
            return Ok(accumulator);
        }
        proof {
            assert(!past_deadline(orig[k].at, global_timeout, local));
        }
        let weight = committee.weight(comp.authority);
        match reducer.reduce(accumulator, comp.authority, weight, comp.result) {
            Err(e) => {
                return Err(e);
            },
            Ok(ReduceOutput::Continue(a)) => {
                accumulator = a;
            },
            Ok(ReduceOutput::ContinueWithTimeout(a, t)) => {
                accumulator = a;
                local = Some(crate::base::sat_add_exec(comp.at, t));
            },
            Ok(ReduceOutput::End(a)) => {
                return Ok(a);
            },
        }
        proof {
            k = k + 1;
        }
    }
}

/// Once the fold stops early (the reducer returned `End` or erred, or a
/// deadline passed), completions delivered afterwards change nothing:
/// the fold over the extended sequence returns the same value. In
/// particular, when the reducer returns `End(v)` after `k` completions,
/// the broadcast returns exactly `v` and folds no further result.
pub proof fn lemma_early_stop_discards_rest<A, V, R: Reducer<A, V>>(
    red: R,
    committee: Committee,
    accumulator: A,
    s: Seq<Completion<V>>,
    extra: Seq<Completion<V>>,
    i: int,
    global_timeout: u64,
    local: Option<u64>,
)
    requires
        0 <= i <= s.len(),
        fold_stops_early(red, committee, accumulator, s, i, global_timeout, local),
    ensures
        fold_completions(red, committee, accumulator, s + extra, i, global_timeout, local)
            == fold_completions(red, committee, accumulator, s, i, global_timeout, local),
    decreases s.len() - i,
{
    assert((s + extra).len() == s.len() + extra.len());
    if i < s.len() {
        assert((s + extra)[i] == s[i]);
        if !past_deadline(s[i].at, global_timeout, local) {
            match red.reduce_spec(
                accumulator,
                s[i].authority,
                committee.weight_of(s[i].authority),
                s[i].result,
            ) {
                Err(_) => {},
                Ok(ReduceOutput::Continue(a)) => {
                    lemma_early_stop_discards_rest(
                        red,
                        committee,
                        a,
                        s,
                        extra,
                        i + 1,
                        global_timeout,
                        local,
                    );
                },
                Ok(ReduceOutput::ContinueWithTimeout(a, t)) => {
                    lemma_early_stop_discards_rest(
                        red,
                        committee,
                        a,
                        s,
                        extra,
                        i + 1,
                        global_timeout,
                        Some(sat_add(s[i].at, t)),
                    );
                },
                Ok(ReduceOutput::End(_)) => {},
            }
        }
    }
}

/// With a global timeout that elapses before any completion arrives,
/// the broadcast returns the initial accumulator unchanged and as a
/// success, whatever the reducer would have done: a timeout is a normal
/// termination mode, not an error.
pub proof fn lemma_global_timeout_yields_accumulator<A, V, R: Reducer<A, V>>(
    red: R,
    committee: Committee,
    initial: A,
    s: Seq<Completion<V>>,
    global_timeout: u64,
)
    requires
        forall|j: int| 0 <= j < s.len() ==> (#[trigger] s[j]).at >= global_timeout,
    ensures
        fold_completions(red, committee, initial, s, 0, global_timeout, None::<u64>) == Ok::<
            A,
            SuiError,
        >(initial),
{
    if s.len() > 0 {
        assert(s[0].at >= global_timeout);
    }
}

/// A reducer that rejects every completion; its error aborts the whole
/// broadcast.
pub struct FailingReducer {}

impl Reducer<u64, u64> for FailingReducer {
    open spec fn reduce_spec(
        &self,
        accumulator: u64,
        authority: AuthorityName,
        weight: u64,
        result: Result<u64, SuiError>,
    ) -> Result<ReduceOutput<u64>, SuiError> {
        Err(SuiError::TooManyIncorrectAuthorities)
    }

    fn reduce(
        &self,
        accumulator: u64,
        authority: AuthorityName,
        weight: u64,
        result: Result<u64, SuiError>,
    ) -> (r: Result<ReduceOutput<u64>, SuiError>) {
        Err(SuiError::TooManyIncorrectAuthorities)
    }
}

/// A reducer that counts completions, mapper failures included.
pub struct CountingReducer {}

impl Reducer<u64, u64> for CountingReducer {
    open spec fn reduce_spec(
        &self,
        accumulator: u64,
        authority: AuthorityName,
        weight: u64,
        result: Result<u64, SuiError>,
    ) -> Result<ReduceOutput<u64>, SuiError> {
        Ok(ReduceOutput::Continue(sat_add(accumulator, 1)))
    }

    fn reduce(
        &self,
        accumulator: u64,
        authority: AuthorityName,
        weight: u64,
        result: Result<u64, SuiError>,
    ) -> (r: Result<ReduceOutput<u64>, SuiError>) {
        Ok(ReduceOutput::Continue(crate::base::sat_add_exec(accumulator, 1)))
    }
}

/// A reducer that counts completions and ends the broadcast as soon as
/// the count exceeds its limit.
pub struct EarlyEndReducer {
    pub limit: u64,
}

impl Reducer<u64, u64> for EarlyEndReducer {
    open spec fn reduce_spec(
        &self,
        accumulator: u64,
        authority: AuthorityName,
        weight: u64,
        result: Result<u64, SuiError>,
    ) -> Result<ReduceOutput<u64>, SuiError> {
        if accumulator > self.limit {
            Ok(ReduceOutput::End(accumulator))
        } else {
            Ok(ReduceOutput::Continue(sat_add(accumulator, 1)))
        }
    }

    fn reduce(
        &self,
        accumulator: u64,
        authority: AuthorityName,
        weight: u64,
        result: Result<u64, SuiError>,
    ) -> (r: Result<ReduceOutput<u64>, SuiError>) {
        if accumulator > self.limit {
            Ok(ReduceOutput::End(accumulator))
        } else {
            Ok(ReduceOutput::Continue(crate::base::sat_add_exec(accumulator, 1)))
        }
    }
}

/// A reducer that records the responding authorities as a count and a
/// membership bitmask and, once more than `shorten_after` responded,
/// shortens the remaining wait.
pub struct CollectingReducer {
    pub shorten_after: u64,
    pub remaining_wait: u64,
}

impl Reducer<(u64, u64), u64> for CollectingReducer {
    open spec fn reduce_spec(
        &self,
        accumulator: (u64, u64),
        authority: AuthorityName,
        weight: u64,
        result: Result<u64, SuiError>,
    ) -> Result<ReduceOutput<(u64, u64)>, SuiError> {
        let next = (sat_add(accumulator.0, 1), accumulator.1 | (1u64 << (authority % 64)));
        if next.0 <= self.shorten_after {
            Ok(ReduceOutput::Continue(next))
        } else {
            Ok(ReduceOutput::ContinueWithTimeout(next, self.remaining_wait))
        }
    }

    fn reduce(
        &self,
        accumulator: (u64, u64),
        authority: AuthorityName,
        weight: u64,
        result: Result<u64, SuiError>,
    ) -> (r: Result<ReduceOutput<(u64, u64)>, SuiError>) {
        let next = (
            crate::base::sat_add_exec(accumulator.0, 1),
            accumulator.1 | (1u64 << (authority % 64)),
        );
        if next.0 <= self.shorten_after {
            Ok(ReduceOutput::Continue(next))
        } else {
            Ok(ReduceOutput::ContinueWithTimeout(next, self.remaining_wait))
        }
    }
}

} // verus!
