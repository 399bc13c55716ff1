//! Running a chain of steps over a state, with steps that completed before left out.

use vstd::prelude::*;
use crate::error::Error;
use crate::laws::{lemma_record_length, record_len};
use crate::state::State;

verus! {

/// The step may be invoked for index `i`: it accepts every state whose record does not
/// mark `i` complete. Nothing is asked of it on the states on which it is skipped.
pub open spec fn invocable<T, F>(step: F, i: int) -> bool where
    F: Fn(State<T>) -> Result<State<T>, Error>,
 {
    forall|s: State<T>| !s@.completed(i) ==> #[trigger] call_requires(step, (s,))
}

/// The step hands the completion record back as it received it.
pub open spec fn keeps_record<T, F>(step: F) -> bool where
    F: Fn(State<T>) -> Result<State<T>, Error>,
 {
    forall|s: State<T>, r: State<T>| #[trigger]
        call_ensures(step, (s,), Ok::<State<T>, Error>(r)) ==> r.stage@ == s.stage@
}

/// `res` is a possible result of handling index `i` on `pre`.
///
/// Where the record marks `i` complete the state passes through and the step plays no
/// part. Otherwise `res` comes from one invocation of the step on `pre`: its error as it
/// is, or its state with the flag it returned written to the record at `i`.
pub open spec fn advances<T, F>(step: F, i: int, pre: State<T>, res: Result<State<T>, Error>) -> bool where
    F: Fn(State<T>) -> Result<State<T>, Error>,
 {
    if pre@.completed(i) {
        res == Ok::<State<T>, Error>(pre)
    } else {
        exists|r: Result<State<T>, Error>| #[trigger]
            call_ensures(step, (pre,), r) && match r {
                Ok(next) => res matches Ok(post) && post@ == next@.recorded(i),
                Err(e) => res == Err::<State<T>, Error>(e),
            }
    }
}

/// Handles index `i` of a chain: skips the step where the record marks it complete,
/// else invokes it and records the continuation flag that it returned.
pub fn advance<T, F>(step: &F, i: usize, state: State<T>) -> (res: Result<State<T>, Error>) where
    F: Fn(State<T>) -> Result<State<T>, Error>,

    requires
        !state@.completed(i as int) ==> call_requires(*step, (state,)),
        !state@.completed(i as int) ==> forall|r: State<T>| #[trigger]
            call_ensures(*step, (state,), Ok::<State<T>, Error>(r)) ==> r.stage@.len()
                == state.stage@.len(),
    ensures
        advances(*step, i as int, state, res),
{
    if i < state.stage.len() {
        if state.stage[i] {
            return Ok(state);
        }
        match step(state) {
            Ok(mut next) => {
                let proceed = next.proceed;
                next.stage.set(i, proceed);
                Ok(next)
            },
            Err(e) => Err(e),
        }
    } else {
        match step(state) {
            Ok(mut next) => {
                let proceed = next.proceed;
                next.stage.push(proceed);
                Ok(next)
            },
            Err(e) => Err(e),
        }
    }
}

/// `trace` lists the states that a run of `chain` passes through: `trace[i]` is the
/// state before index `i` is handled, and each state but the first is what handling the
/// index before it made of its predecessor.
pub open spec fn is_run<'a, T, F>(chain: Seq<&'a F>, trace: Seq<State<T>>) -> bool where
    F: Fn(State<T>) -> Result<State<T>, Error>,
 {
    &&& 1 <= trace.len() <= chain.len() + 1
    &&& forall|i: int|
        0 <= i < trace.len() - 1 ==> advances(
            *chain[i],
            i,
            #[trigger] trace[i],
            Ok::<State<T>, Error>(trace[i + 1]),
        )
}

/// The run `trace` ends in `res`: it has gone through every index and `res` is its last
/// state, or it has reached an index at which the step fails and `res` is that error.
pub open spec fn ends_in<'a, T, F>(
    chain: Seq<&'a F>,
    trace: Seq<State<T>>,
    res: Result<State<T>, Error>,
) -> bool where F: Fn(State<T>) -> Result<State<T>, Error> {
    match res {
        Ok(last) => trace.len() == chain.len() + 1 && trace.last() == last,
        Err(e) => trace.len() <= chain.len() && advances(
            *chain[trace.len() - 1],
            trace.len() - 1,
            trace.last(),
            Err::<State<T>, Error>(e),
        ),
    }
}

/// `res` is a possible result of running `chain` on `state`: some run from `state` ends
/// in it.
pub open spec fn run_yields<'a, T, F>(
    chain: Seq<&'a F>,
    state: State<T>,
    res: Result<State<T>, Error>,
) -> bool where F: Fn(State<T>) -> Result<State<T>, Error> {
    exists|trace: Seq<State<T>>|
        #![trigger is_run(chain, trace)]
        is_run(chain, trace) && trace[0] == state && ends_in(chain, trace, res)
}

/// A chain of steps that can be run over a state.
pub trait Orchestrate<T>: Sized {
    /// Every step of the chain can be run where `execute` runs it.
    spec fn admits(&self) -> bool;

    /// `res` is a possible result of running the chain on `state`.
    spec fn yields(&self, state: State<T>, res: Result<State<T>, Error>) -> bool;

    /// Runs the chain on `state`, index by index, and returns the state it ends in, or
    /// the error of the first step that fails.
    fn execute(self, state: State<T>) -> (res: Result<State<T>, Error>)
        requires
            self.admits(),
        ensures
            self.yields(state, res),
    ;
}

impl<'a, T, F> Orchestrate<T> for Vec<&'a F> where F: Fn(State<T>) -> Result<State<T>, Error> {
    open spec fn admits(&self) -> bool {
        forall|i: int|
            0 <= i < self@.len() ==> invocable(*#[trigger] self@[i], i) && keeps_record(
                *self@[i],
            )
    }

    open spec fn yields(&self, state: State<T>, res: Result<State<T>, Error>) -> bool {
        run_yields(self@, state, res)
    }

    fn execute(self, state: State<T>) -> (res: Result<State<T>, Error>)
        ensures
            res matches Ok(last) ==> last.stage@.len() == record_len(
                state.stage@.len(),
                self@.len() as int,
            ),
    {
        let ghost chain = self@;
        let ghost mut trace: Seq<State<T>> = seq![state];
        let mut current = state;
        let mut i: usize = 0;
        while i < self.len()
            invariant
                i <= self.len(),
                self@ == chain,
                self.admits(),
                trace.len() == i + 1,
                trace[0] == state,
                trace[i as int] == current,
                is_run(chain, trace),
            decreases self.len() - i,
        {
            let step: &F = self[i];
            match advance(step, i, current) {
                Ok(next) => {
                    proof {
                        trace = trace.push(next);
                    }
                    current = next;
                },
                Err(e) => {
                    return Err(e);
                },
            }
            i += 1;
        }
        proof {
            lemma_record_length(self, trace, i as int);
        }
        Ok(current)
    }
}

} // verus!
