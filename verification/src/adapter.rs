//! Lifting a business function on outcomes into a step on states.
//!
//! A step takes a state and returns a state or an error. A business function knows only
//! outcomes. The adapters here close the gap for the three shapes a business function can
//! have: one that returns a value, one that may return none, one that may fail. In each
//! shape a stopped state passes through untouched, and the completion record is never
//! written: that is left to the run.

use rand::Rng;
use vstd::prelude::*;
use crate::error::{absent_text, Error, ErrorKind, ErrorView};
use crate::state::State;

verus! {

/// One boolean from the thread-local generator of `rand`, by `rand::thread_rng` and
/// `Rng::gen`. The value is random, so nothing is stated of it. The generator seeds itself
/// from the operating system at its first use in a thread, and panics there if the system
/// gives no entropy.
#[verifier::external_body]
fn draw() -> bool {
    rand::thread_rng().gen()
}

/// The continuation policy that always goes on.
pub fn always<T>(outcome: &T) -> (proceed: bool)
    ensures
        proceed,
{
    true
}

/// The continuation policy that leaves it to chance: either answer can come, whatever
/// the outcome is.
pub fn by_chance<T>(outcome: &T) -> (proceed: bool) {
    draw()
}

/// `res` is what a step returns for the running state `c` once its business function has
/// produced `value`: the new outcome, the record of `c`, and a continuation flag that
/// `policy` gave for the new outcome.
pub open spec fn settles<T, P>(policy: P, c: State<T>, value: T, res: Result<State<T>, Error>) -> bool where
    P: Fn(&T) -> bool,
 {
    res matches Ok(next) && next.outcome == value && next.stage == c.stage && call_ensures(
        policy,
        (&value,),
        next.proceed,
    )
}

/// The step for a business function that returns a value.
///
/// A stopped state is returned as it is. On a running state the business function is
/// applied to the outcome, and `policy` decides from the new outcome whether the
/// pipeline goes on.
pub fn state_function_value<T, B, P>(func: B, policy: P, c: State<T>) -> (res: Result<
    State<T>,
    Error,
>) where B: Fn(T) -> T, P: Fn(&T) -> bool
    requires
        c.proceed ==> call_requires(func, (c.outcome,)),
        c.proceed ==> forall|v: T| #[trigger]
            call_ensures(func, (c.outcome,), v) ==> call_requires(policy, (&v,)),
    ensures
        !c.proceed ==> res == Ok::<State<T>, Error>(c),
        c.proceed ==> exists|v: T| #[trigger]
            call_ensures(func, (c.outcome,), v) && settles(policy, c, v, res),
{
    if !c.proceed {
        return Ok(c);
    }
    let value = func(c.outcome);
    let proceed = policy(&value);
    Ok(State { proceed, outcome: value, stage: c.stage })
}

/// The step for a business function that may return no value.
///
/// A stopped state is returned as it is. On a running state the business function is
/// applied to the outcome. A value is handled as in [`state_function_value`]; no value
/// is the error `AbsentOutcome`.
pub fn state_function<T, B, P>(func: B, policy: P, c: State<T>) -> (res: Result<
    State<T>,
    Error,
>) where B: Fn(T) -> Option<T>, P: Fn(&T) -> bool
    requires
        c.proceed ==> call_requires(func, (c.outcome,)),
        c.proceed ==> forall|v: T| #[trigger]
            call_ensures(func, (c.outcome,), Some(v)) ==> call_requires(policy, (&v,)),
    ensures
        !c.proceed ==> res == Ok::<State<T>, Error>(c),
        c.proceed ==> exists|out: Option<T>| #[trigger]
            call_ensures(func, (c.outcome,), out) && match out {
                Some(v) => settles(policy, c, v, res),
                None => res matches Err(e) && e@ == (ErrorView {
                    kind: ErrorKind::AbsentOutcome,
                    message: absent_text(),
                }),
            },
{
    if !c.proceed {
        return Ok(c);
    }
    match func(c.outcome) {
        Some(value) => {
            let proceed = policy(&value);
            Ok(State { proceed, outcome: value, stage: c.stage })
        },
        None => Err(Error::absent_outcome()),
    }
}

/// The step for a business function that may fail.
///
/// A stopped state is returned as it is. On a running state the business function is
/// applied to the outcome. A value is handled as in [`state_function_value`]; a failure
/// is the error `StepFailure` with the text that the business function gave.
pub fn state_function_result<T, B, P>(func: B, policy: P, c: State<T>) -> (res: Result<
    State<T>,
    Error,
>) where B: Fn(T) -> Result<T, String>, P: Fn(&T) -> bool
    requires
        c.proceed ==> call_requires(func, (c.outcome,)),
        c.proceed ==> forall|v: T| #[trigger]
            call_ensures(func, (c.outcome,), Ok::<T, String>(v)) ==> call_requires(policy, (&v,)),
    ensures
        !c.proceed ==> res == Ok::<State<T>, Error>(c),
        c.proceed ==> exists|out: Result<T, String>| #[trigger]
            call_ensures(func, (c.outcome,), out) && match out {
                Ok(v) => settles(policy, c, v, res),
                Err(text) => res matches Err(e) && e.kind == ErrorKind::StepFailure && e.message
                    == text,
            },
{
    if !c.proceed {
        return Ok(c);
    }
    match func(c.outcome) {
        Ok(value) => {
            let proceed = policy(&value);
            Ok(State { proceed, outcome: value, stage: c.stage })
        },
        Err(text) => Err(Error::step_failure(text)),
    }
}

} // verus!
