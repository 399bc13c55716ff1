//! What holds of every run of a chain.

use vstd::prelude::*;
use crate::error::Error;
use crate::orchestrate::{advances, ends_in, is_run, keeps_record, Orchestrate};
use crate::state::{State, StateView};

verus! {

/// A run that stands behind a result of the chain.
proof fn run_behind<'a, T, F>(
    chain: Vec<&'a F>,
    state: State<T>,
    res: Result<State<T>, Error>,
) -> (trace: Seq<State<T>>) where F: Fn(State<T>) -> Result<State<T>, Error>
    requires
        chain.yields(state, res),
    ensures
        is_run(chain@, trace),
        trace[0] == state,
        ends_in(chain@, trace, res),
{
    choose|trace: Seq<State<T>>|
        #![trigger is_run(chain@, trace)]
        is_run(chain@, trace) && trace[0] == state && ends_in(chain@, trace, res)
}

/// The length of the completion record once the indices before `k` have been handled,
/// when it had length `start` at first: an index inside the record is written in place,
/// an index past its end appends.
pub open spec fn record_len(start: nat, k: int) -> int {
    if start >= k {
        start as int
    } else {
        k
    }
}

/// Along a run the completion record grows by exactly the indices that it did not hold.
pub proof fn lemma_record_length<'a, T, F>(chain: Vec<&'a F>, trace: Seq<State<T>>, k: int) where
    F: Fn(State<T>) -> Result<State<T>, Error>,

    requires
        chain.admits(),
        is_run(chain@, trace),
        0 <= k < trace.len(),
    ensures
        trace[k].stage@.len() == record_len(trace[0].stage@.len(), k),
    decreases k,
{
    if k > 0 {
        lemma_record_length(chain, trace, k - 1);
        let pre = trace[k - 1];
        assert(advances(*chain@[k - 1], k - 1, pre, Ok::<State<T>, Error>(trace[k])));
        assert(keeps_record(*chain@[k - 1]));
    }
}

/// A run from a state with an empty completion record, over a chain of `n` steps, ends
/// in a state whose record has exactly `n` entries.
pub proof fn lemma_fresh_run_fills_record<'a, T, F>(chain: Vec<&'a F>, state: State<T>, last: State<T>) where
    F: Fn(State<T>) -> Result<State<T>, Error>,

    requires
        chain.admits(),
        state.stage@.len() == 0,
        chain.yields(state, Ok(last)),
    ensures
        last.stage@.len() == chain@.len(),
{
    let trace = run_behind(chain, state, Ok(last));
    lemma_record_length(chain, trace, chain@.len() as int);
}

/// While a run has not reached index `j`, entry `j` of the record is as it was at first.
pub proof fn lemma_entry_waits<'a, T, F>(chain: Vec<&'a F>, trace: Seq<State<T>>, k: int, j: int) where
    F: Fn(State<T>) -> Result<State<T>, Error>,

    requires
        chain.admits(),
        is_run(chain@, trace),
        0 <= k < trace.len(),
        k <= j < trace[0].stage@.len(),
    ensures
        j < trace[k].stage@.len(),
        trace[k].stage@[j] == trace[0].stage@[j],
    decreases k,
{
    if k > 0 {
        lemma_entry_waits(chain, trace, k - 1, j);
        let pre = trace[k - 1];
        assert(advances(*chain@[k - 1], k - 1, pre, Ok::<State<T>, Error>(trace[k])));
        assert(keeps_record(*chain@[k - 1]));
    }
}

/// Once a run has handled index `j`, entry `j` of the record does not change any more.
pub proof fn lemma_entry_stays<'a, T, F>(chain: Vec<&'a F>, trace: Seq<State<T>>, j: int, m: int) where
    F: Fn(State<T>) -> Result<State<T>, Error>,

    requires
        chain.admits(),
        is_run(chain@, trace),
        0 <= j < m < trace.len(),
    ensures
        j < trace[j + 1].stage@.len(),
        j < trace[m].stage@.len(),
        trace[m].stage@[j] == trace[j + 1].stage@[j],
    decreases m,
{
    lemma_record_length(chain, trace, j + 1);
    if m > j + 1 {
        lemma_entry_stays(chain, trace, j, m - 1);
        let pre = trace[m - 1];
        assert(advances(*chain@[m - 1], m - 1, pre, Ok::<State<T>, Error>(trace[m])));
        assert(keeps_record(*chain@[m - 1]));
    }
}

/// An index that the record marks complete when the run starts is passed over: the
/// state after it is the state before it, so its step has no part in the result.
pub proof fn lemma_completed_index_is_skipped<'a, T, F>(
    chain: Vec<&'a F>,
    trace: Seq<State<T>>,
    i: int,
) where F: Fn(State<T>) -> Result<State<T>, Error>
    requires
        chain.admits(),
        is_run(chain@, trace),
        0 <= i,
        i + 1 < trace.len(),
        trace[0]@.completed(i),
    ensures
        trace[i + 1] == trace[i],
{
    lemma_entry_waits(chain, trace, i, i);
    assert(advances(*chain@[i], i, trace[i], Ok::<State<T>, Error>(trace[i + 1])));
}

/// A state whose record marks every index of the chain complete is returned as it is,
/// whatever the steps are.
pub proof fn lemma_complete_state_is_returned<'a, T, F>(
    chain: Vec<&'a F>,
    state: State<T>,
    res: Result<State<T>, Error>,
) where F: Fn(State<T>) -> Result<State<T>, Error>
    requires
        forall|i: int| 0 <= i < chain@.len() ==> state@.completed(i),
        chain.yields(state, res),
    ensures
        res == Ok::<State<T>, Error>(state),
{
    let trace = run_behind(chain, state, res);
    lemma_run_stands_still(chain, trace, state, trace.len() - 1);
}

/// A run from a state whose record marks every index complete never leaves that state.
proof fn lemma_run_stands_still<'a, T, F>(
    chain: Vec<&'a F>,
    trace: Seq<State<T>>,
    state: State<T>,
    k: int,
) where F: Fn(State<T>) -> Result<State<T>, Error>
    requires
        forall|i: int| 0 <= i < chain@.len() ==> state@.completed(i),
        is_run(chain@, trace),
        trace[0] == state,
        0 <= k < trace.len(),
    ensures
        trace[k] == state,
    decreases k,
{
    if k > 0 {
        lemma_run_stands_still(chain, trace, state, k - 1);
        assert(advances(*chain@[k - 1], k - 1, trace[k - 1], Ok::<State<T>, Error>(trace[k])));
    }
}

/// The step hands a stopped state back as it is, and does not fail on one.
pub open spec fn passes_when_stopped<T, F>(step: F) -> bool where
    F: Fn(State<T>) -> Result<State<T>, Error>,
 {
    forall|s: State<T>, r: Result<State<T>, Error>|
        !s.proceed && #[trigger] call_ensures(step, (s,), r) ==> r == Ok::<State<T>, Error>(s)
}

/// Every step of the chain hands a stopped state back as it is.
pub open spec fn all_pass_when_stopped<'a, T, F>(chain: Seq<&'a F>) -> bool where
    F: Fn(State<T>) -> Result<State<T>, Error>,
 {
    forall|i: int| 0 <= i < chain.len() ==> passes_when_stopped(*#[trigger] chain[i])
}

/// Once a run is stopped it stays stopped, and the outcome stays what it was.
pub proof fn lemma_stop_holds<'a, T, F>(chain: Vec<&'a F>, trace: Seq<State<T>>, k: int, m: int) where
    F: Fn(State<T>) -> Result<State<T>, Error>,

    requires
        chain.admits(),
        all_pass_when_stopped(chain@),
        is_run(chain@, trace),
        0 <= k <= m < trace.len(),
        !trace[k].proceed,
    ensures
        !trace[m].proceed,
        trace[m].outcome == trace[k].outcome,
    decreases m,
{
    if m > k {
        lemma_stop_holds(chain, trace, k, m - 1);
        let pre = trace[m - 1];
        assert(advances(*chain@[m - 1], m - 1, pre, Ok::<State<T>, Error>(trace[m])));
        assert(passes_when_stopped(*chain@[m - 1]));
    }
}

/// Once a run is stopped, every index that it handles from then on, and that the record
/// did not mark complete when the run started, ends with `false` in the record. (An
/// index that was marked complete at the start is passed over and keeps its `true`.)
pub proof fn lemma_stop_is_recorded<'a, T, F>(
    chain: Vec<&'a F>,
    trace: Seq<State<T>>,
    k: int,
    j: int,
) where F: Fn(State<T>) -> Result<State<T>, Error>
    requires
        chain.admits(),
        all_pass_when_stopped(chain@),
        is_run(chain@, trace),
        0 <= k <= j,
        j + 1 < trace.len(),
        !trace[k].proceed,
        !trace[0]@.completed(j),
    ensures
        j < trace.last().stage@.len(),
        !trace.last().stage@[j],
{
    lemma_stop_holds(chain, trace, k, j);
    lemma_record_length(chain, trace, j);
    if j < trace[0].stage@.len() {
        lemma_entry_waits(chain, trace, j, j);
    }
    let pre = trace[j];
    assert(!pre@.completed(j));
    assert(advances(*chain@[j], j, pre, Ok::<State<T>, Error>(trace[j + 1])));
    assert(passes_when_stopped(*chain@[j]));
    assert(trace[j + 1]@ == pre@.recorded(j));
    lemma_entry_stays(chain, trace, j, trace.len() - 1);
}

/// Running a chain on a stopped state does not fail, and returns a stopped state with
/// the outcome that went in.
pub proof fn lemma_stopped_state_passes_through<'a, T, F>(
    chain: Vec<&'a F>,
    state: State<T>,
    res: Result<State<T>, Error>,
) where F: Fn(State<T>) -> Result<State<T>, Error>
    requires
        chain.admits(),
        all_pass_when_stopped(chain@),
        !state.proceed,
        chain.yields(state, res),
    ensures
        res matches Ok(last) && !last.proceed && last.outcome == state.outcome,
{
    let trace = run_behind(chain, state, res);
    let m = trace.len() - 1;
    lemma_stop_holds(chain, trace, 0, m);
    if res is Err {
        assert(passes_when_stopped(*chain@[m]));
    }
}

/// Two results with the same content: states with one view, or errors with one view.
pub open spec fn same_result<T>(a: Result<State<T>, Error>, b: Result<State<T>, Error>) -> bool {
    match (a, b) {
        (Ok(x), Ok(y)) => x@ == y@,
        (Err(e), Err(f)) => e@ == f@,
        _ => false,
    }
}

/// The step is a function of the content of its input: on two states with one view it
/// can only return results with the same content.
pub open spec fn deterministic<T, F>(step: F) -> bool where
    F: Fn(State<T>) -> Result<State<T>, Error>,
 {
    forall|s1: State<T>, s2: State<T>, r1: Result<State<T>, Error>, r2: Result<State<T>, Error>|
        s1@ == s2@ && #[trigger] call_ensures(step, (s1,), r1) && #[trigger] call_ensures(
            step,
            (s2,),
            r2,
        ) ==> same_result(r1, r2)
}

/// Every step of the chain is a function of the content of its input.
pub open spec fn all_deterministic<'a, T, F>(chain: Seq<&'a F>) -> bool where
    F: Fn(State<T>) -> Result<State<T>, Error>,
 {
    forall|i: int| 0 <= i < chain.len() ==> deterministic(*#[trigger] chain[i])
}

/// Two runs of a chain of deterministic steps from states with one view pass through
/// states with one view, index by index.
proof fn lemma_runs_agree<'a, T, F>(
    chain: Vec<&'a F>,
    t1: Seq<State<T>>,
    t2: Seq<State<T>>,
    k: int,
) where F: Fn(State<T>) -> Result<State<T>, Error>
    requires
        all_deterministic(chain@),
        is_run(chain@, t1),
        is_run(chain@, t2),
        t1[0]@ == t2[0]@,
        0 <= k < t1.len(),
        k < t2.len(),
    ensures
        t1[k]@ == t2[k]@,
    decreases k,
{
    if k > 0 {
        lemma_runs_agree(chain, t1, t2, k - 1);
        assert(advances(*chain@[k - 1], k - 1, t1[k - 1], Ok::<State<T>, Error>(t1[k])));
        assert(advances(*chain@[k - 1], k - 1, t2[k - 1], Ok::<State<T>, Error>(t2[k])));
        assert(deterministic(*chain@[k - 1]));
    }
}

/// Running a chain of deterministic steps twice on the same saved state gives the same
/// result: the same final state, or the same error.
pub proof fn lemma_rerun_gives_same_result<'a, T, F>(
    chain: Vec<&'a F>,
    s1: State<T>,
    s2: State<T>,
    r1: Result<State<T>, Error>,
    r2: Result<State<T>, Error>,
) where F: Fn(State<T>) -> Result<State<T>, Error>
    requires
        all_deterministic(chain@),
        s1@ == s2@,
        chain.yields(s1, r1),
        chain.yields(s2, r2),
    ensures
        same_result(r1, r2),
{
    let t1 = run_behind(chain, s1, r1);
    let t2 = run_behind(chain, s2, r2);
    let m = if t1.len() <= t2.len() {
        t1.len() - 1
    } else {
        t2.len() - 1
    };
    lemma_runs_agree(chain, t1, t2, m);
    if m < chain@.len() {
        assert(deterministic(*chain@[m]));
        if m + 1 < t1.len() {
            assert(advances(*chain@[m], m, t1[m], Ok::<State<T>, Error>(t1[m + 1])));
        }
        if m + 1 < t2.len() {
            assert(advances(*chain@[m], m, t2[m], Ok::<State<T>, Error>(t2[m + 1])));
        }
    }
}

/// Nothing is left to do on the state for a chain of `n` steps: the record covers every
/// index, and either the state is stopped or the record marks every index complete.
pub open spec fn at_rest<T>(s: StateView<T>, n: int) -> bool {
    &&& n <= s.stage.len()
    &&& !s.proceed || forall|j: int| 0 <= j < n ==> s.stage[j]
}

/// A run through every index ends in a state on which nothing is left to do.
pub proof fn lemma_run_ends_at_rest<'a, T, F>(chain: Vec<&'a F>, state: State<T>, last: State<T>) where
    F: Fn(State<T>) -> Result<State<T>, Error>,

    requires
        chain.admits(),
        all_pass_when_stopped(chain@),
        chain.yields(state, Ok(last)),
    ensures
        at_rest(last@, chain@.len() as int),
{
    let n = chain@.len() as int;
    let trace = run_behind(chain, state, Ok(last));
    lemma_record_length(chain, trace, n);
    if last.proceed {
        assert forall|j: int| 0 <= j < n implies last.stage@[j] by {
            if !trace[j + 1].proceed {
                lemma_stop_holds(chain, trace, j + 1, n);
            }
            lemma_record_length(chain, trace, j);
            assert(advances(*chain@[j], j, trace[j], Ok::<State<T>, Error>(trace[j + 1])));
            assert(keeps_record(*chain@[j]));
            assert(trace[j + 1].stage@[j]);
            if j + 1 < n {
                lemma_entry_stays(chain, trace, j, n);
            }
        }
    }
}

/// A run from a state on which nothing is left to do passes only through states with
/// the content of that state.
proof fn lemma_rest_holds<'a, T, F>(chain: Vec<&'a F>, trace: Seq<State<T>>, k: int) where
    F: Fn(State<T>) -> Result<State<T>, Error>,

    requires
        all_pass_when_stopped(chain@),
        is_run(chain@, trace),
        at_rest(trace[0]@, chain@.len() as int),
        0 <= k < trace.len(),
    ensures
        trace[k]@ == trace[0]@,
    decreases k,
{
    if k > 0 {
        lemma_rest_holds(chain, trace, k - 1);
        let pre = trace[k - 1];
        assert(advances(*chain@[k - 1], k - 1, pre, Ok::<State<T>, Error>(trace[k])));
        assert(passes_when_stopped(*chain@[k - 1]));
        if !pre@.completed(k - 1) {
            assert(pre@.recorded(k - 1).stage =~= pre@.stage);
        }
    }
}

/// Running a chain on a state on which nothing is left to do does not fail, and
/// returns a state with the same content.
pub proof fn lemma_state_at_rest_is_kept<'a, T, F>(
    chain: Vec<&'a F>,
    state: State<T>,
    res: Result<State<T>, Error>,
) where F: Fn(State<T>) -> Result<State<T>, Error>
    requires
        all_pass_when_stopped(chain@),
        at_rest(state@, chain@.len() as int),
        chain.yields(state, res),
    ensures
        res matches Ok(last) && last@ == state@,
{
    let trace = run_behind(chain, state, res);
    let m = trace.len() - 1;
    lemma_rest_holds(chain, trace, m);
    if res is Err {
        assert(passes_when_stopped(*chain@[m]));
    }
}

/// Running a chain again on the state that a run of it ended in changes nothing: the
/// second run does not fail, and returns a state with the same content.
pub proof fn lemma_rerun_changes_nothing<'a, T, F>(
    chain: Vec<&'a F>,
    state: State<T>,
    last: State<T>,
    res: Result<State<T>, Error>,
) where F: Fn(State<T>) -> Result<State<T>, Error>
    requires
        chain.admits(),
        all_pass_when_stopped(chain@),
        chain.yields(state, Ok(last)),
        chain.yields(last, res),
    ensures
        res matches Ok(again) && again@ == last@,
{
    lemma_run_ends_at_rest(chain, state, last);
    lemma_state_at_rest_is_kept(chain, last, res);
}

} // verus!
