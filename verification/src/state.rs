//! The value that is threaded through a pipeline.

use vstd::prelude::*;

verus! {

/// The state a pipeline works on.
///
/// `proceed` is the continuation flag: while it is `true` the steps do their work, once
/// it is `false` they hand the state on untouched. `outcome` is the payload. `stage` is
/// the completion record: entry `i` holds the continuation flag that step `i` left
/// behind when it last ran, and an entry that is `true` keeps the step from running again.
#[derive(Debug)]
pub struct State<T> {
    pub proceed: bool,
    pub outcome: T,
    pub stage: Vec<bool>,
}

/// The mathematical content of a [`State`].
pub struct StateView<T> {
    pub proceed: bool,
    pub outcome: T,
    pub stage: Seq<bool>,
}

impl<T> View for State<T> {
    type V = StateView<T>;

    open spec fn view(&self) -> StateView<T> {
        StateView { proceed: self.proceed, outcome: self.outcome, stage: self.stage@ }
    }
}

impl<T> StateView<T> {
    /// Step `i` has run before and asked to continue, so it will not run again.
    pub open spec fn completed(self, i: int) -> bool {
        0 <= i < self.stage.len() && self.stage[i]
    }

    /// The state after the flag that step `i` left behind has been written to the
    /// record: in place where the record has an entry `i`, at its end where it has not.
    pub open spec fn recorded(self, i: int) -> StateView<T> {
        StateView {
            proceed: self.proceed,
            outcome: self.outcome,
            stage: if 0 <= i < self.stage.len() {
                self.stage.update(i, self.proceed)
            } else {
                self.stage.push(self.proceed)
            },
        }
    }
}

impl<T> State<T> {
    /// The state a new run starts from: running, nothing recorded.
    pub fn new(outcome: T) -> (s: State<T>)
        ensures
            s@ == (StateView { proceed: true, outcome, stage: Seq::<bool>::empty() }),
    {
        State { proceed: true, outcome, stage: Vec::new() }
    }

    /// The state an earlier run is taken up from: running again, with the outcome and
    /// the completion record that the earlier run left.
    pub fn resume(outcome: T, stage: Vec<bool>) -> (s: State<T>)
        ensures
            s.proceed,
            s.outcome == outcome,
            s.stage == stage,
    {
        State { proceed: true, outcome, stage }
    }
}

impl<T: Clone> Clone for State<T> {
    /// A copy to keep while the state itself goes into a run: the same flag and the
    /// same record, with a clone of the outcome.
    fn clone(&self) -> (s: Self)
        ensures
            s.proceed == self.proceed,
            s.stage@ == self.stage@,
            cloned::<T>(self.outcome, s.outcome),
    {
        let stage = self.stage.clone();
        assert(stage@ =~= self.stage@);
        State { proceed: self.proceed, outcome: self.outcome.clone(), stage }
    }
}

} // verus!
