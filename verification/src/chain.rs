//! Resolving an ordered list of step names into the steps they stand for.

use vstd::prelude::*;
use crate::error::{not_found_text, Error, ErrorKind, ErrorView};
use crate::registry::{entries, lookup, registered, resolves_to};

verus! {

/// An ordered list of step names that can be resolved against a table of steps.
pub trait Chain<F>: Sized {
    /// Resolves the names into their steps, in the order of the names.
    fn create<'a>(self, col: &'a Vec<(F, String)>) -> Result<Vec<&'a F>, Error>;
}

impl<'n, F> Chain<F> for Vec<&'n str> {
    /// Resolves the names against `col`, keeping their order; a name may occur more than
    /// once. The first name that `col` does not hold makes the whole call fail with
    /// `NotFound` for that name.
    fn create<'a>(self, col: &'a Vec<(F, String)>) -> (res: Result<Vec<&'a F>, Error>)
        ensures
            res is Err <==> exists|i: int|
                0 <= i < self@.len() && !registered(entries(col@), (#[trigger] self@[i])@),
            match res {
                Ok(chain) => {
                    &&& chain@.len() == self@.len()
                    &&& forall|i: int|
                        0 <= i < self@.len() ==> resolves_to(
                            entries(col@),
                            self@[i]@,
                            *#[trigger] chain@[i],
                        )
                },
                Err(e) => exists|i: int|
                    {
                        &&& 0 <= i < self@.len()
                        &&& !registered(entries(col@), (#[trigger] self@[i])@)
                        &&& forall|j: int|
                            0 <= j < i ==> registered(entries(col@), (#[trigger] self@[j])@)
                        &&& e@ == (ErrorView {
                            kind: ErrorKind::NotFound,
                            message: not_found_text(self@[i]@),
                        })
                    },
            },
    {
        let mut chain: Vec<&'a F> = Vec::new();
        let mut i: usize = 0;
        while i < self.len()
            invariant
                i <= self.len(),
                chain@.len() == i,
                forall|j: int|
                    0 <= j < i ==> resolves_to(entries(col@), self@[j]@, *#[trigger] chain@[j]),
                forall|j: int| 0 <= j < i ==> registered(entries(col@), (#[trigger] self@[j])@),
            decreases self.len() - i,
        {
            match lookup(col, self[i]) {
                Ok(step) => {
                    chain.push(step);
                },
                Err(e) => {
                    return Err(e);
                },
            }
            i += 1;
        }
        Ok(chain)
    }
}

} // verus!
