//! The table that gives steps their names.

use vstd::prelude::*;
use crate::error::{Error, ErrorKind, ErrorView};

verus! {

/// A table of steps, each registered under a name, in the order of registration.
///
/// Names are not checked at registration. Where a name was registered more than once,
/// lookup finds the entry that was registered first.
#[derive(Debug)]
pub struct Registry<F> {
    pub di_ref: Vec<(F, String)>,
}

/// The entries of a table as mathematical values: each step with the text of its name.
pub open spec fn entries<F>(table: Seq<(F, String)>) -> Seq<(F, Seq<char>)> {
    Seq::new(table.len(), |k: int| (table[k].0, table[k].1@))
}

impl<F> View for Registry<F> {
    type V = Seq<(F, Seq<char>)>;

    open spec fn view(&self) -> Seq<(F, Seq<char>)> {
        entries(self.di_ref@)
    }
}

/// Some entry carries `name`.
pub open spec fn registered<F>(entries: Seq<(F, Seq<char>)>, name: Seq<char>) -> bool {
    exists|k: int| 0 <= k < entries.len() && (#[trigger] entries[k]).1 == name
}

/// Entry `k` carries `name`, and no entry before it does.
pub open spec fn first_match<F>(entries: Seq<(F, Seq<char>)>, name: Seq<char>, k: int) -> bool {
    &&& 0 <= k < entries.len()
    &&& entries[k].1 == name
    &&& forall|j: int| 0 <= j < k ==> (#[trigger] entries[j]).1 != name
}

/// `step` is the step that `name` stands for: that of the first entry carrying the name.
pub open spec fn resolves_to<F>(entries: Seq<(F, Seq<char>)>, name: Seq<char>, step: F) -> bool {
    exists|k: int| #[trigger] first_match(entries, name, k) && step == entries[k].0
}

/// Finds the step registered under `name`: the first such entry of the table, or
/// `NotFound` where no entry carries the name.
pub fn lookup<'a, F>(col: &'a Vec<(F, String)>, name: &str) -> (res: Result<&'a F, Error>)
    ensures
        match res {
            Ok(step) => resolves_to(entries(col@), name@, *step),
            Err(e) => !registered(entries(col@), name@) && e@ == (ErrorView {
                kind: ErrorKind::NotFound,
                message: crate::error::not_found_text(name@),
            }),
        },
{
    let wanted = String::from_str(name);
    let mut k: usize = 0;
    while k < col.len()
        invariant
            k <= col.len(),
            wanted@ == name@,
            forall|j: int| 0 <= j < k ==> (#[trigger] entries(col@)[j]).1 != name@,
        decreases col.len() - k,
    {
        if col[k].1 == wanted {
            assert(first_match(entries(col@), name@, k as int));
            return Ok(&col[k].0);
        }
        k += 1;
    }
    Err(Error::not_found(name))
}

/// Building a registry.
pub trait Register<F>: Sized {
    /// Adds `f` to the registry under `name`.
    fn register(&mut self, f: F, name: String);

    /// A registry without entries.
    fn new() -> Self;
}

impl<F> Register<F> for Registry<F> {
    fn register(&mut self, f: F, name: String)
        ensures
            final(self).di_ref@ == old(self).di_ref@.push((f, name)),
            final(self)@ == old(self)@.push((f, name@)),
    {
        self.di_ref.push((f, name));
        assert(self@ =~= old(self)@.push((f, name@)));
    }

    fn new() -> (r: Self)
        ensures
            r.di_ref@ == Seq::<(F, String)>::empty(),
            r@ == Seq::<(F, Seq<char>)>::empty(),
    {
        let r = Registry { di_ref: Vec::new() };
        assert(r@ =~= Seq::<(F, Seq<char>)>::empty());
        r
    }
}

impl<F> Registry<F> {
    /// Finds the step registered under `name`: the first such entry, or `NotFound`
    /// where no entry carries the name.
    pub fn lookup(&self, name: &str) -> (res: Result<&F, Error>)
        ensures
            match res {
                Ok(step) => resolves_to(self@, name@, *step),
                Err(e) => !registered(self@, name@) && e@ == (ErrorView {
                    kind: ErrorKind::NotFound,
                    message: crate::error::not_found_text(name@),
                }),
            },
    {
        let res = lookup(&self.di_ref, name);
        assert(self@ == entries(self.di_ref@));
        res
    }
}

} // verus!
