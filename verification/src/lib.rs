//! A resumable pipeline: named steps, composed in order over one evolving state.
//!
//! A caller fills a [`Registry`] with steps under names, resolves an ordered list of
//! names into a chain ([`Chain::create`]), and runs the chain on a [`State`]
//! ([`Orchestrate::execute`]). The state carries a completion record, so a run can be
//! taken up again later: the steps that completed before are passed over.
//!
//! A step takes a state and returns a state or an [`Error`]. The adapters in
//! [`adapter`] build steps from functions that know only the outcome. What holds of
//! every run is proved in [`laws`].

pub mod adapter;
pub mod chain;
pub mod error;
pub mod laws;
pub mod orchestrate;
pub mod registry;
pub mod state;

pub use adapter::{always, by_chance, state_function, state_function_result, state_function_value};
pub use chain::Chain;
pub use error::{Error, ErrorKind, ErrorView};
pub use orchestrate::{advance, Orchestrate};
pub use registry::{lookup, Register, Registry};
pub use state::{State, StateView};
