//! A verification queue: items enter in arbitrary order, are checked by a
//! pool of workers, and leave for the chain in exactly the order they were
//! accepted, minus the items that turned out to be invalid.

pub mod config;
pub mod item;
pub mod laws;
pub mod lemmas;
pub mod model;
pub mod order;
pub mod queue;

use vstd::prelude::*;

verus! {

/// Relies on `num_cpus::get`: the number of logical CPUs of the running
/// machine, documented to be at least one.
#[verifier::external_body]
pub(crate) fn logical_cpus() -> (n: usize)
    ensures
        n >= 1,
{
    num_cpus::get()
}

} // verus!
