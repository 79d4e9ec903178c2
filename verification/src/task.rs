//! Units of work for an executor.
use vstd::prelude::*;

verus! {

/// A future to run to completion.
pub struct Task<F: std::future::Future> {
    pub fut: F,
}

} // verus!
