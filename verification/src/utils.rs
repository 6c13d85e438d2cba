//! Small helpers around the library's error taxonomy.
use vstd::prelude::*;

use crate::exceptions::OrderBookException;

verus! {

/// Turns the outcome of acquiring a mutual-exclusion gate into a typed
/// error: an acquired guard passes through, an unavailable (poisoned) gate
/// becomes `LockUnavailable` rather than a silent fallback to stale data.
pub fn anyhow_mutex<T>(guard: Option<T>) -> (r: Result<T, OrderBookException>)
    ensures
        guard is Some ==> r is Ok && r->Ok_0 == guard->0,
        guard is None ==> r == Err::<T, OrderBookException>(OrderBookException::LockUnavailable),
{
    match guard {
        Some(g) => Ok(g),
        None => Err(OrderBookException::LockUnavailable),
    }
}

} // verus!
