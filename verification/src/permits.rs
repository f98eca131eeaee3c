//! The bound on concurrent external-storage downloads: a semaphore of
//! the `tokio` crate, shared with the background tasks that release the
//! permits, so nothing stable can be promised of its counters.

use vstd::prelude::*;

verus! {

#[verifier::external_type_specification]
#[verifier::external_body]
pub struct ExSemaphore(tokio::sync::Semaphore);

#[verifier::external_type_specification]
#[verifier::external_body]
pub struct ExOwnedSemaphorePermit(tokio::sync::OwnedSemaphorePermit);

/// Why no permit could be had right now.
#[derive(Clone, Copy, PartialEq, Eq, Structural, Debug)]
pub enum PermitAcquireError {
    /// Every permit is taken; retry on a later tick.
    NoPermits,
    /// The semaphore was closed; permits will never return.
    Closed,
}

/// The number of permits the semaphore was created with. The live
/// count moves with the shared holders and is never named.
pub uninterp spec fn semaphore_bound(s: std::sync::Arc<tokio::sync::Semaphore>) -> int;

/// Relies on `tokio::sync::Semaphore::new` (with `std::sync::Arc::new`):
/// creates a semaphore with the given number of permits; it panics above
/// `Semaphore::MAX_PERMITS`, which is `usize::MAX >> 3`.
#[verifier::external_body]
pub(crate) fn semaphore_new(permits: usize) -> (r: std::sync::Arc<tokio::sync::Semaphore>)
    requires
        permits <= usize::MAX >> 3,
    ensures
        semaphore_bound(r) == permits,
{
    std::sync::Arc::new(tokio::sync::Semaphore::new(permits))
}

/// Relies on `tokio::sync::Semaphore::try_acquire_owned`: hands out one
/// permit without waiting when one is available, and otherwise reports
/// `NoPermits`, or `Closed` once the semaphore is closed. The semaphore
/// is shared with the tasks holding the permits, so no outcome is
/// promised.
#[verifier::external_body]
pub(crate) fn semaphore_try_acquire(sem: &std::sync::Arc<tokio::sync::Semaphore>) -> (r: Result<
    tokio::sync::OwnedSemaphorePermit,
    PermitAcquireError,
>) {
    match sem.clone().try_acquire_owned() {
        Ok(p) => Ok(p),
        Err(tokio::sync::TryAcquireError::NoPermits) => Err(PermitAcquireError::NoPermits),
        Err(tokio::sync::TryAcquireError::Closed) => Err(PermitAcquireError::Closed),
    }
}

/// Relies on `tokio::sync::Semaphore::available_permits`: the number of
/// permits available at the moment of the call; with the semaphore
/// shared, the number may change at once.
#[verifier::external_body]
pub(crate) fn semaphore_available_permits(sem: &std::sync::Arc<tokio::sync::Semaphore>) -> (r:
    usize) {
    sem.available_permits()
}

} // verus!
