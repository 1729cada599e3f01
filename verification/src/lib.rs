//! A single-threaded userspace concurrency runtime core.
//!
//! The crate verifies the decision-making heart of a fiber runtime built on a
//! completion-based kernel I/O interface:
//!
//! - a fiber scheduler with structured parent/child relationships, a FIFO
//!   ready queue, parking and waking, and cooperative cancellation;
//! - the bookkeeping of a completion-based syscall bridge that maps each
//!   in-flight operation to the fiber awaiting it;
//! - a circular byte buffer with producer and consumer halves;
//! - intra-runtime synchronization (channels and notifications) built on
//!   parking and waking.
//!
//! The stack switching, memory mapping and kernel ring access that surround
//! these decisions are inherently outside what can be verified; they live in
//! a thin unverified shell that drives the state machines defined here.

use vstd::prelude::*;

pub mod circular_buffer;
pub mod cursor;
pub mod event_loop;
pub mod http;
pub mod runtime;
pub mod sync;

verus! {

/// Either an error from the operation itself, or a note that the calling
/// fiber was cancelled before or during the operation.
#[derive(Debug, PartialEq, Eq, Structural)]
pub enum Error<E> {
    /// The operation itself failed.
    Original(E),
    /// The calling fiber was cancelled.
    Cancelled,
}

impl<E> Error<E> {
    /// Apply a function to the inner error, leaving a cancellation untouched.
    pub fn map<F: FnOnce(E) -> U, U>(self, f: F) -> (r: Error<U>)
        requires
            forall|e: E| self == Error::Original(e) ==> f.requires((e,)),
        ensures
            match self {
                Error::Original(e) => (r matches Error::Original(u) && f.ensures((e,), u)),
                Error::Cancelled => r matches Error::Cancelled,
            },
    {
        match self {
            Error::Original(e) => Error::Original(f(e)),
            Error::Cancelled => Error::Cancelled,
        }
    }

    /// Chain a fallible conversion of the inner error, leaving a cancellation
    /// untouched.
    pub fn and_then<F: FnOnce(E) -> Error<U>, U>(self, f: F) -> (r: Error<U>)
        requires
            forall|e: E| self == Error::Original(e) ==> f.requires((e,)),
        ensures
            match self {
                Error::Original(e) => f.ensures((e,), r),
                Error::Cancelled => r matches Error::Cancelled,
            },
    {
        match self {
            Error::Original(e) => f(e),
            Error::Cancelled => Error::Cancelled,
        }
    }
}

} // verus!
