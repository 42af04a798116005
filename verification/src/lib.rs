//! A readiness selector for a polling-only socket substrate.
//!
//! The substrate offers no blocking wait and no notification primitive: the
//! only way to learn that a socket became readable or writable is to advance
//! the network stack by one tick and then poll each socket. This crate holds
//! the part of that design worth proving: the registration table, the
//! per-tick scan that turns raw readiness into events, the lazy removal of
//! registrations whose handle has been dropped, the deadline policy, and the
//! backoff policy that keeps a busy wait from monopolizing a core.
//!
//! The clock, the thread yield and the stack-advance call themselves cannot
//! run here; a thin driver loop owns them and feeds their outcomes into
//! [`selector::Selector::select_step`], which makes every decision.

#![verifier::loop_isolation(false)]

use vstd::prelude::*;

pub mod event;
pub mod handle;
pub mod selector;
pub mod waker;

verus! {

/// Caller-chosen identifier correlating a registration with later events.
/// Unique among currently registered entries by the caller's own discipline;
/// otherwise meaningless to the selector.
#[derive(Clone, Copy, PartialEq, Eq, Hash, Debug, Structural)]
pub struct Token(pub usize);

/// The readiness transitions a caller wants reported for a token.
#[derive(Clone, Copy, PartialEq, Eq, Debug, Structural)]
pub struct Interest {
    pub readable: bool,
    pub writable: bool,
}

impl Interest {
    /// Interest in reads alone.
    pub fn readable_only() -> (r: Interest)
        ensures
            r == (Interest { readable: true, writable: false }),
    {
        Interest { readable: true, writable: false }
    }

    /// Interest in writes alone.
    pub fn writable_only() -> (r: Interest)
        ensures
            r == (Interest { readable: false, writable: true }),
    {
        Interest { readable: false, writable: true }
    }

    /// Interest in both directions.
    pub fn both() -> (r: Interest)
        ensures
            r == (Interest { readable: true, writable: true }),
    {
        Interest { readable: true, writable: true }
    }

    pub fn is_readable(&self) -> (r: bool)
        ensures
            r == self.readable,
    {
        self.readable
    }

    pub fn is_writable(&self) -> (r: bool)
        ensures
            r == self.writable,
    {
        self.writable
    }
}

/// Everything a selector operation can fail with.
#[derive(Clone, Copy, PartialEq, Eq, Debug, Structural)]
pub enum Error {
    /// Reregistration named an unknown token, a token whose handle is gone,
    /// or a handle other than the one registered.
    InvalidInput,
    /// The wait deadline elapsed with no events ready.
    Interrupted,
    /// The transport failed while advancing the stack; carries the native
    /// error code.
    TransportError(i32),
    /// A capability the substrate does not implement.
    Unsupported,
}

} // verus!
