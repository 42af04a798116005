//! The cross-thread wake primitive. On this substrate it is deliberately a
//! no-op: a blocked wait can only be interrupted by its own deadline.

use vstd::prelude::*;

use crate::Error;
use crate::Token;
use crate::selector::Selector;

verus! {

/// A wake handle tied to a selector and token. Waking is a no-op here, so it
/// carries no state.
#[derive(Debug)]
pub struct Waker {}

impl Waker {
    /// Creating a waker always succeeds and registers nothing.
    pub fn new(_selector: &Selector, _token: Token) -> (r: Result<Waker, Error>)
        ensures
            r is Ok,
    {
        Ok(Waker {})
    }

    /// Waking always succeeds and wakes nothing: a wait on this substrate
    /// returns only when events fire or its deadline passes.
    pub fn wake(&self) -> (r: Result<(), Error>)
        ensures
            r == Ok::<(), Error>(()),
    {
        Ok(())
    }
}

} // verus!
