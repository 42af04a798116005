//! Readiness events and their read-only accessors.

use vstd::prelude::*;

use crate::Error;
use crate::Token;

verus! {

/// A readiness report for one token, produced transiently by each wait call
/// and never persisted. At most one event per token appears in one call's
/// output; when both directions are ready, both flags are set on the same
/// event.
#[derive(Clone, Copy, PartialEq, Eq, Debug, Structural)]
pub struct Event {
    pub token: Token,
    pub is_readable: bool,
    pub is_writable: bool,
    pub is_error: bool,
}

/// The caller-owned output buffer a wait call fills.
pub type Events = Vec<Event>;

impl Event {
    /// An ordinary readiness event for `token`.
    pub fn new(token: usize, is_readable: bool, is_writable: bool) -> (r: Self)
        ensures
            r == (Event { token: Token(token), is_readable, is_writable, is_error: false }),
    {
        Self { token: Token(token), is_readable, is_writable, is_error: false }
    }

    /// An event reporting that the readiness query for `token` itself failed.
    pub fn new_error(token: usize) -> (r: Self)
        ensures
            r == (Event {
                token: Token(token),
                is_readable: false,
                is_writable: false,
                is_error: true,
            }),
    {
        Self { token: Token(token), is_readable: false, is_writable: false, is_error: true }
    }
}

pub fn token(event: &Event) -> (r: Token)
    ensures
        r == event.token,
{
    event.token
}

pub fn is_readable(event: &Event) -> (r: bool)
    ensures
        r == event.is_readable,
{
    event.is_readable
}

pub fn is_writable(event: &Event) -> (r: bool)
    ensures
        r == event.is_writable,
{
    event.is_writable
}

pub fn is_error(event: &Event) -> (r: bool)
    ensures
        r == event.is_error,
{
    event.is_error
}

/// The substrate cannot distinguish a closed read half from plain
/// readability, so this is always false.
pub fn is_read_closed(_event: &Event) -> (r: bool)
    ensures
        r == false,
{
    false
}

/// The substrate cannot distinguish a closed write half from plain
/// writability, so this is always false.
pub fn is_write_closed(_event: &Event) -> (r: bool)
    ensures
        r == false,
{
    false
}

/// Priority readiness is not modeled by the substrate; always false.
pub fn is_priority(_event: &Event) -> (r: bool)
    ensures
        r == false,
{
    false
}

/// Asynchronous I/O completion is not modeled by the substrate; always false.
pub fn is_aio(_event: &Event) -> (r: bool)
    ensures
        r == false,
{
    false
}

/// Listed I/O completion is not modeled by the substrate; always false.
pub fn is_lio(_event: &Event) -> (r: bool)
    ensures
        r == false,
{
    false
}

/// Detailed event formatting is a capability the substrate does not offer.
pub fn debug_details(_event: &Event) -> (r: Result<(), Error>)
    ensures
        r == Err::<(), Error>(Error::Unsupported),
{
    Err(Error::Unsupported)
}

} // verus!
