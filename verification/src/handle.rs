//! A plain-value model of the pollable handles the selector observes.
//!
//! The selector never owns a socket: it keeps a non-owning reference and, at
//! every scan, asks whether the handle still resolves and what its current
//! readiness is. [`HandleStore`] holds exactly that observable surface as
//! plain values — one [`HandleState`] per handle id, never removed, only
//! marked dead once the owner drops its last strong reference. A driver
//! mirrors the real sockets into a store before each scan; tests set the
//! states directly.

use vstd::prelude::*;

verus! {

/// What one readiness scan can learn about a handle: whether the owning
/// reference still resolves, what the last poll reported, and whether the
/// poll itself succeeds.
#[derive(Clone, Copy, PartialEq, Eq, Debug, Structural)]
pub struct HandleState {
    /// The owner still holds a strong reference; a dead handle no longer
    /// resolves and its registration is removed lazily by the next scan.
    pub alive: bool,
    /// The readiness query would report the handle readable.
    pub readable: bool,
    /// The readiness query would report the handle writable.
    pub writable: bool,
    /// The readiness query itself succeeds; when false the scan reports an
    /// error event for the handle's token instead of readiness.
    pub poll_ok: bool,
}

/// The set of handles a selector can observe, indexed by the id that
/// [`HandleStore::create`] returned. Ids are never reused: dropping a handle
/// marks it dead in place.
pub struct HandleStore {
    handles: Vec<HandleState>,
}

impl View for HandleStore {
    type V = Seq<HandleState>;

    closed spec fn view(&self) -> Seq<HandleState> {
        self.handles@
    }
}

/// A handle id resolves only while it names a live entry of the store.
pub open spec fn handle_live(store: Seq<HandleState>, h: usize) -> bool {
    h < store.len() && store[h as int].alive
}

impl HandleStore {
    /// An empty store: no handle id resolves.
    pub fn new() -> (r: Self)
        ensures
            r@ == Seq::<HandleState>::empty(),
    {
        HandleStore { handles: Vec::new() }
    }

    pub fn len(&self) -> (r: usize)
        ensures
            r == self@.len(),
    {
        self.handles.len()
    }

    /// Brings a new handle into existence: alive, not ready in either
    /// direction, with a working readiness query. Returns its id.
    pub fn create(&mut self) -> (h: usize)
        ensures
            h == old(self)@.len(),
            final(self)@ == old(self)@.push(
                HandleState { alive: true, readable: false, writable: false, poll_ok: true },
            ),
    {
        let h = self.handles.len();
        self.handles.push(
            HandleState { alive: true, readable: false, writable: false, poll_ok: true },
        );
        h
    }

    /// The owner drops its last strong reference: the handle stops
    /// resolving, and nothing else about the store changes. In particular no
    /// registration table is touched — removal is the next scan's job.
    pub fn drop_handle(&mut self, h: usize)
        requires
            h < old(self)@.len(),
        ensures
            final(self)@ == old(self)@.update(
                h as int,
                (HandleState {
                    alive: false,
                    readable: old(self)@[h as int].readable,
                    writable: old(self)@[h as int].writable,
                    poll_ok: old(self)@[h as int].poll_ok,
                }),
            ),
    {
        let s = self.handles[h];
        self.handles[h] = HandleState {
            alive: false,
            readable: s.readable,
            writable: s.writable,
            poll_ok: s.poll_ok,
        };
    }

    /// Records what the substrate's last tick made of this handle's
    /// readiness; this is how an advance step becomes visible to the scan.
    pub fn set_readiness(&mut self, h: usize, readable: bool, writable: bool)
        requires
            h < old(self)@.len(),
        ensures
            final(self)@ == old(self)@.update(
                h as int,
                (HandleState {
                    alive: old(self)@[h as int].alive,
                    readable,
                    writable,
                    poll_ok: old(self)@[h as int].poll_ok,
                }),
            ),
    {
        let s = self.handles[h];
        self.handles[h] = HandleState {
            alive: s.alive,
            readable,
            writable,
            poll_ok: s.poll_ok,
        };
    }

    /// Records whether the readiness query for this handle succeeds.
    pub fn set_poll_ok(&mut self, h: usize, poll_ok: bool)
        requires
            h < old(self)@.len(),
        ensures
            final(self)@ == old(self)@.update(
                h as int,
                (HandleState {
                    alive: old(self)@[h as int].alive,
                    readable: old(self)@[h as int].readable,
                    writable: old(self)@[h as int].writable,
                    poll_ok,
                }),
            ),
    {
        let s = self.handles[h];
        self.handles[h] = HandleState {
            alive: s.alive,
            readable: s.readable,
            writable: s.writable,
            poll_ok,
        };
    }

    /// The full observable state of handle `h`, as one readiness query
    /// would see it.
    pub fn get(&self, h: usize) -> (r: HandleState)
        requires
            h < self@.len(),
        ensures
            r == self@[h as int],
    {
        self.handles[h]
    }

    /// Whether `h` still resolves; total, so a never-issued id simply does
    /// not resolve.
    pub fn is_alive(&self, h: usize) -> (r: bool)
        ensures
            r == handle_live(self@, h),
    {
        h < self.handles.len() && self.handles[h].alive
    }
}

} // verus!
