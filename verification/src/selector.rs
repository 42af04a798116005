//! The registration table and the per-tick selection step.
//!
//! A selector is a table from tokens to (handle id, interest) pairs plus a
//! backoff counter. The wait loop is a state machine — advance the stack,
//! scan the table, then return, time out, or yield and retry — and every
//! decision of that machine lives here in [`Selector::select_step`]. The
//! advance call, the clock and the yield are the driver's; their outcomes
//! come in as plain arguments.

use vstd::prelude::*;

use crate::Error;
use crate::Interest;
use crate::Token;
use crate::event::Event;
use crate::handle::HandleState;
use crate::handle::HandleStore;
use crate::handle::handle_live;

verus! {

/// One table entry: the token, the id of the non-owning handle reference,
/// and the interest set.
#[derive(Clone, Copy, PartialEq, Eq, Debug, Structural)]
pub struct Registration {
    pub token: Token,
    pub handle: usize,
    pub interests: Interest,
}

/// How many consecutive immediately-successful ticks are tolerated before
/// the backoff policy asks for one extra cooperative yield.
pub const MAX_WAITING_TICKS: usize = 9;

/// What one call of [`Selector::select_step`] tells its driver to do next.
#[derive(Clone, Copy, PartialEq, Eq, Debug, Structural)]
pub enum StepResult {
    /// Events were delivered; the wait is over. When `extra_yield` is set
    /// the backoff policy asks the driver for one extra cooperative yield
    /// before handing control back.
    Ready { extra_yield: bool },
    /// The wait is over with an error: the advance step failed, or the
    /// deadline passed with nothing ready.
    Failed(Error),
    /// Nothing became ready and time remains: yield, then run another tick.
    Retry,
}

/// No two entries carry the same token.
pub open spec fn tokens_unique(regs: Seq<Registration>) -> bool {
    forall|i: int, j: int|
        0 <= i < j < regs.len() ==> (#[trigger] regs[i]).token != (#[trigger] regs[j]).token
}

/// Some entry carries token `t`.
pub open spec fn has_token(regs: Seq<Registration>, t: Token) -> bool {
    exists|i: int| 0 <= i < regs.len() && (#[trigger] regs[i]).token == t
}

/// The index of the entry carrying token `t`; meaningful only under
/// `has_token`, and unique under `tokens_unique`.
pub open spec fn token_index(regs: Seq<Registration>, t: Token) -> int {
    choose|i: int| 0 <= i < regs.len() && (#[trigger] regs[i]).token == t
}

/// The entries whose handle still resolves, in table order: what one scan
/// leaves behind.
pub open spec fn live_entries(regs: Seq<Registration>, store: Seq<HandleState>) -> Seq<
    Registration,
>
    decreases regs.len(),
{
    if regs.len() == 0 {
        Seq::empty()
    } else {
        let rest = live_entries(regs.subrange(1, regs.len() as int), store);
        if handle_live(store, regs[0].handle) {
            seq![regs[0]] + rest
        } else {
            rest
        }
    }
}

/// The events one scan emits, in table order, with `room` output slots
/// left. A dead entry emits nothing; once no room is left, live entries are
/// still visited (for removal bookkeeping) but no readiness query is
/// issued; a failing query emits an error event; a successful query emits
/// an event exactly when the interest-masked readiness is non-empty.
pub open spec fn scan_events(
    regs: Seq<Registration>,
    store: Seq<HandleState>,
    room: int,
) -> Seq<Event>
    decreases regs.len(),
{
    if regs.len() == 0 {
        Seq::empty()
    } else {
        let e = regs[0];
        let rest = regs.subrange(1, regs.len() as int);
        if !handle_live(store, e.handle) {
            scan_events(rest, store, room)
        } else if room <= 0 {
            scan_events(rest, store, room)
        } else if !store[e.handle as int].poll_ok {
            seq![
                (Event { token: e.token, is_readable: false, is_writable: false, is_error: true }),
            ] + scan_events(rest, store, room - 1)
        } else {
            let readable = e.interests.readable && store[e.handle as int].readable;
            let writable = e.interests.writable && store[e.handle as int].writable;
            if readable || writable {
                seq![
                    (Event {
                        token: e.token,
                        is_readable: readable,
                        is_writable: writable,
                        is_error: false,
                    }),
                ] + scan_events(rest, store, room - 1)
            } else {
                scan_events(rest, store, room)
            }
        }
    }
}

/// The retry path's counter increment, wrapping at the integer's limit so
/// an arbitrarily long spin cannot overflow it.
pub open spec fn bump(w: usize) -> usize {
    if w == usize::MAX {
        0
    } else {
        (w + 1) as usize
    }
}

/// The registration table and the backoff counter of one selector.
pub struct Selector {
    entries: Vec<Registration>,
    waiting: usize,
}

impl Selector {
    /// The table as a sequence of entries in scan order.
    pub closed spec fn regs(self) -> Seq<Registration> {
        self.entries@
    }

    /// The backoff counter of consecutive ticks.
    pub closed spec fn backoff(self) -> usize {
        self.waiting
    }

    /// Table well-formedness: at most one entry per token.
    pub open spec fn wf(self) -> bool {
        tokens_unique(self.regs())
    }

    /// A fresh selector: empty table, backoff counter at zero. Creation
    /// cannot fail on this substrate; the `Result` mirrors selectors that
    /// need an OS resource.
    pub fn new() -> (r: Result<Selector, Error>)
        ensures
            r matches Ok(s) && s.regs() == Seq::<Registration>::empty() && s.backoff() == 0
                && s.wf(),
    {
        Ok(Selector { entries: Vec::new(), waiting: 0 })
    }

    /// How many entries the table currently holds, dead handles included:
    /// only a scan removes entries.
    pub fn len(&self) -> (r: usize)
        ensures
            r == self.regs().len(),
    {
        self.entries.len()
    }

    /// Inserts or silently overwrites the entry for `token` with a fresh
    /// handle reference and interest set. Never fails: tokens are
    /// caller-managed, so no pre-existing-token check is made. The handle
    /// store is not consulted — registering neither checks nor affects
    /// handle liveness.
    pub fn register(&mut self, token: Token, interests: Interest, handle: usize) -> (r: Result<
        (),
        Error,
    >)
        requires
            old(self).wf(),
        ensures
            final(self).wf(),
            r == Ok::<(), Error>(()),
            final(self).backoff() == old(self).backoff(),
            ({
                let prior = old(self).regs();
                let reg = Registration { token, handle, interests };
                if has_token(prior, token) {
                    final(self).regs() == prior.update(token_index(prior, token), reg)
                } else {
                    final(self).regs() == prior.push(reg)
                }
            }),
    {
        let reg = Registration { token, handle, interests };
        let n = self.entries.len();
        let mut i: usize = 0;
        while i < n
            invariant
                i <= n,
                n == self.entries@.len(),
                self.entries@ == old(self).regs(),
                self.waiting == old(self).backoff(),
                forall|k: int| 0 <= k < i ==> (#[trigger] self.entries@[k]).token != token,
            decreases n - i,
        {
            if self.entries[i].token == token {
                proof {
                    lemma_token_index_is(old(self).regs(), token, i as int);
                }
                self.entries[i] = reg;
                proof {
                    assert forall|k: int| 0 <= k < old(self).regs().len() implies (
                    #[trigger] self.entries@[k]).token == old(self).regs()[k].token by {}
                    lemma_same_tokens_unique(old(self).regs(), self.entries@);
                }
                return Ok(());
            }
            i += 1;
        }
        self.entries.push(reg);
        proof {
            let prior = old(self).regs();
            assert(!has_token(prior, token));
            assert forall|a: int, b: int| 0 <= a < b < self.entries@.len() implies (
            #[trigger] self.entries@[a]).token != (#[trigger] self.entries@[b]).token by {
                if b < prior.len() {
                    assert(prior[a].token != prior[b].token);
                } else {
                    assert(self.entries@[a] == prior[a]);
                }
            }
        }
        Ok(())
    }

    /// Replaces only the interest set of `token`'s entry, and only when the
    /// presented handle is the registered one: it fails with
    /// [`Error::InvalidInput`] when the token is absent, when the stored
    /// handle reference no longer resolves, or when it resolves to a handle
    /// other than `handle`. The identity check stops a token's events from
    /// being silently redirected to an unrelated resource.
    pub fn reregister(
        &mut self,
        token: Token,
        interests: Interest,
        handle: usize,
        store: &HandleStore,
    ) -> (r: Result<(), Error>)
        requires
            old(self).wf(),
        ensures
            final(self).wf(),
            final(self).backoff() == old(self).backoff(),
            ({
                let prior = old(self).regs();
                if has_token(prior, token) && handle_live(
                    store@,
                    prior[token_index(prior, token)].handle,
                ) && prior[token_index(prior, token)].handle == handle {
                    r == Ok::<(), Error>(()) && final(self).regs() == prior.update(
                        token_index(prior, token),
                        (Registration { token, handle, interests }),
                    )
                } else {
                    r == Err::<(), Error>(Error::InvalidInput) && final(self).regs() == prior
                }
            }),
    {
        let n = self.entries.len();
        let mut i: usize = 0;
        while i < n
            invariant
                i <= n,
                n == self.entries@.len(),
                self.entries@ == old(self).regs(),
                self.waiting == old(self).backoff(),
                forall|k: int| 0 <= k < i ==> (#[trigger] self.entries@[k]).token != token,
            decreases n - i,
        {
            if self.entries[i].token == token {
                proof {
                    lemma_token_index_is(old(self).regs(), token, i as int);
                }
                let e = self.entries[i];
                if store.is_alive(e.handle) && e.handle == handle {
                    self.entries[i] = Registration { token, handle, interests };
                    proof {
                        assert forall|k: int| 0 <= k < old(self).regs().len() implies (
                        #[trigger] self.entries@[k]).token == old(self).regs()[k].token by {}
                        lemma_same_tokens_unique(old(self).regs(), self.entries@);
                    }
                    return Ok(());
                }
                return Err(Error::InvalidInput);
            }
            i += 1;
        }
        proof {
            assert(!has_token(old(self).regs(), token));
        }
        Err(Error::InvalidInput)
    }

    /// Always succeeds and mutates nothing: actual removal happens lazily,
    /// inside a later scan, once the handle has stopped resolving. This
    /// spares the caller from knowing the token and avoids racing an
    /// in-flight scan. The shared-reference receiver makes the no-mutation
    /// promise structural.
    pub fn deregister(&self, _handle: usize) -> (r: Result<(), Error>)
        ensures
            r == Ok::<(), Error>(()),
    {
        Ok(())
    }

    /// Registering a cross-thread wake mechanism is a capability this
    /// substrate does not implement: an in-flight wait can only end through
    /// events or its deadline.
    pub fn register_waker(&self) -> (r: Result<bool, Error>)
        ensures
            r == Err::<bool, Error>(Error::Unsupported),
    {
        Err(Error::Unsupported)
    }

    /// One tick of the wait state machine. The driver advances the stack,
    /// reads the clock, and passes both outcomes in; this function does
    /// everything else and says what to do next.
    ///
    /// The output buffer is cleared, then — if the advance succeeded — the
    /// whole table is scanned in order: entries whose handle no longer
    /// resolves are removed (the only deregistration path), and live
    /// entries are queried while at most `capacity` events have been
    /// emitted, error events included. A failed advance aborts the tick
    /// with [`Error::TransportError`] before any scan, so not even lazy
    /// removal happens then. With events in hand the tick reports
    /// [`StepResult::Ready`], applying the backoff policy: the counter of
    /// consecutive ticks is bumped, and once it has passed
    /// [`MAX_WAITING_TICKS`] it resets and one extra yield is requested.
    /// With nothing found, a passed deadline means [`Error::Interrupted`];
    /// otherwise the driver should yield and retry, and the counter is
    /// bumped (wrapping) on the way.
    pub fn select_step(
        &mut self,
        store: &HandleStore,
        events: &mut Vec<Event>,
        capacity: usize,
        advance: Result<(), i32>,
        deadline_reached: bool,
    ) -> (r: StepResult)
        requires
            old(self).wf(),
        ensures
            final(self).wf(),
            advance matches Err(code) ==> r == StepResult::Failed(Error::TransportError(code))
                && final(self).regs() == old(self).regs() && final(self).backoff() == old(
                self,
            ).backoff() && final(events)@ == Seq::<Event>::empty(),
            advance is Ok ==> final(self).regs() == live_entries(old(self).regs(), store@)
                && final(events)@ == scan_events(old(self).regs(), store@, capacity as int)
                && final(events)@.len() <= capacity && (if final(events)@.len() > 0 {
                r == (StepResult::Ready { extra_yield: old(self).backoff() > MAX_WAITING_TICKS })
                    && final(self).backoff() == (if old(self).backoff() > MAX_WAITING_TICKS {
                    0
                } else {
                    (old(self).backoff() + 1) as usize
                })
            } else if deadline_reached {
                r == StepResult::Failed(Error::Interrupted) && final(self).backoff() == old(
                    self,
                ).backoff()
            } else {
                r == StepResult::Retry && final(self).backoff() == bump(old(self).backoff())
            }),
    {
        events.clear();
        if let Err(code) = advance {
            return StepResult::Failed(Error::TransportError(code));
        }
        let ghost regs0 = self.entries@;
        let ghost storev = store@;
        let mut kept: Vec<Registration> = Vec::new();
        let n = self.entries.len();
        let mut i: usize = 0;
        proof {
            assert(regs0.subrange(0, n as int) =~= regs0);
            assert(kept@ + live_entries(regs0, storev) =~= live_entries(regs0, storev));
            assert(events@ + scan_events(regs0, storev, capacity as int) =~= scan_events(
                regs0,
                storev,
                capacity as int,
            ));
        }
        while i < n
            invariant
                i <= n,
                events@.len() <= capacity,
                live_entries(regs0, storev) == kept@ + live_entries(
                    regs0.subrange(i as int, n as int),
                    storev,
                ),
                scan_events(regs0, storev, capacity as int) == events@ + scan_events(
                    regs0.subrange(i as int, n as int),
                    storev,
                    capacity - events@.len(),
                ),
            decreases n - i,
        {
            let ghost pre_events = events@;
            let ghost pre_kept = kept@;
            let ghost suffix = regs0.subrange(i as int, n as int);
            let ghost suffix2 = regs0.subrange(i as int + 1, n as int);
            proof {
                assert(suffix[0] == regs0[i as int]);
                assert(suffix.subrange(1, suffix.len() as int) =~= suffix2);
            }
            let e = self.entries[i];
            if store.is_alive(e.handle) {
                kept.push(e);
                if events.len() < capacity {
                    let hs = store.get(e.handle);
                    if !hs.poll_ok {
                        events.push(Event::new_error(e.token.0));
                    } else {
                        let readable = e.interests.readable && hs.readable;
                        let writable = e.interests.writable && hs.writable;
                        if readable || writable {
                            events.push(Event::new(e.token.0, readable, writable));
                        }
                    }
                }
            }
            proof {
                let es = regs0[i as int];
                let room = capacity - pre_events.len();
                if !handle_live(storev, es.handle) {
                    assert(scan_events(suffix, storev, room) == scan_events(
                        suffix2,
                        storev,
                        room,
                    ));
                    assert(live_entries(suffix, storev) == live_entries(suffix2, storev));
                } else {
                    assert(live_entries(suffix, storev) == seq![es] + live_entries(
                        suffix2,
                        storev,
                    ));
                    assert(pre_kept + live_entries(suffix, storev) =~= kept@ + live_entries(
                        suffix2,
                        storev,
                    ));
                    if room <= 0 {
                        assert(scan_events(suffix, storev, room) == scan_events(
                            suffix2,
                            storev,
                            room,
                        ));
                    } else if !storev[es.handle as int].poll_ok {
                        assert(pre_events + scan_events(suffix, storev, room) =~= events@
                            + scan_events(suffix2, storev, room - 1));
                    } else {
                        let readable = es.interests.readable && storev[es.handle as int].readable;
                        let writable = es.interests.writable && storev[es.handle as int].writable;
                        if readable || writable {
                            assert(pre_events + scan_events(suffix, storev, room) =~= events@
                                + scan_events(suffix2, storev, room - 1));
                        } else {
                            assert(scan_events(suffix, storev, room) == scan_events(
                                suffix2,
                                storev,
                                room,
                            ));
                        }
                    }
                }
            }
            i += 1;
        }
        proof {
            assert(regs0.subrange(n as int, n as int) =~= Seq::<Registration>::empty());
            assert(live_entries(regs0, storev) =~= kept@);
            assert(scan_events(regs0, storev, capacity as int) =~= events@);
            lemma_live_entries_unique(regs0, storev);
        }
        self.entries = kept;
        if events.len() > 0 {
            let w = self.waiting;
            if w > MAX_WAITING_TICKS {
                self.waiting = 0;
                StepResult::Ready { extra_yield: true }
            } else {
                self.waiting = w + 1;
                StepResult::Ready { extra_yield: false }
            }
        } else if deadline_reached {
            StepResult::Failed(Error::Interrupted)
        } else {
            if self.waiting == usize::MAX {
                self.waiting = 0;
            } else {
                self.waiting = self.waiting + 1;
            }
            StepResult::Retry
        }
    }
}

/// The tail of a well-formed table is well formed.
proof fn lemma_tokens_unique_tail(regs: Seq<Registration>)
    requires
        tokens_unique(regs),
        regs.len() > 0,
    ensures
        tokens_unique(regs.subrange(1, regs.len() as int)),
{
    let rest = regs.subrange(1, regs.len() as int);
    assert forall|i: int, j: int| 0 <= i < j < rest.len() implies (#[trigger] rest[i]).token != (
    #[trigger] rest[j]).token by {
        assert(rest[i] == regs[i + 1]);
        assert(rest[j] == regs[j + 1]);
    }
}

/// The origin of a kept entry: the index in the scanned table of the entry
/// that position `k` of the scan's survivors came from. Its handle still
/// resolves — the scan invents nothing and keeps nothing dead.
pub proof fn lemma_live_entries_origin(
    regs: Seq<Registration>,
    store: Seq<HandleState>,
    k: int,
) -> (j: int)
    requires
        0 <= k < live_entries(regs, store).len(),
    ensures
        0 <= j < regs.len(),
        regs[j] == live_entries(regs, store)[k],
        handle_live(store, regs[j].handle),
    decreases regs.len(),
{
    let rest = regs.subrange(1, regs.len() as int);
    if handle_live(store, regs[0].handle) {
        if k == 0 {
            0
        } else {
            let j = lemma_live_entries_origin(rest, store, k - 1);
            assert(rest[j] == regs[j + 1]);
            j + 1
        }
    } else {
        let j = lemma_live_entries_origin(rest, store, k);
        assert(rest[j] == regs[j + 1]);
        j + 1
    }
}

/// A scan never conflates registrations: the surviving entries still carry
/// pairwise distinct tokens.
pub proof fn lemma_live_entries_unique(regs: Seq<Registration>, store: Seq<HandleState>)
    requires
        tokens_unique(regs),
    ensures
        tokens_unique(live_entries(regs, store)),
    decreases regs.len(),
{
    if regs.len() > 0 {
        let rest = regs.subrange(1, regs.len() as int);
        lemma_tokens_unique_tail(regs);
        lemma_live_entries_unique(rest, store);
        let l = live_entries(regs, store);
        let lrest = live_entries(rest, store);
        assert forall|a: int, b: int| 0 <= a < b < l.len() implies (#[trigger] l[a]).token != (
        #[trigger] l[b]).token by {
            if handle_live(store, regs[0].handle) {
                assert(l[b] == lrest[b - 1]);
                if a == 0 {
                    let j = lemma_live_entries_origin(rest, store, b - 1);
                    assert(rest[j] == regs[j + 1]);
                    assert(regs[0].token != regs[j + 1].token);
                } else {
                    assert(l[a] == lrest[a - 1]);
                    assert(lrest[a - 1].token != lrest[b - 1].token);
                }
            } else {
                assert(l[a] == lrest[a] && l[b] == lrest[b]);
            }
        }
    }
}

/// A registration whose handle still resolves survives the scan: its token
/// is still in the table afterwards. Only death removes an entry.
pub proof fn lemma_live_entries_keeps(regs: Seq<Registration>, store: Seq<HandleState>, j: int)
    requires
        0 <= j < regs.len(),
        handle_live(store, regs[j].handle),
    ensures
        has_token(live_entries(regs, store), regs[j].token),
    decreases regs.len(),
{
    let rest = regs.subrange(1, regs.len() as int);
    let l = live_entries(regs, store);
    let lrest = live_entries(rest, store);
    if j == 0 {
        assert(l[0] == regs[0]);
        assert(has_token(l, regs[0].token));
    } else {
        assert(rest[j - 1] == regs[j]);
        lemma_live_entries_keeps(rest, store, j - 1);
        let k = choose|i: int| 0 <= i < lrest.len() && (#[trigger] lrest[i]).token
            == regs[j].token;
        if handle_live(store, regs[0].handle) {
            assert(l[k + 1] == lrest[k]);
        } else {
            assert(l[k] == lrest[k]);
        }
        assert(has_token(l, regs[j].token));
    }
}

/// A registration whose handle no longer resolves is gone once a scan has
/// visited the table: lazy removal is scan-triggered, and the scan misses
/// none of the dead.
pub proof fn lemma_live_entries_drops_dead(
    regs: Seq<Registration>,
    store: Seq<HandleState>,
    t: Token,
)
    requires
        tokens_unique(regs),
        has_token(regs, t),
        !handle_live(store, regs[token_index(regs, t)].handle),
    ensures
        !has_token(live_entries(regs, store), t),
{
    let l = live_entries(regs, store);
    if has_token(l, t) {
        let k = choose|i: int| 0 <= i < l.len() && (#[trigger] l[i]).token == t;
        let j = lemma_live_entries_origin(regs, store, k);
        lemma_token_index_is(regs, t, j);
        assert(false);
    }
}

/// The origin of an emitted event: the index in the scanned table of the
/// registration whose token event `k` carries. Every event answers to some
/// registered token.
pub proof fn lemma_scan_events_origin(
    regs: Seq<Registration>,
    store: Seq<HandleState>,
    room: int,
    k: int,
) -> (j: int)
    requires
        0 <= k < scan_events(regs, store, room).len(),
    ensures
        0 <= j < regs.len(),
        scan_events(regs, store, room)[k].token == regs[j].token,
    decreases regs.len(),
{
    let e = regs[0];
    let rest = regs.subrange(1, regs.len() as int);
    if !handle_live(store, e.handle) || room <= 0 {
        let j = lemma_scan_events_origin(rest, store, room, k);
        assert(rest[j] == regs[j + 1]);
        j + 1
    } else if !store[e.handle as int].poll_ok {
        if k == 0 {
            0
        } else {
            let j = lemma_scan_events_origin(rest, store, room - 1, k - 1);
            assert(rest[j] == regs[j + 1]);
            j + 1
        }
    } else {
        let readable = e.interests.readable && store[e.handle as int].readable;
        let writable = e.interests.writable && store[e.handle as int].writable;
        if readable || writable {
            if k == 0 {
                0
            } else {
                let j = lemma_scan_events_origin(rest, store, room - 1, k - 1);
                assert(rest[j] == regs[j + 1]);
                j + 1
            }
        } else {
            let j = lemma_scan_events_origin(rest, store, room, k);
            assert(rest[j] == regs[j + 1]);
            j + 1
        }
    }
}

/// At most one event per token in a single scan's output, even when both
/// directions are ready: readable and writable land as two flags on the
/// same event, never as two events.
pub proof fn lemma_scan_events_token_unique(
    regs: Seq<Registration>,
    store: Seq<HandleState>,
    room: int,
)
    requires
        tokens_unique(regs),
    ensures
        forall|a: int, b: int|
            0 <= a < b < scan_events(regs, store, room).len() ==> (#[trigger] scan_events(
                regs,
                store,
                room,
            )[a]).token != (#[trigger] scan_events(regs, store, room)[b]).token,
    decreases regs.len(),
{
    if regs.len() > 0 {
        let rest = regs.subrange(1, regs.len() as int);
        lemma_tokens_unique_tail(regs);
        lemma_scan_events_token_unique(rest, store, room);
        lemma_scan_events_token_unique(rest, store, room - 1);
        let s = scan_events(regs, store, room);
        assert forall|a: int, b: int| 0 <= a < b < s.len() implies (#[trigger] s[a]).token != (
        #[trigger] s[b]).token by {
            if s != scan_events(rest, store, room) {
                let tail = scan_events(rest, store, room - 1);
                if a == 0 {
                    assert(s[b] == tail[b - 1]);
                    let j = lemma_scan_events_origin(rest, store, room - 1, b - 1);
                    assert(rest[j] == regs[j + 1]);
                    assert(regs[0].token != regs[j + 1].token);
                } else {
                    assert(s[a] == tail[a - 1] && s[b] == tail[b - 1]);
                    assert(tail[a - 1].token != tail[b - 1].token);
                }
            }
        }
    }
}

/// One scan emits at most as many events as it has room for: the output
/// buffer's capacity is respected, error events included.
pub proof fn lemma_scan_events_len(regs: Seq<Registration>, store: Seq<HandleState>, room: int)
    ensures
        scan_events(regs, store, room).len() <= (if room < 0 {
            0
        } else {
            room
        }),
    decreases regs.len(),
{
    if regs.len() > 0 {
        let rest = regs.subrange(1, regs.len() as int);
        lemma_scan_events_len(rest, store, room);
        lemma_scan_events_len(rest, store, room - 1);
    }
}


/// Two tables whose entries carry the same tokens position by position are
/// equally well formed.
proof fn lemma_same_tokens_unique(a: Seq<Registration>, b: Seq<Registration>)
    requires
        tokens_unique(a),
        a.len() == b.len(),
        forall|i: int| 0 <= i < a.len() ==> (#[trigger] b[i]).token == a[i].token,
    ensures
        tokens_unique(b),
{
    assert forall|i: int, j: int| 0 <= i < j < b.len() implies (#[trigger] b[i]).token != (
    #[trigger] b[j]).token by {
        assert(a[i].token != a[j].token);
    }
}

/// Under unique tokens, the entry found at `i` is the one `token_index`
/// names.
proof fn lemma_token_index_is(regs: Seq<Registration>, t: Token, i: int)
    requires
        tokens_unique(regs),
        0 <= i < regs.len(),
        regs[i].token == t,
    ensures
        has_token(regs, t),
        token_index(regs, t) == i,
{
    assert(has_token(regs, t));
    let j = token_index(regs, t);
    assert(0 <= j < regs.len() && regs[j].token == t);
    if j < i {
        assert(regs[j].token != regs[i].token);
    } else if i < j {
        assert(regs[i].token != regs[j].token);
    }
}

} // verus!
