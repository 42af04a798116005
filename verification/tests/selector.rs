use poll_selector::Error;
use poll_selector::Interest;
use poll_selector::Token;
use poll_selector::event::Event;
use poll_selector::handle::HandleStore;
use poll_selector::selector::Selector;
use poll_selector::selector::StepResult;

fn ready_step(sel: &mut Selector, store: &HandleStore, events: &mut Vec<Event>, cap: usize) -> StepResult {
    sel.select_step(store, events, cap, Ok(()), false)
}

#[test]
fn register_then_drop_is_lazy() {
    let mut store = HandleStore::new();
    let h = store.create();
    let mut sel = Selector::new().unwrap();
    sel.register(Token(1), Interest::readable_only(), h).unwrap();
    store.drop_handle(h);
    // the handle is gone, but the table still reports the entry present:
    // removal is scan-triggered, not drop-triggered
    assert_eq!(sel.len(), 1);
    let mut events: Vec<Event> = Vec::new();
    let step = sel.select_step(&store, &mut events, 4, Ok(()), true);
    assert_eq!(step, StepResult::Failed(Error::Interrupted));
    assert_eq!(events.len(), 0);
    assert_eq!(sel.len(), 0);
}

#[test]
fn one_event_per_token_even_when_both_ready() {
    let mut store = HandleStore::new();
    let h = store.create();
    store.set_readiness(h, true, true);
    let mut sel = Selector::new().unwrap();
    sel.register(Token(3), Interest::both(), h).unwrap();
    let mut events: Vec<Event> = Vec::new();
    let step = ready_step(&mut sel, &store, &mut events, 4);
    assert_eq!(step, StepResult::Ready { extra_yield: false });
    assert_eq!(events.len(), 1);
    assert_eq!(events[0].token, Token(3));
    assert!(events[0].is_readable);
    assert!(events[0].is_writable);
    assert!(!events[0].is_error);
}

#[test]
fn reregister_identity_check() {
    let mut store = HandleStore::new();
    let a = store.create();
    let b = store.create();
    let mut sel = Selector::new().unwrap();
    sel.register(Token(9), Interest::readable_only(), a).unwrap();
    // a different handle under the same token is refused
    assert_eq!(
        sel.reregister(Token(9), Interest::both(), b, &store),
        Err(Error::InvalidInput)
    );
    // the registered handle with a new interest set succeeds
    assert_eq!(
        sel.reregister(Token(9), Interest::writable_only(), a, &store),
        Ok(())
    );
    // and the next scan applies the new interest immediately
    store.set_readiness(a, true, true);
    let mut events: Vec<Event> = Vec::new();
    ready_step(&mut sel, &store, &mut events, 4);
    assert_eq!(events.len(), 1);
    assert!(!events[0].is_readable);
    assert!(events[0].is_writable);
}

#[test]
fn reregister_unknown_token_fails() {
    let mut store = HandleStore::new();
    let a = store.create();
    let mut sel = Selector::new().unwrap();
    assert_eq!(
        sel.reregister(Token(1), Interest::both(), a, &store),
        Err(Error::InvalidInput)
    );
}

#[test]
fn reregister_dropped_handle_fails() {
    let mut store = HandleStore::new();
    let a = store.create();
    let mut sel = Selector::new().unwrap();
    sel.register(Token(2), Interest::both(), a).unwrap();
    store.drop_handle(a);
    assert_eq!(
        sel.reregister(Token(2), Interest::both(), a, &store),
        Err(Error::InvalidInput)
    );
}

#[test]
fn deregister_is_lazy() {
    let mut store = HandleStore::new();
    let h = store.create();
    let mut sel = Selector::new().unwrap();
    sel.register(Token(5), Interest::both(), h).unwrap();
    assert_eq!(sel.deregister(h), Ok(()));
    // deregister never removes a table entry synchronously
    assert_eq!(sel.len(), 1);
    // a later scan, with the handle dropped, shows the decrease
    store.drop_handle(h);
    let mut events: Vec<Event> = Vec::new();
    sel.select_step(&store, &mut events, 4, Ok(()), true);
    assert_eq!(sel.len(), 0);
}

#[test]
fn register_overwrites_same_token() {
    let mut store = HandleStore::new();
    let a = store.create();
    let b = store.create();
    store.set_readiness(b, true, false);
    let mut sel = Selector::new().unwrap();
    sel.register(Token(4), Interest::readable_only(), a).unwrap();
    sel.register(Token(4), Interest::readable_only(), b).unwrap();
    assert_eq!(sel.len(), 1);
    // events for the token now come from the replacing handle
    let mut events: Vec<Event> = Vec::new();
    ready_step(&mut sel, &store, &mut events, 4);
    assert_eq!(events.len(), 1);
    assert_eq!(events[0].token, Token(4));
    assert!(events[0].is_readable);
}

#[test]
fn capacity_bounds_one_call_second_call_returns_rest() {
    let mut store = HandleStore::new();
    let mut sel = Selector::new().unwrap();
    let mut handles = Vec::new();
    for t in 0..3usize {
        let h = store.create();
        store.set_readiness(h, true, false);
        sel.register(Token(t), Interest::readable_only(), h).unwrap();
        handles.push(h);
    }
    let mut events: Vec<Event> = Vec::new();
    let step = ready_step(&mut sel, &store, &mut events, 2);
    assert_eq!(step, StepResult::Ready { extra_yield: false });
    // three entries ready, capacity two: at most two events, in table order
    assert_eq!(events.len(), 2);
    assert_eq!(events[0].token, Token(0));
    assert_eq!(events[1].token, Token(1));
    // drain the two reported handles; the next call returns the remainder
    store.set_readiness(handles[0], false, false);
    store.set_readiness(handles[1], false, false);
    let step = ready_step(&mut sel, &store, &mut events, 2);
    assert_eq!(step, StepResult::Ready { extra_yield: false });
    assert_eq!(events.len(), 1);
    assert_eq!(events[0].token, Token(2));
}

#[test]
fn zero_capacity_never_emits_but_still_removes() {
    let mut store = HandleStore::new();
    let live = store.create();
    store.set_readiness(live, true, true);
    let dead = store.create();
    let mut sel = Selector::new().unwrap();
    sel.register(Token(0), Interest::both(), live).unwrap();
    sel.register(Token(1), Interest::both(), dead).unwrap();
    store.drop_handle(dead);
    let mut events: Vec<Event> = Vec::new();
    let step = sel.select_step(&store, &mut events, 0, Ok(()), false);
    // nothing can be reported, so the driver is told to retry...
    assert_eq!(step, StepResult::Retry);
    assert_eq!(events.len(), 0);
    // ...yet the dead entry was still removed by the visit
    assert_eq!(sel.len(), 1);
}

#[test]
fn zero_timeout_returns_interrupted_promptly() {
    let store = HandleStore::new();
    let mut sel = Selector::new().unwrap();
    let mut events: Vec<Event> = Vec::new();
    // empty table, deadline already passed: one tick settles it
    let step = sel.select_step(&store, &mut events, 4, Ok(()), true);
    assert_eq!(step, StepResult::Failed(Error::Interrupted));
}

#[test]
fn not_ready_table_with_deadline_interrupted() {
    let mut store = HandleStore::new();
    let h = store.create();
    let mut sel = Selector::new().unwrap();
    sel.register(Token(1), Interest::both(), h).unwrap();
    let mut events: Vec<Event> = Vec::new();
    let step = sel.select_step(&store, &mut events, 4, Ok(()), true);
    assert_eq!(step, StepResult::Failed(Error::Interrupted));
    assert_eq!(events.len(), 0);
}

#[test]
fn backoff_yields_after_sustained_success() {
    let mut store = HandleStore::new();
    let h = store.create();
    store.set_readiness(h, true, false);
    let mut sel = Selector::new().unwrap();
    sel.register(Token(1), Interest::readable_only(), h).unwrap();
    let mut extra_yields: Vec<bool> = Vec::new();
    for _ in 0..12 {
        let mut events: Vec<Event> = Vec::new();
        match ready_step(&mut sel, &store, &mut events, 4) {
            StepResult::Ready { extra_yield } => extra_yields.push(extra_yield),
            other => panic!("expected Ready, got {:?}", other),
        }
    }
    // ten immediately-successful ticks are tolerated; the eleventh asks for
    // one extra cooperative yield and resets, so the twelfth does not
    for (i, &ey) in extra_yields.iter().enumerate() {
        assert_eq!(ey, i == 10, "tick {}", i);
    }
}

#[test]
fn advance_failure_aborts_tick() {
    let mut store = HandleStore::new();
    let h = store.create();
    store.set_readiness(h, true, true);
    let dead = store.create();
    let mut sel = Selector::new().unwrap();
    sel.register(Token(0), Interest::both(), h).unwrap();
    sel.register(Token(1), Interest::both(), dead).unwrap();
    store.drop_handle(dead);
    let mut events: Vec<Event> = vec![Event::new(9, true, true)];
    let step = sel.select_step(&store, &mut events, 4, Err(17), false);
    assert_eq!(step, StepResult::Failed(Error::TransportError(17)));
    // the buffer is cleared, and no scan ran: even the dead entry survives
    assert_eq!(events.len(), 0);
    assert_eq!(sel.len(), 2);
}

#[test]
fn failing_query_becomes_error_event_not_call_failure() {
    let mut store = HandleStore::new();
    let bad = store.create();
    store.set_poll_ok(bad, false);
    let good = store.create();
    store.set_readiness(good, true, false);
    let mut sel = Selector::new().unwrap();
    sel.register(Token(0), Interest::both(), bad).unwrap();
    sel.register(Token(1), Interest::readable_only(), good).unwrap();
    let mut events: Vec<Event> = Vec::new();
    let step = ready_step(&mut sel, &store, &mut events, 4);
    // one failing handle does not abort delivery for the others
    assert_eq!(step, StepResult::Ready { extra_yield: false });
    assert_eq!(events.len(), 2);
    assert_eq!(events[0].token, Token(0));
    assert!(events[0].is_error);
    assert!(!events[0].is_readable);
    assert!(!events[0].is_writable);
    assert_eq!(events[1].token, Token(1));
    assert!(!events[1].is_error);
    assert!(events[1].is_readable);
}

#[test]
fn interest_masks_raw_readiness() {
    let mut store = HandleStore::new();
    let h = store.create();
    store.set_readiness(h, false, true);
    let mut sel = Selector::new().unwrap();
    sel.register(Token(2), Interest::readable_only(), h).unwrap();
    let mut events: Vec<Event> = Vec::new();
    // writable but only read interest registered: nothing to report
    let step = sel.select_step(&store, &mut events, 4, Ok(()), false);
    assert_eq!(step, StepResult::Retry);
    assert_eq!(events.len(), 0);
}
