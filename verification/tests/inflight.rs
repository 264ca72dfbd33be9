use std::sync::Arc;

use gw2api_http::{CacheKey, Guard, Inflight, Outcome, Reception, Ticket, ValueKind};

fn key(id: u64) -> CacheKey {
    CacheKey { endpoint: 1, kind: ValueKind::Item, id, language: None }
}

fn claim(registry: &mut Inflight<u8>, id: u64) -> Guard {
    match registry.check(key(id)) {
        Outcome::Claim(guard) => guard,
        other => panic!("a claim was expected, not {:?}", other),
    }
}

fn join(registry: &mut Inflight<u8>, id: u64) -> Ticket {
    match registry.check(key(id)) {
        Outcome::JoinExisting(ticket) => ticket,
        other => panic!("a ticket was expected, not {:?}", other),
    }
}

fn ready(reception: Reception<u8>) -> u8 {
    match reception {
        Reception::Ready(value) => *value,
        _ => panic!("a value was expected"),
    }
}

#[test]
fn first_caller_claims_later_callers_join() {
    let mut registry: Inflight<u8> = Inflight::new();
    let guard = claim(&mut registry, 1);
    assert_eq!(guard, Guard { index: 0, key: key(1) });
    assert_eq!(join(&mut registry, 1), Ticket { index: 0 });
    assert_eq!(join(&mut registry, 1), Ticket { index: 0 });
    let other = claim(&mut registry, 2);
    assert_eq!(other, Guard { index: 1, key: key(2) });
}

#[test]
fn published_value_reaches_each_ticket_once() {
    let mut registry: Inflight<u8> = Inflight::new();
    let guard = claim(&mut registry, 1);
    let first = join(&mut registry, 1);
    let second = join(&mut registry, 1);
    let first = match registry.receive(first) {
        Reception::Pending(ticket) => ticket,
        _ => panic!("the producer is still at work"),
    };
    assert_eq!(registry.publish(guard, Arc::new(42)), 2);
    assert_eq!(ready(registry.receive(first)), 42);
    assert_eq!(ready(registry.receive(second)), 42);
    assert!(matches!(registry.receive(Ticket { index: 0 }), Reception::Closed));
}

#[test]
fn released_guard_closes_the_channel() {
    let mut registry: Inflight<u8> = Inflight::new();
    let guard = claim(&mut registry, 1);
    let ticket = join(&mut registry, 1);
    registry.release(guard);
    assert!(matches!(registry.receive(ticket), Reception::Closed));
}

#[test]
fn stale_key_says_retry_until_removed() {
    let mut registry: Inflight<u8> = Inflight::new();
    let guard = claim(&mut registry, 1);
    registry.release(guard);
    assert_eq!(registry.check(key(1)), Outcome::Retry);
    assert_eq!(registry.check(key(1)), Outcome::Retry);
    registry.remove(&key(1));
    let again = claim(&mut registry, 1);
    assert_eq!(again.index, 0);
    assert_eq!(registry.publish(again, Arc::new(1)), 0);
    assert_eq!(registry.check(key(1)), Outcome::Retry);
}

#[test]
fn removal_spares_a_producer_at_work() {
    let mut registry: Inflight<u8> = Inflight::new();
    let guard = claim(&mut registry, 1);
    registry.remove(&key(1));
    let ticket = join(&mut registry, 1);
    assert_eq!(registry.publish(guard, Arc::new(5)), 1);
    assert_eq!(ready(registry.receive(ticket)), 5);
}

#[test]
fn value_outlives_the_removal_of_its_key() {
    let mut registry: Inflight<u8> = Inflight::new();
    let guard = claim(&mut registry, 1);
    let ticket = join(&mut registry, 1);
    registry.publish(guard, Arc::new(5));
    registry.remove(&key(1));
    let next = claim(&mut registry, 1);
    assert_eq!(next.index, 1);
    let late = join(&mut registry, 1);
    assert_eq!(late, Ticket { index: 1 });
    assert_eq!(ready(registry.receive(ticket)), 5);
    registry.publish(next, Arc::new(6));
    assert_eq!(ready(registry.receive(late)), 6);
}

#[test]
fn freed_slots_are_used_again() {
    let mut registry: Inflight<u8> = Inflight::new();
    let a = claim(&mut registry, 1);
    let b = claim(&mut registry, 2);
    let c = claim(&mut registry, 3);
    assert_eq!((a.index, b.index, c.index), (0, 1, 2));
    registry.release(b);
    registry.remove(&key(2));
    assert_eq!(claim(&mut registry, 4).index, 1);
    assert_eq!(claim(&mut registry, 5).index, 3);
}

#[test]
fn cancelled_ticket_is_not_counted() {
    let mut registry: Inflight<u8> = Inflight::new();
    let guard = claim(&mut registry, 1);
    let first = join(&mut registry, 1);
    let second = join(&mut registry, 1);
    registry.cancel(first);
    assert_eq!(registry.publish(guard, Arc::new(9)), 1);
    assert_eq!(ready(registry.receive(second)), 9);
    registry.cancel(Ticket { index: 7 });
    registry.cancel(Ticket { index: 0 });
    registry.remove(&key(1));
    assert_eq!(claim(&mut registry, 1).index, 0);
}

#[test]
fn void_handles_change_nothing() {
    let mut registry: Inflight<u8> = Inflight::new();
    assert!(matches!(registry.receive(Ticket { index: 0 }), Reception::Closed));
    assert_eq!(registry.publish(Guard { index: 0, key: key(1) }, Arc::new(1)), 0);
    let guard = claim(&mut registry, 1);
    assert_eq!(registry.publish(Guard { index: 0, key: key(2) }, Arc::new(1)), 0);
    registry.release(Guard { index: 5, key: key(1) });
    assert!(matches!(registry.receive(Ticket { index: 0 }), Reception::Closed));
    let ticket = join(&mut registry, 1);
    assert_eq!(registry.publish(guard, Arc::new(3)), 1);
    assert_eq!(ready(registry.receive(ticket)), 3);
}
