use elkodon::config::Config;
use elkodon::port_identifiers::UniquePublisherId;
use elkodon::publish_subscribe::{PublishSubscribe, PublisherLoanError, SubscriberCreateError, SubscriberReceiveError};
use elkodon::static_config::publish_subscribe::StaticConfig;
use elkodon::unique_system_id::{ProcessId, Time, UniqueSystemId};

fn publisher_id() -> UniquePublisherId {
    UniquePublisherId(UniqueSystemId::from_parts(ProcessId::new(42), Time { seconds: 7, nanoseconds: 9 }))
}

fn qos(buffer: usize, history: usize, max_borrowed: usize, overflow: bool) -> StaticConfig {
    let mut c = StaticConfig::new(&Config::default(), b"u64");
    c.set_max_publishers(1);
    c.set_max_subscribers(1);
    c.set_subscriber_max_buffer_size(buffer);
    c.set_history_size(history);
    c.set_subscriber_max_borrowed_samples(max_borrowed);
    c.set_safe_overflow(overflow);
    c
}

fn receive_value(p: &mut PublishSubscribe<u64>, sub: usize) -> Option<u64> {
    match p.receive(sub).unwrap() {
        None => None,
        Some(sample) => {
            let v = p.payload(&sample);
            p.release(sample);
            Some(v)
        }
    }
}

#[test]
fn basic_publish_subscribe() {
    let mut p = PublishSubscribe::new(publisher_id(), &qos(2, 0, 2, true), 0u64).unwrap();
    let s = p.add_subscriber().unwrap();
    assert_eq!(p.send_copy(42).unwrap(), 1);
    assert_eq!(p.send_copy(43).unwrap(), 1);
    assert_eq!(receive_value(&mut p, s), Some(42));
    assert_eq!(receive_value(&mut p, s), Some(43));
    assert_eq!(receive_value(&mut p, s), None);
}

#[test]
fn safe_overflow_keeps_newest() {
    let mut p = PublishSubscribe::new(publisher_id(), &qos(2, 0, 2, true), 0u64).unwrap();
    let s = p.add_subscriber().unwrap();
    for v in [1u64, 2, 3] {
        assert_eq!(p.send_copy(v).unwrap(), 1);
    }
    assert_eq!(receive_value(&mut p, s), Some(2));
    assert_eq!(receive_value(&mut p, s), Some(3));
    assert_eq!(receive_value(&mut p, s), None);
}

#[test]
fn no_overflow_drops_newest_for_full_subscriber() {
    let mut p = PublishSubscribe::new(publisher_id(), &qos(2, 0, 2, false), 0u64).unwrap();
    let s = p.add_subscriber().unwrap();
    assert_eq!(p.send_copy(1).unwrap(), 1);
    assert_eq!(p.send_copy(2).unwrap(), 1);
    assert_eq!(p.send_copy(3).unwrap(), 0);
    assert_eq!(receive_value(&mut p, s), Some(1));
    assert_eq!(receive_value(&mut p, s), Some(2));
    assert_eq!(receive_value(&mut p, s), None);
}

#[test]
fn history_is_replayed_to_late_subscriber() {
    let mut p = PublishSubscribe::new(publisher_id(), &qos(4, 2, 2, true), 0u64).unwrap();
    for v in [10u64, 20, 30] {
        assert_eq!(p.send_copy(v).unwrap(), 0);
    }
    let s = p.add_subscriber().unwrap();
    assert_eq!(receive_value(&mut p, s), Some(20));
    assert_eq!(receive_value(&mut p, s), Some(30));
    assert_eq!(receive_value(&mut p, s), None);
}

#[test]
fn max_borrowed_is_enforced() {
    let mut p = PublishSubscribe::new(publisher_id(), &qos(4, 0, 1, true), 0u64).unwrap();
    let s = p.add_subscriber().unwrap();
    p.send_copy(7).unwrap();
    p.send_copy(8).unwrap();
    let first = p.receive(s).unwrap().unwrap();
    assert_eq!(p.payload(&first), 7);
    assert!(matches!(p.receive(s), Err(SubscriberReceiveError::TooManySamplesHeld)));
    p.release(first);
    let second = p.receive(s).unwrap().unwrap();
    assert_eq!(p.payload(&second), 8);
    p.release(second);
}

#[test]
fn receive_on_empty_returns_none_and_keeps_state() {
    let mut p = PublishSubscribe::new(publisher_id(), &qos(2, 0, 2, true), 0u64).unwrap();
    let s = p.add_subscriber().unwrap();
    let free = p.number_of_free_slots();
    assert!(p.receive(s).unwrap().is_none());
    assert!(p.receive(s).unwrap().is_none());
    assert_eq!(p.number_of_free_slots(), free);
}

#[test]
fn headers_carry_publisher_and_sequence_number() {
    let mut p = PublishSubscribe::new(publisher_id(), &qos(4, 0, 2, true), 0u64).unwrap();
    let s = p.add_subscriber().unwrap();
    p.send_copy(5).unwrap();
    p.send_copy(6).unwrap();
    let a = p.receive(s).unwrap().unwrap();
    let h = p.header(&a);
    assert_eq!(h.publisher_id, publisher_id());
    assert_eq!(h.sequence_number, 0);
    p.release(a);
    let b = p.receive(s).unwrap().unwrap();
    assert_eq!(p.header(&b).sequence_number, 1);
    p.release(b);
}

#[test]
fn slots_return_to_the_pool() {
    let mut p = PublishSubscribe::new(publisher_id(), &qos(2, 1, 1, true), 0u64).unwrap();
    // one subscriber: 2 + 1 slots, one for the history, one spare
    assert_eq!(p.capacity(), 5);
    let s = p.add_subscriber().unwrap();
    for v in 0u64..50 {
        p.send_copy(v).unwrap();
        assert_eq!(receive_value(&mut p, s), Some(v));
    }
    let loan = p.loan().unwrap();
    p.write(&loan, 99);
    p.send(loan);
    assert_eq!(receive_value(&mut p, s), Some(99));
}

#[test]
fn loan_fails_when_every_slot_is_loaned() {
    let mut p = PublishSubscribe::new(publisher_id(), &qos(1, 0, 1, true), 0u64).unwrap();
    let mut loans = Vec::new();
    for _ in 0..p.capacity() {
        loans.push(p.loan().unwrap());
    }
    assert!(matches!(p.loan(), Err(PublisherLoanError::OutOfMemory)));
    let l = loans.pop().unwrap();
    p.send(l);
    assert!(p.loan().is_ok());
}

#[test]
fn subscribers_are_limited() {
    let mut p = PublishSubscribe::new(publisher_id(), &qos(2, 0, 1, true), 0u64).unwrap();
    assert_eq!(p.add_subscriber().unwrap(), 0);
    assert!(matches!(p.add_subscriber(), Err(SubscriberCreateError::ExceedsMaxSupportedPorts)));
}

#[test]
fn every_subscriber_receives_each_sample() {
    let mut c = qos(3, 0, 1, true);
    c.set_max_subscribers(3);
    let mut p = PublishSubscribe::new(publisher_id(), &c, 0u64).unwrap();
    let a = p.add_subscriber().unwrap();
    let b = p.add_subscriber().unwrap();
    assert_eq!(p.send_copy(11).unwrap(), 2);
    assert_eq!(receive_value(&mut p, a), Some(11));
    assert_eq!(receive_value(&mut p, b), Some(11));
    assert_eq!(receive_value(&mut p, b), None);
}

#[test]
fn pool_size_overflow_is_refused() {
    let mut c = qos(usize::MAX, 0, 1, true);
    c.set_max_subscribers(2);
    assert!(PublishSubscribe::new(publisher_id(), &c, 0u64).is_err());
}

#[test]
fn disconnected_subscriber_gives_its_slots_back() {
    let mut c = qos(2, 0, 2, true);
    c.set_max_subscribers(2);
    let mut p = PublishSubscribe::new(publisher_id(), &c, 0u64).unwrap();
    let a = p.add_subscriber().unwrap();
    let b = p.add_subscriber().unwrap();
    let all = p.number_of_free_slots();
    p.send_copy(1).unwrap();
    p.send_copy(2).unwrap();
    let held = p.receive(a).unwrap().unwrap();
    assert_eq!(p.payload(&held), 1);
    // b still holds both slots in its queue
    p.disconnect_subscriber(a);
    assert_eq!(p.receive(a).unwrap().is_none(), true);
    assert_eq!(receive_value(&mut p, b), Some(1));
    assert_eq!(receive_value(&mut p, b), Some(2));
    // only subscriber b is reached now
    assert_eq!(p.send_copy(3).unwrap(), 1);
    assert_eq!(receive_value(&mut p, b), Some(3));
    // taking a loan first takes back every returned slot
    let loan = p.loan().unwrap();
    assert_eq!(p.number_of_free_slots(), all - 1);
    p.write(&loan, 4);
    assert_eq!(p.send(loan), 1);
    assert_eq!(receive_value(&mut p, b), Some(4));
    drop(held);
}
