use torustiq::channel::{ChannelError, ChannelRegistry};
use torustiq::record::RecordEnvelope;

fn record(text: &str) -> RecordEnvelope {
    RecordEnvelope::from_text(text)
}

#[test]
fn a_new_registry_has_no_channel() {
    let c = ChannelRegistry::new();
    assert!(c.is_empty());
    assert!(!c.contains(1));
    assert_eq!(c.pending(1), None);
    assert_eq!(c.is_claimed(1), None);
}

#[test]
fn create_makes_an_empty_unclaimed_channel() {
    let mut c = ChannelRegistry::new();
    assert_eq!(c.create(1), Ok(()));
    assert!(c.contains(1));
    assert!(!c.is_empty());
    assert_eq!(c.pending(1), Some(0));
    assert_eq!(c.is_claimed(1), Some(false));
}

#[test]
fn create_twice_is_refused() {
    let mut c = ChannelRegistry::new();
    c.create(1).unwrap();
    c.send(1, record("kept")).unwrap();
    assert_eq!(c.create(1), Err(ChannelError::AlreadyExists(1)));
    assert_eq!(c.pending(1), Some(1));
}

#[test]
fn claim_receiver_twice_fails_the_second_time() {
    let mut c = ChannelRegistry::new();
    c.create(3).unwrap();
    let first = c.claim_receiver(3);
    assert_eq!(first.as_ref().map(|r| r.handle()), Ok(3));
    let second = c.claim_receiver(3);
    assert_eq!(second.map(|r| r.handle()), Err(ChannelError::ReceiverAlreadyClaimed(3)));
    assert_eq!(c.is_claimed(3), Some(true));
}

#[test]
fn claim_without_a_channel_finds_nothing() {
    let mut c = ChannelRegistry::new();
    c.create(1).unwrap();
    assert_eq!(c.claim_receiver(2).map(|r| r.handle()), Err(ChannelError::NotFound(2)));
}

#[test]
fn send_to_an_unknown_stage_fails() {
    let mut c = ChannelRegistry::new();
    assert_eq!(c.send(9, record("x")), Err(ChannelError::NoSuchStage(9)));
}

#[test]
fn records_come_out_in_the_order_they_went_in() {
    let mut c = ChannelRegistry::new();
    c.create(1).unwrap();
    let rx = c.claim_receiver(1).unwrap();
    for i in 0..100u8 {
        c.send(1, RecordEnvelope::new(vec![i], vec![])).unwrap();
    }
    assert_eq!(c.pending(1), Some(100));
    for i in 0..100u8 {
        assert_eq!(c.recv(&rx), Some(RecordEnvelope::new(vec![i], vec![])));
    }
    assert_eq!(c.recv(&rx), None);
    assert_eq!(c.pending(1), Some(0));
}

#[test]
fn records_sent_before_the_claim_are_received_after_it() {
    let mut c = ChannelRegistry::new();
    c.create(1).unwrap();
    c.send(1, record("a")).unwrap();
    c.send(1, record("b")).unwrap();
    let rx = c.claim_receiver(1).unwrap();
    c.send(1, record("c")).unwrap();
    assert_eq!(c.recv(&rx), Some(record("a")));
    assert_eq!(c.recv(&rx), Some(record("b")));
    assert_eq!(c.recv(&rx), Some(record("c")));
    assert_eq!(c.recv(&rx), None);
}

#[test]
fn receiving_from_an_empty_queue_returns_at_once() {
    let mut c = ChannelRegistry::new();
    c.create(1).unwrap();
    let rx = c.claim_receiver(1).unwrap();
    assert_eq!(c.recv(&rx), None);
    assert_eq!(c.recv(&rx), None);
}

#[test]
fn channels_do_not_mix() {
    let mut c = ChannelRegistry::new();
    c.create(1).unwrap();
    c.create(2).unwrap();
    let rx1 = c.claim_receiver(1).unwrap();
    let rx2 = c.claim_receiver(2).unwrap();
    c.send(1, record("one")).unwrap();
    c.send(2, record("two")).unwrap();
    c.send(1, record("uno")).unwrap();
    assert_eq!(c.recv(&rx2), Some(record("two")));
    assert_eq!(c.recv(&rx2), None);
    assert_eq!(c.recv(&rx1), Some(record("one")));
    assert_eq!(c.recv(&rx1), Some(record("uno")));
}

#[test]
fn a_receiver_of_another_registry_receives_nothing() {
    let mut a = ChannelRegistry::new();
    a.create(1).unwrap();
    let rx = a.claim_receiver(1).unwrap();
    let mut b = ChannelRegistry::new();
    assert_eq!(b.recv(&rx), None);
}

#[test]
fn metadata_travel_with_the_record() {
    let mut c = ChannelRegistry::new();
    c.create(1).unwrap();
    let rx = c.claim_receiver(1).unwrap();
    let r = RecordEnvelope::new(
        vec![1],
        vec![(String::from("k"), String::from("1")), (String::from("k"), String::from("2"))],
    );
    c.send(1, r.deep_copy()).unwrap();
    assert_eq!(c.recv(&rx), Some(r));
}

#[test]
fn the_handle_zero_gets_no_channel() {
    let mut c = ChannelRegistry::new();
    assert_eq!(c.create(0), Err(ChannelError::NoSuchStage(0)));
    assert!(!c.contains(0));
    assert!(c.is_empty());
    assert_eq!(c.send(0, record("x")), Err(ChannelError::NoSuchStage(0)));
    assert_eq!(c.claim_receiver(0).map(|r| r.handle()), Err(ChannelError::NotFound(0)));
}
