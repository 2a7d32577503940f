use sample_relay::distribution::{Distribution, Offer, Policy};

fn filled(capacity: usize, policy: Policy, count: usize) -> Distribution {
    let mut queue = Distribution::new(capacity, policy);
    for k in 0..count {
        assert_eq!(queue.offer(format!("payload {}", k)), Offer::Accepted);
    }
    queue
}

#[test]
fn new_queue_is_empty_and_open() {
    let queue = Distribution::new(5, Policy::Block);
    assert_eq!(queue.capacity(), 5);
    assert_eq!(queue.policy(), Policy::Block);
    assert_eq!(queue.len(), 0);
    assert!(!queue.is_full());
    assert!(!queue.is_closed());
    assert!(!queue.is_drained());
}

#[test]
fn capacity_five_takes_five_records_without_blocking() {
    let queue = filled(5, Policy::Block, 5);
    assert_eq!(queue.len(), 5);
    assert!(queue.is_full());
}

#[test]
fn sixth_record_blocks_when_the_policy_is_to_block() {
    let mut queue = filled(5, Policy::Block, 5);
    assert_eq!(queue.offer("payload 5".to_string()), Offer::Blocked("payload 5".to_string()));
    assert_eq!(queue.len(), 5);
    assert_eq!(queue.take(), Some("payload 0".to_string()));
    assert_eq!(queue.offer("payload 5".to_string()), Offer::Accepted);
    assert_eq!(queue.len(), 5);
}

#[test]
fn sixth_record_displaces_the_oldest_when_the_policy_is_to_drop() {
    let mut queue = filled(5, Policy::DropOldest, 5);
    assert_eq!(queue.offer("payload 5".to_string()), Offer::Displaced("payload 0".to_string()));
    assert_eq!(queue.len(), 5);
    for k in 1..6 {
        assert_eq!(queue.take(), Some(format!("payload {}", k)));
    }
    assert_eq!(queue.take(), None);
}

#[test]
fn queue_is_first_in_first_out() {
    let mut queue = filled(3, Policy::Block, 3);
    assert_eq!(queue.take(), Some("payload 0".to_string()));
    assert_eq!(queue.take(), Some("payload 1".to_string()));
    assert_eq!(queue.offer("payload 3".to_string()), Offer::Accepted);
    assert_eq!(queue.take(), Some("payload 2".to_string()));
    assert_eq!(queue.take(), Some("payload 3".to_string()));
    assert_eq!(queue.take(), None);
}

#[test]
fn queue_without_room_never_holds_anything() {
    let mut blocking = Distribution::new(0, Policy::Block);
    assert!(blocking.is_full());
    assert_eq!(blocking.offer("x".to_string()), Offer::Blocked("x".to_string()));
    assert_eq!(blocking.len(), 0);
    let mut dropping = Distribution::new(0, Policy::DropOldest);
    assert_eq!(dropping.offer("x".to_string()), Offer::Displaced("x".to_string()));
    assert_eq!(dropping.len(), 0);
    assert_eq!(dropping.take(), None);
}

#[test]
fn closed_queue_refuses_offers_and_still_drains() {
    let mut queue = filled(5, Policy::Block, 2);
    queue.close();
    assert!(queue.is_closed());
    assert!(!queue.is_drained());
    assert_eq!(queue.offer("late".to_string()), Offer::Closed("late".to_string()));
    assert_eq!(queue.len(), 2);
    assert_eq!(queue.take(), Some("payload 0".to_string()));
    assert_eq!(queue.take(), Some("payload 1".to_string()));
    assert_eq!(queue.take(), None);
    assert!(queue.is_drained());
}

#[test]
fn closed_queue_refuses_whatever_its_policy() {
    let mut queue = filled(1, Policy::DropOldest, 1);
    queue.close();
    assert_eq!(queue.offer("late".to_string()), Offer::Closed("late".to_string()));
    assert_eq!(queue.take(), Some("payload 0".to_string()));
}
