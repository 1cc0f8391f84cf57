use ble_gossip::cache::{GossipCache, MAX_CACHE_SIZE};
use ble_gossip::message::GossipMessage;

#[test]
fn fresh_cache_accepts_once_and_decrements() {
    let mut cache = GossipCache::new();
    let r = cache.handle(GossipMessage::new(42, 5, vec![1, 2])).unwrap();
    assert_eq!(r.id, 42);
    assert_eq!(r.ttl, 4);
    assert_eq!(r.payload, vec![1, 2]);
    assert!(cache.contains(42));
    assert_eq!(cache.len(), 1);
    assert!(cache.handle(GossipMessage::new(42, 5, vec![1, 2])).is_none());
    assert!(cache.handle(GossipMessage::new(42, 200, vec![])).is_none());
    assert!(cache.handle(GossipMessage::new(42, 0, vec![])).is_none());
}

#[test]
fn ttl_one_is_relayed_with_zero() {
    let mut cache = GossipCache::new();
    let r = cache.handle(GossipMessage::new(7, 1, vec![])).unwrap();
    assert_eq!(r.ttl, 0);
}

#[test]
fn zero_ttl_is_dropped_and_not_remembered() {
    let mut cache = GossipCache::new();
    assert!(cache.handle(GossipMessage::new(9, 0, vec![3])).is_none());
    assert!(cache.handle(GossipMessage::new(9, 0, vec![3])).is_none());
    assert!(!cache.contains(9));
    assert_eq!(cache.len(), 0);
    let r = cache.handle(GossipMessage::new(9, 2, vec![3])).unwrap();
    assert_eq!(r.ttl, 1);
    assert!(cache.handle(GossipMessage::new(9, 0, vec![3])).is_none());
}

#[test]
fn cache_fills_up_to_capacity_without_forgetting() {
    let mut cache = GossipCache::new();
    for id in 0..MAX_CACHE_SIZE as u32 {
        assert!(cache.handle(GossipMessage::new(id, 1, vec![])).is_some());
    }
    assert_eq!(cache.len(), MAX_CACHE_SIZE);
    assert!(cache.handle(GossipMessage::new(0, 1, vec![])).is_none());
}

#[test]
fn overflow_clears_the_whole_cache() {
    let mut cache = GossipCache::new();
    for id in 0..=MAX_CACHE_SIZE as u32 {
        assert!(cache.handle(GossipMessage::new(id, 3, vec![])).is_some());
    }
    assert_eq!(cache.len(), 0);
    let r = cache.handle(GossipMessage::new(0, 3, vec![])).unwrap();
    assert_eq!(r.id, 0);
    assert_eq!(r.ttl, 2);
    assert!(cache.handle(GossipMessage::new(0, 3, vec![])).is_none());
    let last = MAX_CACHE_SIZE as u32;
    assert!(cache.handle(GossipMessage::new(last, 3, vec![])).is_some());
}
