use ble_gossip::cache::GossipCache;
use ble_gossip::codec::decode_gossip;
use ble_gossip::ingest::{process_entries, process_entry, OUR_COMPANY_ID};

#[test]
fn scenario_hi_relayed_once() {
    let bytes = [0x01, 0x00, 0x00, 0x00, 0x03, 0x68, 0x69];
    let msg = decode_gossip(&bytes).unwrap();
    assert_eq!(msg.id, 1);
    assert_eq!(msg.ttl, 3);
    assert_eq!(msg.payload, b"hi".to_vec());
    let mut cache = GossipCache::new();
    let out = cache.handle(msg.clone()).unwrap();
    assert_eq!(out.id, 1);
    assert_eq!(out.ttl, 2);
    assert_eq!(out.payload, b"hi".to_vec());
    assert!(cache.handle(msg).is_none());
}

#[test]
fn scenario_zero_ttl_dropped() {
    let bytes = [0x02, 0x00, 0x00, 0x00, 0x00];
    let msg = decode_gossip(&bytes).unwrap();
    assert_eq!(msg.id, 2);
    assert_eq!(msg.ttl, 0);
    assert!(msg.payload.is_empty());
    let mut cache = GossipCache::new();
    assert!(cache.handle(msg).is_none());
}

#[test]
fn entry_under_other_tag_is_ignored() {
    let mut cache = GossipCache::new();
    let bytes = [0x05, 0x00, 0x00, 0x00, 0x02];
    assert!(process_entry(&mut cache, 0x4c00, &bytes).is_none());
    assert_eq!(cache.len(), 0);
    let r = process_entry(&mut cache, OUR_COMPANY_ID, &bytes).unwrap();
    assert_eq!(r.id, 5);
    assert_eq!(r.ttl, 1);
}

#[test]
fn malformed_entry_is_dropped() {
    let mut cache = GossipCache::new();
    assert!(process_entry(&mut cache, OUR_COMPANY_ID, &[0x01, 0x00, 0x00, 0x00]).is_none());
    assert_eq!(cache.len(), 0);
}

#[test]
fn one_scan_relays_new_messages_in_order() {
    let mut cache = GossipCache::new();
    let entries: Vec<(u16, Vec<u8>)> = vec![
        (OUR_COMPANY_ID, vec![0x01, 0x00, 0x00, 0x00, 0x03, 0x68, 0x69]),
        (0x0006, vec![0x09, 0x00, 0x00, 0x00, 0x03]),
        (OUR_COMPANY_ID, vec![0x01, 0x00, 0x00, 0x00, 0x03, 0x68, 0x69]),
        (OUR_COMPANY_ID, vec![0x02, 0x00, 0x00, 0x00, 0x00]),
        (OUR_COMPANY_ID, vec![0x03, 0x00]),
        (OUR_COMPANY_ID, vec![0x04, 0x01, 0x00, 0x00, 0x08, 0x7a]),
    ];
    let out = process_entries(&mut cache, &entries);
    assert_eq!(out.len(), 2);
    assert_eq!((out[0].id, out[0].ttl, out[0].payload.clone()), (1, 2, b"hi".to_vec()));
    assert_eq!((out[1].id, out[1].ttl, out[1].payload.clone()), (0x104, 7, vec![0x7a]));
    assert_eq!(cache.len(), 2);
    assert!(process_entries(&mut cache, &entries).is_empty());
}
