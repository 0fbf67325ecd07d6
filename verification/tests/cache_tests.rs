use nostr_proxy::cache::EventCache;
use nostr_proxy::event::{EventFilter, SignedEvent};

fn note(id_byte: u8, kind: u16, created_at: u64) -> SignedEvent {
    let mut id = [0u8; 32];
    id[31] = id_byte;
    SignedEvent {
        id,
        pubkey: [7u8; 32],
        created_at,
        kind,
        tags: vec![],
        content: format!("note {}", id_byte),
        sig: [9u8; 64],
    }
}

fn id(b: u8) -> [u8; 32] {
    let mut id = [0u8; 32];
    id[31] = b;
    id
}

fn ids(events: &[SignedEvent]) -> Vec<u8> {
    events.iter().map(|e| e.id[31]).collect()
}

#[test]
fn cache_get_after_set() {
    let mut c = EventCache::new(10);
    assert!(c.get(&id(1)).is_none());
    c.set(note(1, 1, 10));
    let got = c.get(&id(1)).expect("stored event is found");
    assert_eq!(got.id, id(1));
    assert_eq!(got.content, "note 1");
    assert!(c.get(&id(2)).is_none());
}

#[test]
fn cache_set_replaces_same_id() {
    let mut c = EventCache::new(10);
    c.set(note(1, 1, 10));
    let mut newer = note(1, 1, 10);
    newer.content = "changed".to_string();
    c.set(newer);
    assert_eq!(c.get(&id(1)).unwrap().content, "changed");
    let all = c.query(&EventFilter::from_json("{}").unwrap());
    assert_eq!(all.len(), 1);
}

#[test]
fn cache_evicts_least_recently_used() {
    let mut c = EventCache::new(2);
    c.set(note(1, 1, 10));
    c.set(note(2, 1, 20));
    // touching 1 makes 2 the least recently used
    assert!(c.get(&id(1)).is_some());
    c.set(note(3, 1, 30));
    assert!(c.get(&id(2)).is_none());
    assert!(c.get(&id(1)).is_some());
    assert!(c.get(&id(3)).is_some());
}

#[test]
fn cache_query_filters_orders_and_limits() {
    let mut c = EventCache::new(10);
    c.set(note(1, 1, 10));
    c.set(note(2, 0, 20));
    c.set(note(3, 1, 30));
    c.set(note(4, 1, 40));
    let all = c.query(&EventFilter::from_json("{}").unwrap());
    assert_eq!(ids(&all), vec![4, 3, 2, 1]);
    let notes = c.query(&EventFilter::from_json(r#"{"kinds":[1]}"#).unwrap());
    assert_eq!(ids(&notes), vec![4, 3, 1]);
    let two = c.query(&EventFilter::from_json(r#"{"kinds":[1],"limit":2}"#).unwrap());
    assert_eq!(ids(&two), vec![4, 3]);
    let none = c.query(&EventFilter::from_json(r#"{"kinds":[1],"limit":0}"#).unwrap());
    assert!(none.is_empty());
    let big = c.query(&EventFilter::from_json(r#"{"limit":100}"#).unwrap());
    assert_eq!(big.len(), 4);
    // a lookup moves the event to the front
    assert!(c.get(&id(1)).is_some());
    let all = c.query(&EventFilter::from_json("{}").unwrap());
    assert_eq!(ids(&all), vec![1, 4, 3, 2]);
}

#[test]
fn cacheable_kinds() {
    assert!(EventCache::is_cacheable_event(&note(1, 1, 0)));
    assert!(EventCache::is_cacheable_event(&note(1, 0, 0)));
    assert!(EventCache::is_cacheable_event(&note(1, 30023, 0)));
    assert!(!EventCache::is_cacheable_event(&note(1, 4, 0)));
    assert!(!EventCache::is_cacheable_event(&note(1, 3, 0)));
    assert!(!EventCache::is_cacheable_event(&note(1, 30024, 0)));
}

#[test]
fn cache_unstored_id_not_found_after_run() {
    let mut c = EventCache::new(3);
    c.set(note(1, 1, 10));
    assert!(c.get(&id(1)).is_some());
    c.set(note(2, 1, 20));
    assert!(c.get(&id(4)).is_none());
    assert!(!c.contains(&id(4)));
    assert!(c.contains(&id(2)));
}

#[test]
fn cache_query_gives_each_id_once() {
    let mut c = EventCache::new(5);
    c.set(note(1, 1, 10));
    c.set(note(1, 1, 10));
    c.set(note(2, 1, 20));
    c.set(note(1, 1, 10));
    let all = c.query(&EventFilter::from_json("{}").unwrap());
    assert_eq!(ids(&all), vec![1, 2]);
}

#[test]
fn cache_contains_keeps_order() {
    let mut c = EventCache::new(2);
    c.set(note(1, 1, 10));
    c.set(note(2, 1, 20));
    // a check of 1 does not make it recently used: 1 is still evicted next
    assert!(c.contains(&id(1)));
    c.set(note(3, 1, 30));
    assert!(!c.contains(&id(1)));
    assert!(c.contains(&id(2)));
}
