use callhook::cache::{CacheError, OrderedCache};
use callhook::queue::{hand_out, EventQueue, CAPACITY, DEDUP_TTL_SECONDS, DEFAULT_TTL_SECONDS};
use std::time::{Duration, Instant};

fn names(list: &[&str]) -> Vec<String> {
    list.iter().map(|s| s.to_string()).collect()
}

fn event(key: &str, body: &str) -> (String, Vec<u8>) {
    (key.to_string(), body.as_bytes().to_vec())
}

fn wait(duration: Duration) {
    let begun = Instant::now();
    while begun.elapsed() < duration {
        std::hint::spin_loop();
    }
}

#[test]
fn events_leave_in_arrival_order() {
    let mut cache = OrderedCache::new(names(&["a"]), 300);
    assert_eq!(cache.insert("a", "f1".to_string(), b"1".to_vec()), Ok(()));
    assert_eq!(cache.insert("a", "f2".to_string(), b"2".to_vec()), Ok(()));
    assert_eq!(cache.insert("a", "f3".to_string(), b"3".to_vec()), Ok(()));
    let out = cache.remove_oldest("a", 3).unwrap();
    assert_eq!(out, vec![event("f1", "1"), event("f2", "2"), event("f3", "3")]);
    assert_eq!(cache.remove_oldest("a", 3).unwrap(), vec![]);
}

#[test]
fn drain_takes_no_more_than_asked() {
    let mut queue = EventQueue::new(300);
    assert!(queue.insert("f1".to_string(), b"1".to_vec()));
    assert!(queue.insert("f2".to_string(), b"2".to_vec()));
    assert!(queue.insert("f3".to_string(), b"3".to_vec()));
    assert_eq!(queue.remove_oldest(0), vec![]);
    assert_eq!(queue.remove_oldest(2), vec![event("f1", "1"), event("f2", "2")]);
    assert_eq!(queue.remove_oldest(2), vec![event("f3", "3")]);
    assert_eq!(queue.remove_oldest(2), vec![]);
}

#[test]
fn newest_events_leave_from_the_back() {
    let mut queue = EventQueue::new(300);
    assert!(queue.insert("f1".to_string(), b"1".to_vec()));
    assert!(queue.insert("f2".to_string(), b"2".to_vec()));
    assert!(queue.insert("f3".to_string(), b"3".to_vec()));
    assert_eq!(queue.remove_newest(2), vec![event("f3", "3"), event("f2", "2")]);
    assert_eq!(queue.remove_oldest(5), vec![event("f1", "1")]);
    assert_eq!(queue.remove_newest(1), vec![]);
}

#[test]
fn same_fingerprint_twice_is_queued_once() {
    let mut queue = EventQueue::new(300);
    assert!(queue.insert("f1".to_string(), b"first".to_vec()));
    assert!(!queue.insert("f1".to_string(), b"second".to_vec()));
    assert_eq!(queue.get("f1"), Some(b"first".to_vec()));
    assert_eq!(queue.remove_oldest(5), vec![event("f1", "first")]);
    assert_eq!(queue.get("f1"), None);
}

#[test]
fn duplicate_within_the_window_keeps_place_and_payload() {
    let mut queue = EventQueue::new(300);
    assert!(queue.insert("f1".to_string(), b"old".to_vec()));
    assert!(queue.insert("f2".to_string(), b"two".to_vec()));
    // within the window of 200 seconds the second delivery of f1 is dropped
    assert!(!queue.insert("f1".to_string(), b"new".to_vec()));
    assert_eq!(queue.remove_oldest(1), vec![event("f1", "old")]);
    assert_eq!(queue.remove_oldest(1), vec![event("f2", "two")]);
}

#[test]
fn requeued_fingerprint_goes_to_the_back_with_its_new_payload() {
    let mut queue = EventQueue::new(300);
    assert!(queue.insert_if_fresh(false, "f1".to_string(), b"old".to_vec()));
    assert!(queue.insert_if_fresh(false, "f2".to_string(), b"two".to_vec()));
    // the window has passed: the fingerprint is no longer taken for a duplicate
    assert!(queue.insert_if_fresh(false, "f1".to_string(), b"new".to_vec()));
    assert_eq!(queue.remove_oldest(1), vec![event("f2", "two")]);
    assert_eq!(queue.remove_oldest(1), vec![event("f1", "new")]);
    assert_eq!(queue.remove_oldest(1), vec![]);
}

#[test]
fn fingerprint_is_queued_again_once_its_window_has_passed() {
    // events live six seconds, fingerprints count as seen for four
    let mut cache = OrderedCache::new(names(&["a"]), 6);
    assert_eq!(cache.insert("a", "f1".to_string(), b"old".to_vec()), Ok(()));
    assert_eq!(cache.insert("a", "f2".to_string(), b"two".to_vec()), Ok(()));
    assert_eq!(cache.insert("a", "f1".to_string(), b"dropped".to_vec()), Ok(()));
    assert_eq!(cache.get("a", "f1"), Some(b"old".to_vec()));
    wait(Duration::from_millis(4300));
    assert_eq!(cache.insert("a", "f1".to_string(), b"new".to_vec()), Ok(()));
    assert_eq!(cache.remove_oldest("a", 1), Ok(vec![event("f2", "two")]));
    assert_eq!(cache.remove_oldest("a", 1), Ok(vec![event("f1", "new")]));
    assert_eq!(cache.remove_oldest("a", 1), Ok(vec![]));
}

#[test]
fn short_lived_events_have_no_dedup_window() {
    // events that live one second are never taken for duplicates
    let mut queue = EventQueue::new(1);
    assert!(queue.insert("f1".to_string(), b"1".to_vec()));
    assert!(queue.insert("f1".to_string(), b"2".to_vec()));
    assert_eq!(queue.remove_oldest(5), vec![event("f1", "2")]);
}

#[test]
fn events_that_live_no_time_are_never_handed_out() {
    let mut queue = EventQueue::new(0);
    assert!(queue.insert("f1".to_string(), b"1".to_vec()));
    assert_eq!(queue.get("f1"), None);
    assert_eq!(queue.remove_oldest(5), vec![]);
}

#[test]
fn hand_out_counts_what_was_found() {
    let mut out = vec![event("f0", "0")];
    assert!(hand_out(&mut out, "f1".to_string(), Some(b"1".to_vec())));
    assert!(!hand_out(&mut out, "f2".to_string(), None));
    assert!(hand_out(&mut out, "f3".to_string(), Some(Vec::new())));
    assert_eq!(out, vec![event("f0", "0"), event("f1", "1"), event("f3", "")]);
}

#[test]
fn duplicate_flag_suppresses_the_event() {
    let mut queue = EventQueue::new(300);
    assert!(!queue.insert_if_fresh(true, "f1".to_string(), b"x".to_vec()));
    assert_eq!(queue.get("f1"), None);
    assert_eq!(queue.remove_oldest(1), vec![]);
}

#[test]
fn suppression_outlasts_the_drain() {
    let mut queue = EventQueue::new(300);
    assert!(queue.insert("f1".to_string(), b"1".to_vec()));
    assert_eq!(queue.remove_oldest(1), vec![event("f1", "1")]);
    // still within the window
    assert!(!queue.insert("f1".to_string(), b"1".to_vec()));
    assert_eq!(queue.remove_oldest(1), vec![]);
}

#[test]
fn expired_event_is_passed_over() {
    let mut queue = EventQueue::new(1);
    assert!(queue.insert("f1".to_string(), b"1".to_vec()));
    wait(Duration::from_millis(1500));
    assert!(queue.insert("f2".to_string(), b"2".to_vec()));
    assert_eq!(queue.get("f1"), None);
    // f1 is dropped without counting, f2 is handed out
    assert_eq!(queue.remove_oldest(1), vec![event("f2", "2")]);
    assert_eq!(queue.remove_oldest(1), vec![]);
}

#[test]
fn expired_events_leave_an_empty_drain() {
    let mut cache = OrderedCache::new(names(&["a"]), 1);
    assert_eq!(cache.insert("a", "f1".to_string(), b"1".to_vec()), Ok(()));
    assert_eq!(cache.insert("a", "f2".to_string(), b"2".to_vec()), Ok(()));
    wait(Duration::from_millis(1500));
    assert_eq!(cache.remove_newest("a", 2), Ok(vec![]));
    assert_eq!(cache.remove_oldest("a", 2), Ok(vec![]));
}

#[test]
fn lookup_leaves_the_order_alone() {
    let mut cache = OrderedCache::new(names(&["a"]), 300);
    cache.insert("a", "f1".to_string(), b"1".to_vec()).unwrap();
    cache.insert("a", "f2".to_string(), b"2".to_vec()).unwrap();
    assert_eq!(cache.get("a", "f2"), Some(b"2".to_vec()));
    assert_eq!(cache.get("a", "f1"), Some(b"1".to_vec()));
    assert_eq!(cache.get("a", "f3"), None);
    assert_eq!(cache.remove_oldest("a", 2), Ok(vec![event("f1", "1"), event("f2", "2")]));
}

#[test]
fn unknown_alias_is_refused() {
    let mut cache = OrderedCache::new(names(&["a"]), 300);
    assert_eq!(cache.insert("b", "f1".to_string(), b"1".to_vec()), Err(CacheError::AliasNotFound));
    assert_eq!(cache.remove_oldest("b", 1), Err(CacheError::AliasNotFound));
    assert_eq!(cache.remove_newest("b", 1), Err(CacheError::AliasNotFound));
    assert_eq!(cache.remove("b", 1, true), Err(CacheError::AliasNotFound));
    assert_eq!(cache.get("b", "f1"), None);
    assert!(!cache.has_alias("b"));
    assert!(!cache.has_alias(""));
    assert!(cache.has_alias("a"));
    assert_eq!(CacheError::AliasNotFound.message(), "Alias not found");
}

#[test]
fn queues_do_not_mix() {
    let mut cache = OrderedCache::new(names(&["a", "b"]), 300);
    cache.insert("a", "f1".to_string(), b"a1".to_vec()).unwrap();
    cache.insert("b", "f1".to_string(), b"b1".to_vec()).unwrap();
    cache.insert("b", "f2".to_string(), b"b2".to_vec()).unwrap();
    assert_eq!(cache.remove_oldest("a", 5), Ok(vec![event("f1", "a1")]));
    assert_eq!(cache.remove_oldest("b", 5), Ok(vec![event("f1", "b1"), event("f2", "b2")]));
}

#[test]
fn aliases_are_registered_once() {
    let cache = OrderedCache::new(names(&["b", "a", "b", "c", "a"]), 300);
    assert_eq!(cache.get_aliases(), names(&["b", "a", "c"]));
    let empty = OrderedCache::new(Vec::new(), 300);
    assert_eq!(empty.get_aliases(), Vec::<String>::new());
    assert!(!empty.has_alias("a"));
}

#[test]
fn alias_can_be_added_later() {
    let mut cache = OrderedCache::new(names(&["a"]), 300);
    cache.insert("a", "f1".to_string(), b"1".to_vec()).unwrap();
    assert!(cache.add_alias("b".to_string(), 300));
    assert!(!cache.add_alias("a".to_string(), 300));
    assert!(!cache.add_alias("b".to_string(), 1));
    assert_eq!(cache.get_aliases(), names(&["a", "b"]));
    assert!(cache.has_alias("b"));
    assert_eq!(cache.remove_oldest("b", 1), Ok(vec![]));
    cache.insert("b", "f2".to_string(), b"2".to_vec()).unwrap();
    // the queue of the alias that was there before is untouched
    assert_eq!(cache.remove_oldest("a", 5), Ok(vec![event("f1", "1")]));
    assert_eq!(cache.remove_oldest("b", 5), Ok(vec![event("f2", "2")]));
}

#[test]
fn limits_are_as_documented() {
    assert_eq!(CAPACITY, 10_000);
    assert_eq!(DEFAULT_TTL_SECONDS, 300);
    assert_eq!(DEDUP_TTL_SECONDS, 200);
}
