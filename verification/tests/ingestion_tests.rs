use callhook::cache::OrderedCache;
use callhook::fingerprint::fingerprint;
use callhook::receiver::{data_receiver, store_event, ReceiveError};
use callhook::decimal::{parse_u64, parse_usize, push_decimal};

#[test]
fn fingerprint_is_the_sha256_digest_in_hex() {
    assert_eq!(
        fingerprint(b""),
        "e3b0c44298fc1c149afbf4c8996fb92427ae41e4649b934ca495991b7852b855"
    );
    assert_eq!(
        fingerprint(b"abc"),
        "ba7816bf8f01cfea414140de5dae2223b00361a396177a9cb410ff61f20015ad"
    );
    assert_eq!(fingerprint(b"{\"a\":1}").len(), 64);
    assert_ne!(fingerprint(b"{\"a\":1}"), fingerprint(b"{\"a\": 1}"));
}

#[test]
fn json_payload_is_queued_under_its_fingerprint() {
    let mut cache = OrderedCache::new(vec!["orders".to_string()], 300);
    let body = b"{\"id\": 7}".to_vec();
    let stored = data_receiver(body.clone(), "orders".to_string(), &mut cache);
    let key = fingerprint(&body);
    assert_eq!(stored, Ok(("orders".to_string(), key.clone())));
    assert_eq!(cache.get("orders", &key), Some(body.clone()));
    assert_eq!(cache.remove_oldest("orders", 1), Ok(vec![(key, body)]));
}

#[test]
fn payload_that_is_not_json_is_refused() {
    let mut cache = OrderedCache::new(vec!["orders".to_string()], 300);
    for body in [&b"not a json"[..], b"", b"{\"a\":", b"{'a':1}", b"\xff\xfe", b"1 2"] {
        assert_eq!(
            data_receiver(body.to_vec(), "orders".to_string(), &mut cache),
            Err(ReceiveError::InvalidPayload)
        );
    }
    // also for an alias without a queue: the payload is looked at first
    assert_eq!(
        data_receiver(b"oops".to_vec(), "nobody".to_string(), &mut cache),
        Err(ReceiveError::InvalidPayload)
    );
    assert_eq!(cache.remove_oldest("orders", 5), Ok(vec![]));
    assert_eq!(ReceiveError::InvalidPayload.message(), "Payload is not valid JSON");
}

#[test]
fn any_json_value_is_a_payload() {
    let mut cache = OrderedCache::new(vec!["a".to_string()], 300);
    for body in [&b"null"[..], b"true", b"12.5e3", b"\"text\"", b"[1, [2], {}]", b" {} "] {
        let stored = data_receiver(body.to_vec(), "a".to_string(), &mut cache);
        assert_eq!(stored, Ok(("a".to_string(), fingerprint(body))));
    }
    assert_eq!(cache.remove_oldest("a", 10).unwrap().len(), 6);
}

#[test]
fn payload_for_an_unknown_alias_is_refused() {
    let mut cache = OrderedCache::new(vec!["orders".to_string()], 300);
    assert_eq!(
        data_receiver(b"{}".to_vec(), "users".to_string(), &mut cache),
        Err(ReceiveError::UnknownAlias)
    );
    assert_eq!(ReceiveError::UnknownAlias.message(), "Alias not found");
}

#[test]
fn same_payload_twice_is_queued_once() {
    let mut cache = OrderedCache::new(vec!["a".to_string()], 300);
    let first = data_receiver(b"{\"n\":1}".to_vec(), "a".to_string(), &mut cache);
    let second = data_receiver(b"{\"n\":1}".to_vec(), "a".to_string(), &mut cache);
    assert_eq!(first, second);
    assert!(first.is_ok());
    assert_eq!(cache.remove_oldest("a", 5).unwrap().len(), 1);
}

#[test]
fn store_event_goes_by_the_verdict_it_is_given() {
    let mut cache = OrderedCache::new(vec!["a".to_string()], 300);
    assert_eq!(
        store_event(false, "k".to_string(), b"{}".to_vec(), "a".to_string(), &mut cache),
        Err(ReceiveError::InvalidPayload)
    );
    assert_eq!(
        store_event(true, "k".to_string(), b"{}".to_vec(), "b".to_string(), &mut cache),
        Err(ReceiveError::UnknownAlias)
    );
    assert_eq!(
        store_event(true, "k".to_string(), b"raw".to_vec(), "a".to_string(), &mut cache),
        Ok(("a".to_string(), "k".to_string()))
    );
    assert_eq!(cache.remove_oldest("a", 5), Ok(vec![("k".to_string(), b"raw".to_vec())]));
}

#[test]
fn numbers_are_written_in_base_ten() {
    for n in [0, 7, 10, 99, 100, 1905, usize::MAX] {
        let mut text = "n=".to_string();
        push_decimal(&mut text, n);
        assert_eq!(text, format!("n={}", n));
    }
}

#[test]
fn numbers_are_read_in_base_ten() {
    assert_eq!(parse_u64("0"), Some(0));
    assert_eq!(parse_u64("+300"), Some(300));
    assert_eq!(parse_u64("000300"), Some(300));
    assert_eq!(parse_u64("18446744073709551615"), Some(u64::MAX));
    assert_eq!(parse_u64("18446744073709551616"), None);
    assert_eq!(parse_u64("++1"), None);
    assert_eq!(parse_u64("1+"), None);
    assert_eq!(parse_u64("3a"), None);
    assert_eq!(parse_u64(""), None);
    assert_eq!(parse_usize("42"), Some(42));
    assert_eq!(parse_usize("-42"), None);
}
