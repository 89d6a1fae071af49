use std::time::{SystemTime, UNIX_EPOCH};

use cargo_languagetool::cache::{CacheStatus, SledCacheStore};
use cargo_languagetool::codec::{decode_response, encode_request, encode_response};
use cargo_languagetool::languagetool::{
    CheckLevel, CheckMatch, CheckRequest, CheckResponse, MatchContext,
};

fn chars(s: &str) -> Vec<char> {
    s.chars().collect()
}

fn fresh_dir(tag: &str) -> String {
    let nanos = SystemTime::now().duration_since(UNIX_EPOCH).unwrap().as_nanos();
    format!("/tmp/cargo_languagetool_cache_{tag}_{nanos}")
}

fn request(text: &str) -> CheckRequest {
    CheckRequest {
        text: chars(text),
        language: "en-US".to_owned(),
        username: None,
        api_key: None,
        level: CheckLevel::Default,
        enabled_categories: vec![],
        disabled_categories: vec!["TYPOS".to_owned()],
        enabled_rules: vec![],
        disabled_rules: vec![],
        enabled_only: false,
    }
}

fn response(message: &str) -> CheckResponse {
    CheckResponse {
        matches: vec![CheckMatch {
            offset: 2,
            length: 3,
            message: chars(message),
            rule_id: chars("RULE_1"),
            rule_description: chars("describes rule one"),
            category_id: chars("GRAMMAR"),
            replacements: vec![chars("first"), chars("second")],
            context: MatchContext { text: chars("ab cde f"), offset: 3, length: 3 },
        }],
    }
}

#[test]
fn hashed_key_digests_the_input() {
    let key = SledCacheStore::hashed_key(&vec![1u8, 2, 3]);
    let again = SledCacheStore::hashed_key(&vec![1u8, 2, 3]);
    let other = SledCacheStore::hashed_key(&vec![1u8, 2, 4]);
    assert_eq!(key, again);
    assert_ne!(key, other);
    // A digest, not the key itself: fixed width, different content.
    assert_ne!(&key[..], &[1u8, 2, 3][..]);
    assert_eq!(key.len(), 32);
}

#[test]
fn raw_values_come_back_as_stored() {
    let mut store = SledCacheStore::new(&fresh_dir("raw")).unwrap();
    let key = vec![9u8, 8, 7];
    assert_eq!(store.get_raw(&key).unwrap(), None);
    store.set_raw(&key, &vec![4u8, 5]).unwrap();
    assert_eq!(store.get_raw(&key).unwrap(), Some(vec![4u8, 5]));
    // Hashed-key access agrees with unhashed access.
    let h = SledCacheStore::hashed_key(&key);
    assert_eq!(store.get_hashed_key_raw(h).unwrap(), Some(vec![4u8, 5]));
    // Last write wins.
    store.set_raw(&key, &vec![6u8]).unwrap();
    assert_eq!(store.get_raw(&key).unwrap(), Some(vec![6u8]));
}

#[test]
fn serialization_is_deterministic() {
    assert_eq!(encode_request(&request("same text")), encode_request(&request("same text")));
    let resp = response("a finding");
    let bytes = encode_response(&resp);
    assert_eq!(bytes, encode_response(&response("a finding")));
    let back = decode_response(&bytes).unwrap();
    assert_eq!(back.matches.len(), 1);
    assert_eq!(back.matches[0].offset, 2);
    assert_eq!(back.matches[0].length, 3);
    assert_eq!(back.matches[0].message, chars("a finding"));
    assert_eq!(back.matches[0].rule_id, chars("RULE_1"));
    assert_eq!(back.matches[0].replacements, vec![chars("first"), chars("second")]);
    assert_eq!(back.matches[0].context.text, chars("ab cde f"));
    assert_eq!(back.matches[0].context.offset, 3);
    assert_eq!(back.matches[0].context.length, 3);
}

#[test]
fn decode_rejects_garbage() {
    assert!(decode_response(&vec![]).is_none());
    assert!(decode_response(&vec![1u8, 0, 0, 0, 0, 0, 0, 0]).is_none());
    // A valid response with trailing bytes is not a whole response.
    let mut bytes = encode_response(&response("x"));
    bytes.push(0);
    assert!(decode_response(&bytes).is_none());
}

#[test]
fn get_or_compute_computes_at_most_once() {
    let mut store = SledCacheStore::new(&fresh_dir("once")).unwrap();
    assert!(!store.hits(&request("check me")).unwrap());

    let mut called_first = false;
    let (got, status) = store
        .get_or(request("check me"), |_q| {
            called_first = true;
            Ok(response("computed"))
        })
        .unwrap();
    assert!(called_first);
    assert_eq!(status, CacheStatus::Stored);
    assert_eq!(got.matches[0].message, chars("computed"));
    assert!(store.hits(&request("check me")).unwrap());

    let mut called_second = false;
    let (again, status) = store
        .get_or(request("check me"), |_q| {
            called_second = true;
            Ok(response("recomputed"))
        })
        .unwrap();
    assert!(!called_second);
    assert_eq!(status, CacheStatus::Hit);
    assert_eq!(again.matches[0].message, chars("computed"));
}

#[test]
fn set_and_get_always_computes_and_overwrites() {
    let mut store = SledCacheStore::new(&fresh_dir("overwrite")).unwrap();
    let (_r, st) = store.set_and_get(request("t"), |_q| Ok(response("one"))).unwrap();
    assert_eq!(st, CacheStatus::Stored);
    let (_r, st) = store.set_and_get(request("t"), |_q| Ok(response("two"))).unwrap();
    assert_eq!(st, CacheStatus::Stored);
    let cached = store.try_get(&request("t")).unwrap().unwrap();
    assert_eq!(cached.matches[0].message, chars("two"));
}

#[test]
fn corrupt_entries_are_reported() {
    let mut store = SledCacheStore::new(&fresh_dir("corrupt")).unwrap();
    let enc = encode_request(&request("poisoned"));
    let h = SledCacheStore::hashed_key(&enc);
    store.set_hashed_key_raw(h, &vec![0xDEu8, 0xAD]).unwrap();
    assert!(store.try_get(&request("poisoned")).is_err());
}
