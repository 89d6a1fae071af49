use std::time::{SystemTime, UNIX_EPOCH};

use cargo_languagetool::cache::{CacheStatus, SledCacheStore};
use cargo_languagetool::cli::Config;
use cargo_languagetool::doc::{CheckOutcome, Doc, DocLine, DocPos, DocSpan, Docs, RawDocs};
use cargo_languagetool::languagetool::categories::Categories;
use cargo_languagetool::languagetool::{
    CheckLevel, CheckResponse, MatchContext, CheckMatch, RemoteError,
};

fn chars(s: &str) -> Vec<char> {
    s.chars().collect()
}

fn fresh_dir(tag: &str) -> String {
    let nanos = SystemTime::now().duration_since(UNIX_EPOCH).unwrap().as_nanos();
    format!("/tmp/cargo_languagetool_orch_{tag}_{nanos}")
}

fn config(no_cache: bool, show_all: bool) -> Config {
    Config {
        hostname: "https://example.invalid".to_owned(),
        port: None,
        username: None,
        api_key: None,
        disable_categories: vec![],
        enable_categories: vec![],
        disable_rules: vec![],
        enable_rules: vec![],
        enable_only: false,
        language: "en-US".to_owned(),
        picky: false,
        no_cache,
        show_all,
    }
}

fn block(text: &str, file_line: usize) -> Doc {
    Doc {
        text: vec![DocLine {
            text: chars(text),
            span: DocSpan::new(
                DocPos::new(file_line, 1),
                DocPos::new(file_line, 1 + text.len() + 3),
            ),
        }],
        check_response: None,
    }
}

fn canned(message: &str) -> CheckResponse {
    CheckResponse {
        matches: vec![CheckMatch {
            offset: 0,
            length: 2,
            message: chars(message),
            rule_id: chars("R"),
            rule_description: chars("d"),
            category_id: chars("C"),
            replacements: vec![],
            context: MatchContext { text: chars("ab"), offset: 0, length: 2 },
        }],
    }
}

#[test]
fn cached_blocks_are_suppressed_unless_shown() {
    let mut store = SledCacheStore::new(&fresh_dir("suppress")).unwrap();
    let cfg = config(false, false);

    let mut first = block("An sentence.", 1);
    let mut calls = 0u32;
    let outcome = first
        .checked(&cfg, &mut store, |_q| {
            calls += 1;
            Ok(canned("seen"))
        })
        .unwrap();
    assert_eq!(outcome, CheckOutcome::Checked(CacheStatus::Stored));
    assert_eq!(calls, 1);
    assert!(first.check_response.is_some());

    // Same block text, cache hit, "show all" off: the block is skipped,
    // no check runs, and nothing is reported.
    let mut second = block("An sentence.", 1);
    let mut second_calls = 0u32;
    let outcome = second
        .checked(&cfg, &mut store, |_q| {
            second_calls += 1;
            Ok(canned("unseen"))
        })
        .unwrap();
    assert_eq!(outcome, CheckOutcome::Skipped);
    assert_eq!(second_calls, 0);
    assert!(second.check_response.is_none());

    // With "show all" on, the cached response is reported again without a
    // fresh check.
    let show_cfg = config(false, true);
    let mut third = block("An sentence.", 1);
    let mut third_calls = 0u32;
    let outcome = third
        .checked(&show_cfg, &mut store, |_q| {
            third_calls += 1;
            Ok(canned("fresh"))
        })
        .unwrap();
    assert_eq!(outcome, CheckOutcome::Checked(CacheStatus::Hit));
    assert_eq!(third_calls, 0);
    assert_eq!(third.check_response.unwrap().matches[0].message, chars("seen"));
}

#[test]
fn no_cache_always_computes_fresh() {
    let mut store = SledCacheStore::new(&fresh_dir("nocache")).unwrap();
    let cfg = config(true, false);
    let mut calls = 0u32;

    let mut one = block("Same text.", 1);
    one.checked(&cfg, &mut store, |_q| {
        calls += 1;
        Ok(canned("first"))
    })
    .unwrap();
    let mut two = block("Same text.", 1);
    two.checked(&cfg, &mut store, |_q| {
        calls += 1;
        Ok(canned("second"))
    })
    .unwrap();
    assert_eq!(calls, 2);
    assert_eq!(two.check_response.unwrap().matches[0].message, chars("second"));
}

#[test]
fn network_failure_is_propagated_and_nothing_is_stored() {
    let mut store = SledCacheStore::new(&fresh_dir("netfail")).unwrap();
    let cfg = config(false, false);
    let mut doc = block("Unreachable.", 1);
    let err = doc
        .checked(&cfg, &mut store, |_q| {
            Err(RemoteError { message: "connection refused".to_owned() })
        })
        .unwrap_err();
    assert_eq!(err.message, "connection refused");
    assert!(doc.check_response.is_none());
    assert!(!store.hits(&cfg.check_request(chars("Unreachable."))).unwrap());
}

#[test]
fn one_failing_block_does_not_stop_its_siblings() {
    let mut store = SledCacheStore::new(&fresh_dir("siblings")).unwrap();
    let cfg = config(false, false);
    let mut docs = Docs {
        original: RawDocs(vec![]),
        fixed: vec![block("Fails here.", 1), block("Works here.", 3)],
    };
    let outcomes = docs.checked(&cfg, &mut store, &|q| {
        if q.text == chars("Fails here.") {
            Err(RemoteError { message: "boom".to_owned() })
        } else {
            Ok(canned("ok"))
        }
    });
    assert_eq!(outcomes.len(), 2);
    assert!(outcomes[0].is_err());
    assert_eq!(*outcomes[1].as_ref().unwrap(), CheckOutcome::Checked(CacheStatus::Stored));
    assert!(docs.fixed[0].check_response.is_none());
    assert!(docs.fixed[1].check_response.is_some());
}

#[test]
fn check_request_reflects_the_configuration() {
    let mut cfg = config(false, false);
    cfg.picky = true;
    cfg.enable_categories = vec![Categories::Grammar, Categories::ConfusedWords];
    cfg.disable_categories = vec![Categories::Typos];
    cfg.enable_rules = vec!["R1".to_owned()];
    cfg.disable_rules = vec!["R2".to_owned()];
    cfg.enable_only = true;
    cfg.username = Some("user".to_owned());
    cfg.api_key = Some("key".to_owned());
    let req = cfg.check_request(chars("Some text."));
    assert_eq!(req.text, chars("Some text."));
    assert_eq!(req.language, "en-US");
    assert_eq!(req.level, CheckLevel::Picky);
    assert_eq!(req.username.as_deref(), Some("user"));
    assert_eq!(req.api_key.as_deref(), Some("key"));
    assert_eq!(req.enabled_categories, vec!["GRAMMAR".to_owned(), "CONFUSED_WORDS".to_owned()]);
    assert_eq!(req.disabled_categories, vec!["TYPOS".to_owned()]);
    assert_eq!(req.enabled_rules, vec!["R1".to_owned()]);
    assert_eq!(req.disabled_rules, vec!["R2".to_owned()]);
    assert!(req.enabled_only);

    // One credential alone is not sent.
    let mut partial = config(false, false);
    partial.username = Some("user".to_owned());
    let req = partial.check_request(chars("t"));
    assert!(req.username.is_none());
    assert!(req.api_key.is_none());
}
