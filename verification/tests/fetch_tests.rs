use std::collections::HashMap;

use sb_watcher::config::Config;
use sb_watcher::fetch::{check_status, page_source, Body, FetchError, PageSource, MAX_BODY_BYTES};

fn cfg_with(k: &str, v: &str) -> Config {
    let mut m = HashMap::new();
    m.insert("TELOXIDE_TOKEN".to_string(), "123:ABC".to_string());
    m.insert(k.to_string(), v.to_string());
    Config::from_map(&m).unwrap()
}

#[test]
fn blocking_statuses_are_recognised() {
    assert!(FetchError::Blocked(429).is_blocked());
    assert!(FetchError::Blocked(403).is_blocked());
    assert!(!FetchError::Http(500).is_blocked());
    assert!(!FetchError::Network("timeout".into()).is_blocked());
    assert!(!FetchError::Io("gone".into()).is_blocked());
    assert!(!FetchError::TooLarge(1).is_blocked());
}

#[test]
fn fixture_path_bypasses_the_network() {
    let cfg = cfg_with("SB_WATCHER_FIXTURE_PATH", "tests/fixtures/empty_resale.html");
    assert_eq!(
        page_source(&cfg),
        PageSource::Fixture("tests/fixtures/empty_resale.html".to_string())
    );
    let cfg = cfg_with("TARGET_URL", "https://example.test");
    assert_eq!(page_source(&cfg), PageSource::Site("https://example.test".to_string()));
}

#[test]
fn statuses_are_sorted_into_pages_blocks_and_failures() {
    assert_eq!(check_status(200), Ok(()));
    assert_eq!(check_status(299), Ok(()));
    assert_eq!(check_status(403), Err(FetchError::Blocked(403)));
    assert_eq!(check_status(429), Err(FetchError::Blocked(429)));
    assert_eq!(check_status(199), Err(FetchError::Http(199)));
    assert_eq!(check_status(300), Err(FetchError::Http(300)));
    assert_eq!(check_status(404), Err(FetchError::Http(404)));
    assert_eq!(check_status(500), Err(FetchError::Http(500)));
}

#[test]
fn failures_are_told_in_words() {
    assert_eq!(FetchError::Blocked(429).message(), "blocked by the site (HTTP 429)");
    assert_eq!(FetchError::Http(500).message(), "HTTP 500");
    assert_eq!(FetchError::Network("timeout".into()).message(), "network error: timeout");
    assert_eq!(FetchError::Io("no such file".into()).message(), "fixture read error: no such file");
    assert_eq!(
        FetchError::TooLarge(MAX_BODY_BYTES).message(),
        "response larger than 2097152 bytes"
    );
}

#[test]
fn an_oversized_body_is_rejected_before_it_is_buffered() {
    assert_eq!(
        Body::announced(Some(MAX_BODY_BYTES as u64 + 1)).unwrap_err(),
        FetchError::TooLarge(MAX_BODY_BYTES)
    );
    let mut body = Body::announced(Some(MAX_BODY_BYTES as u64)).unwrap();
    let half = vec![b'a'; MAX_BODY_BYTES / 2];
    assert_eq!(body.receive(&half), Ok(()));
    assert_eq!(body.receive(&half), Ok(()), "the cap itself is not too large");
    assert_eq!(body.receive(b"a"), Err(FetchError::TooLarge(MAX_BODY_BYTES)));
    assert_eq!(body.into_text().len(), MAX_BODY_BYTES, "what came in before is kept");
}

#[test]
fn a_body_is_put_together_from_its_chunks() {
    let mut body = Body::announced(None).unwrap();
    let page = "Ticketbörse — 45,20 €".as_bytes();
    // The cut goes through the middle of a character.
    let cut = page.iter().position(|b| *b == 0xb6).unwrap();
    body.receive(&page[..cut]).unwrap();
    body.receive(&[]).unwrap();
    body.receive(&page[cut..]).unwrap();
    assert_eq!(body.into_text(), "Ticketbörse — 45,20 €");
}

#[test]
fn bytes_that_are_not_utf8_are_replaced() {
    let mut body = Body::announced(None).unwrap();
    body.receive(&[b'a', 0xff, b'b']).unwrap();
    assert_eq!(body.into_text(), "a\u{fffd}b");
}
