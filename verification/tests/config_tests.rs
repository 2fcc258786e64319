use std::collections::HashMap;

use sb_watcher::clock::Duration;
use sb_watcher::config::{
    start_mode, Config, ConfigError, StartMode, DEFAULT_TARGET_URL, DEFAULT_USER_AGENT,
};

fn base() -> HashMap<String, String> {
    let mut m = HashMap::new();
    m.insert("TELOXIDE_TOKEN".into(), "123:ABC".into());
    m
}

fn with(key: &str, value: &str) -> HashMap<String, String> {
    let mut m = base();
    m.insert(key.to_string(), value.to_string());
    m
}

#[test]
fn requires_token() {
    let cfg = Config::from_map(&HashMap::new());
    assert!(cfg.is_err(), "missing token must be a hard startup error");
}

#[test]
fn applies_defaults() {
    let cfg = Config::from_map(&base()).unwrap();
    assert_eq!(cfg.poll_interval, Duration::from_secs(60));
    assert_eq!(cfg.target_url, DEFAULT_TARGET_URL);
    assert_eq!(cfg.user_agent, DEFAULT_USER_AGENT);
    assert_eq!(cfg.chat_id, None);
    assert_eq!(cfg.ntfy_topic, None);
    assert_eq!(cfg.fixture_path, None);
    assert!(!cfg.discovery);
}

#[test]
fn the_defaults_are_the_festival_page_and_a_browser() {
    assert_eq!(
        DEFAULT_TARGET_URL,
        "https://www.sbtix.de/catalog/tickets/\
         98430-tickets-summer-breeze-2027-summer-breeze-open-air-dinkelsbuehl-am-18-08-2027"
    );
    assert_eq!(
        DEFAULT_USER_AGENT,
        "Mozilla/5.0 (Macintosh; Intel Mac OS X 10_15_7) \
         AppleWebKit/537.36 (KHTML, like Gecko) Chrome/126.0 Safari/537.36"
    );
}

#[test]
fn parses_chat_id_and_topic() {
    let mut m = base();
    m.insert("TELEGRAM_CHAT_ID".into(), "-100123".into());
    m.insert("NTFY_TOPIC".into(), "secret-topic".into());
    let cfg = Config::from_map(&m).unwrap();
    assert_eq!(cfg.chat_id, Some(-100123));
    assert_eq!(cfg.ntfy_topic.as_deref(), Some("secret-topic"));
}

#[test]
fn rejects_non_numeric_chat_id() {
    let mut m = base();
    m.insert("TELEGRAM_CHAT_ID".into(), "not-a-number".into());
    assert!(Config::from_map(&m).is_err());
}

#[test]
fn rejects_zero_poll_interval() {
    let mut m = base();
    m.insert("POLL_INTERVAL_SECS".into(), "0".into());
    assert!(Config::from_map(&m).is_err(), "a zero interval would hammer the site");
}

#[test]
fn blank_optional_values_are_treated_as_unset() {
    let mut m = base();
    m.insert("NTFY_TOPIC".into(), "   ".into());
    assert_eq!(Config::from_map(&m).unwrap().ntfy_topic, None);
}

#[test]
fn every_fault_has_its_error_and_its_words() {
    let cases = vec![
        (
            HashMap::new(),
            ConfigError::MissingToken,
            "TELOXIDE_TOKEN is required — create a bot with @BotFather",
        ),
        (
            with("TELOXIDE_TOKEN", " \t "),
            ConfigError::MissingToken,
            "TELOXIDE_TOKEN is required — create a bot with @BotFather",
        ),
        (
            with("TELEGRAM_CHAT_ID", " 12 \"x\" "),
            ConfigError::BadChatId("12 \"x\"".to_string()),
            "TELEGRAM_CHAT_ID must be an integer, got \"12 \\\"x\\\"\"",
        ),
        (
            with("TELEGRAM_CHAT_ID", "9223372036854775808"),
            ConfigError::BadChatId("9223372036854775808".to_string()),
            "TELEGRAM_CHAT_ID must be an integer, got \"9223372036854775808\"",
        ),
        (
            with("POLL_INTERVAL_SECS", "-5"),
            ConfigError::BadPollInterval("-5".to_string()),
            "POLL_INTERVAL_SECS must be an integer, got \"-5\"",
        ),
        (
            with("POLL_INTERVAL_SECS", "000"),
            ConfigError::ZeroPollInterval,
            "POLL_INTERVAL_SECS must be greater than zero",
        ),
    ];
    for (map, error, words) in cases {
        let got = Config::from_map(&map).unwrap_err();
        assert_eq!(got, error);
        assert_eq!(got.message(), words);
    }
}

#[test]
fn the_first_fault_is_reported() {
    let mut m = with("TELEGRAM_CHAT_ID", "x");
    m.insert("POLL_INTERVAL_SECS".into(), "0".into());
    assert_eq!(Config::from_map(&m).unwrap_err(), ConfigError::BadChatId("x".to_string()));
    m.remove("TELOXIDE_TOKEN");
    assert_eq!(Config::from_map(&m).unwrap_err(), ConfigError::MissingToken);
}

#[test]
fn values_are_trimmed_and_other_variables_do_not_count() {
    let mut m = HashMap::new();
    m.insert("TELOXIDE_TOKEN".to_string(), "\u{a0}123:ABC \n".to_string());
    m.insert("TELEGRAM_CHAT_ID".to_string(), " +42 ".to_string());
    m.insert("POLL_INTERVAL_SECS".to_string(), "10\n".to_string());
    m.insert("TARGET_URL".to_string(), " https://example.test ".to_string());
    m.insert("USER_AGENT".to_string(), " probe/1 ".to_string());
    m.insert("SB_WATCHER_FIXTURE_PATH".to_string(), " page.html ".to_string());
    m.insert("PATH".to_string(), "/bin".to_string());
    let cfg = Config::from_map(&m).unwrap();
    assert_eq!(cfg.telegram_token, "123:ABC");
    assert_eq!(cfg.chat_id, Some(42));
    assert_eq!(cfg.poll_interval, Duration::from_secs(10));
    assert_eq!(cfg.target_url, "https://example.test");
    assert_eq!(cfg.user_agent, "probe/1");
    assert_eq!(cfg.fixture_path.as_deref(), Some("page.html"));
}

#[test]
fn integers_read_as_the_standard_library_reads_them() {
    for s in [
        "0", "7", "-7", "+7", "-0", "007", "-", "+", "", "1 2", "--1", "+-1", "0x10", "1_000", "٣",
        "9223372036854775807", "-9223372036854775808", "9223372036854775808",
        "-9223372036854775809", "18446744073709551615", "18446744073709551616",
        "00000000000000000000000000000000000000000000000042",
    ] {
        assert_eq!(sb_watcher::text::parse_i64(s), s.parse::<i64>().ok(), "{s}");
        assert_eq!(sb_watcher::text::parse_u64(s), s.parse::<u64>().ok(), "{s}");
    }
}

#[test]
fn discovery_takes_a_yes_in_any_case() {
    for yes in ["1", "true", "TRUE", "Yes", " yes "] {
        assert!(Config::from_map(&with("SB_WATCHER_DISCOVERY", yes)).unwrap().discovery, "{yes}");
    }
    for no in ["0", "no", "on", "", "  ", "11", "ja"] {
        assert!(!Config::from_map(&with("SB_WATCHER_DISCOVERY", no)).unwrap().discovery, "{no}");
    }
}

#[test]
fn requires_chat_id_unless_discovery_is_explicit() {
    let refused = start_mode(&Config::from_map(&base()).unwrap()).unwrap_err();
    assert_eq!(refused, ConfigError::MissingChatId);
    assert!(
        refused.message().contains("SB_WATCHER_DISCOVERY"),
        "the error must say how to fix it: {}",
        refused.message()
    );

    let cfg = Config::from_map(&with("SB_WATCHER_DISCOVERY", "1")).unwrap();
    assert!(cfg.discovery);
    assert_eq!(cfg.chat_id, None);
    assert_eq!(start_mode(&cfg), Ok(StartMode::Discovery));

    let cfg = Config::from_map(&with("TELEGRAM_CHAT_ID", "-7")).unwrap();
    assert_eq!(start_mode(&cfg), Ok(StartMode::Watch(-7)));
}

#[test]
fn blank_chat_id_is_a_startup_error_not_silent_discovery() {
    let cfg = Config::from_map(&with("TELEGRAM_CHAT_ID", "  ")).unwrap();
    assert_eq!(start_mode(&cfg), Err(ConfigError::MissingChatId));
}
