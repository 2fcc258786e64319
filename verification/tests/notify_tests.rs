use std::collections::HashMap;

use sb_watcher::config::Config;
use sb_watcher::notify::{
    channels_for, message_text, ntfy_accepted, ntfy_priority, ntfy_request, truncate_message,
    Channel, FakeNotifier, FanOut, FanStep, CUT_MARKER, CUT_MARKER_BYTES, MAX_MESSAGE_BYTES,
    NTFY_DEFAULT_BASE_URL,
};
use sb_watcher::state::{Alert, AlertKind, Severity};

fn alert() -> Alert {
    Alert::new(AlertKind::ResaleAvailable, Severity::Max, "title", "body")
}

/// Drive an alert to every channel.
fn send_to_all(channels: &mut [FakeNotifier], alert: &Alert) -> Result<(), String> {
    let mut way = FanOut::new(channels.len());
    loop {
        match way.step() {
            FanStep::Try(i) => {
                let outcome = channels[i].send(alert);
                way.record(outcome);
            }
            FanStep::Done(result) => return result,
        }
    }
}

#[test]
fn fake_records_what_it_was_sent() {
    let mut f = FakeNotifier::new();
    f.send(&alert()).unwrap();
    assert_eq!(f.sent().len(), 1);
    assert_eq!(f.sent()[0].title, "title");
}

#[test]
fn a_fake_fails_once_on_demand() {
    let mut f = FakeNotifier::new();
    f.fail_next();
    assert_eq!(f.send(&alert()), Err("simulated failure".to_string()));
    assert!(f.sent().is_empty());
    assert_eq!(f.send(&alert()), Ok(()));
    assert_eq!(f.sent(), vec![alert()]);
}

#[test]
fn multi_sends_to_every_channel() {
    let mut both = vec![FakeNotifier::new(), FakeNotifier::new()];
    send_to_all(&mut both, &alert()).unwrap();
    assert_eq!(both[0].sent().len(), 1);
    assert_eq!(both[1].sent().len(), 1);
}

#[test]
fn multi_still_delivers_when_one_channel_fails() {
    // The whole reason a second channel exists.
    let mut both = vec![FakeNotifier::new(), FakeNotifier::new()];
    both[0].fail_next();
    let r = send_to_all(&mut both, &alert());
    assert!(r.is_ok(), "one channel reaching the user counts as delivered");
    assert_eq!(both[1].sent().len(), 1, "the healthy channel must still have fired");
}

#[test]
fn multi_with_no_channels_fails_loudly() {
    let result = send_to_all(&mut [], &alert());
    assert!(result.is_err(), "zero channels cannot count as delivered");
    assert_eq!(result, Err("no notifier channels configured".to_string()));
}

#[test]
fn multi_fails_only_when_every_channel_fails() {
    let mut both = vec![FakeNotifier::new(), FakeNotifier::new()];
    both[0].fail_next();
    both[1].fail_next();
    let r = send_to_all(&mut both, &alert());
    assert!(r.is_err(), "nobody got it, so it was not delivered");
    assert_eq!(
        r,
        Err("all 2 channels failed: simulated failure; simulated failure".to_string())
    );
}

#[test]
fn ntfy_priority_reflects_severity() {
    assert_eq!(ntfy_priority(Severity::Max), "max");
    assert_eq!(ntfy_priority(Severity::Info), "default");
}

#[test]
fn ntfy_posts_to_the_topic_with_max_priority_for_max_alerts() {
    let r = ntfy_request("http://127.0.0.1:9/", "my-topic", &alert());
    assert_eq!(r.url, "http://127.0.0.1:9/my-topic");
    assert_eq!(r.priority, "max");
    assert_eq!(r.title, "sb-watcher");
    assert_eq!(r.tags, "ticket");
    assert_eq!(r.body, "title\n\nbody");
    assert!(r.title.is_ascii(), "headers must be ASCII");

    let info = Alert::new(AlertKind::Heartbeat, Severity::Info, "t", "b");
    let r = ntfy_request(NTFY_DEFAULT_BASE_URL, "x", &info);
    assert_eq!(r.url, "https://ntfy.sh/x");
    assert_eq!(r.priority, "default");
    assert_eq!(ntfy_request("//", "x", &info).url, "/x");
}

#[test]
fn ntfy_reports_a_server_error_as_a_failure() {
    assert!(!ntfy_accepted(500), "a 5xx must surface");
    assert!(!ntfy_accepted(199));
    assert!(!ntfy_accepted(300));
    assert!(ntfy_accepted(200));
    assert!(ntfy_accepted(299));
}

#[test]
fn short_messages_are_untouched() {
    assert_eq!(truncate_message("hello", 4000), "hello");
}

#[test]
fn long_messages_are_cut_at_a_char_boundary_and_marked() {
    // Multi-byte chars: naive slicing would panic mid-codepoint.
    let long = "é".repeat(3000); // 6000 bytes
    let out = truncate_message(&long, MAX_MESSAGE_BYTES);
    assert!(out.len() <= MAX_MESSAGE_BYTES, "{} bytes", out.len());
    assert!(out.ends_with("[…]"), "must show that it was cut");
    assert!(out.starts_with("ééé"));
    assert_eq!(out, format!("{}\n[…]", "é".repeat(1997)));
    assert_eq!(truncate_message(&out, MAX_MESSAGE_BYTES), out, "cut once is cut");
}

#[test]
fn limits_smaller_than_the_marker_are_still_respected() {
    for max_bytes in 0.."\n[…]".len() {
        let out = truncate_message("ééé", max_bytes);
        assert!(
            out.len() <= max_bytes,
            "limit {max_bytes} produced {} bytes: {out:?}",
            out.len()
        );
    }
}

#[test]
fn cuts_fall_where_they_must() {
    assert_eq!(CUT_MARKER.len(), CUT_MARKER_BYTES);
    assert_eq!(truncate_message("ééé", 6), "ééé", "it fits");
    assert_eq!(truncate_message("ééé", 5), "éé", "no room for the marker");
    assert_eq!(truncate_message("éééa", 6), "\n[…]", "the marker takes all the room");
    assert_eq!(truncate_message("aéééé", 8), "a\n[…]", "no half characters");
    assert_eq!(truncate_message("abc", 0), "");
}

#[test]
fn a_message_is_title_and_body_within_the_limit() {
    assert_eq!(message_text(&alert()), "title\n\nbody");
    let long = Alert::new(AlertKind::Heartbeat, Severity::Info, "t", &"x".repeat(5000));
    assert_eq!(message_text(&long), format!("t\n\n{}\n[…]", "x".repeat(3991)));
    assert_eq!(message_text(&long).len(), MAX_MESSAGE_BYTES);
}

#[test]
fn the_topic_decides_whether_there_is_a_second_channel() {
    let mut m = HashMap::new();
    m.insert("TELOXIDE_TOKEN".to_string(), "123:ABC".to_string());
    let cfg = Config::from_map(&m).unwrap();
    assert_eq!(channels_for(&cfg, 5), vec![Channel::Telegram(5)]);
    m.insert("NTFY_TOPIC".to_string(), "topic".to_string());
    let cfg = Config::from_map(&m).unwrap();
    assert_eq!(
        channels_for(&cfg, 5),
        vec![Channel::Telegram(5), Channel::Ntfy("topic".to_string())]
    );
}
