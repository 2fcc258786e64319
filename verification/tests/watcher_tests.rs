use std::collections::HashMap;

use sb_watcher::clock::{Duration, Timestamp};
use sb_watcher::config::Config;
use sb_watcher::fetch::FetchError;
use sb_watcher::parse::{MainStock, PageObservation, ParseError, ResaleState};
use sb_watcher::state::{Alert, AlertKind, Severity};
use sb_watcher::watcher::{
    acknowledge, apply_failure, apply_observation, apply_structure_error, backoff_after,
    failure_warning_due, fold_poll, maybe_heartbeat, next_backoff, poll_once, record_delivery,
    settle, should_repeat, startup_alert, AlertRepeat, AppState, Next, Outbox, BACKOFF_MAX_SECS,
    BLOCKED_BACKOFF_SECS, REPEAT_CAP,
};

fn t(min: i64) -> Timestamp {
    Timestamp::from_unix(1_800_000_000 + min * 60, 0).unwrap()
}

fn cfg() -> Config {
    let mut m = HashMap::new();
    m.insert("TELOXIDE_TOKEN".to_string(), "123:ABC".to_string());
    m.insert("TELEGRAM_CHAT_ID".to_string(), "1".to_string());
    m.insert("TARGET_URL".to_string(), "url".to_string());
    Config::from_map(&m).unwrap()
}

fn backoff_max() -> Duration {
    Duration::from_secs(BACKOFF_MAX_SECS)
}

fn blocked_backoff() -> Duration {
    Duration::from_secs(BLOCKED_BACKOFF_SECS)
}

const NO_CARD: &str = "<html><body>maintenance</body></html>";

const EMPTY_PAGE: &str = r#"<turbo-frame id="ticket_detail"><div class="alert-danger">Ausverkauft</div></turbo-frame>
    <div class="card"><div class="card-header"><h2>Ticketbörse</h2></div>
    <div>Es gibt aktuell keine Tickets zum Weiterverkauf.</div></div>"#;

const AVAILABLE_PAGE: &str = r#"<turbo-frame id="ticket_detail"><div class="alert-danger">Ausverkauft</div></turbo-frame>
    <div class="card"><div class="card-header"><h2>Ticketbörse</h2></div>
    <ul><li id="voucher_swap_1"><div class="fs-6">Festivalticket</div>
    <div class="col-auto">45,20&#8239;€</div></li></ul></div>"#;

fn net_err() -> Result<String, FetchError> {
    Err(FetchError::Network("timeout".into()))
}

/// Simulate the loop delivering every Max alert successfully.
fn deliver_all(st: &mut AppState, alerts: &[Alert]) {
    for a in alerts {
        settle(st, a, true);
    }
}

fn kinds(alerts: &[Alert]) -> Vec<AlertKind> {
    alerts.iter().map(|a| a.kind).collect()
}

fn empty_obs() -> PageObservation {
    PageObservation {
        resale: ResaleState::Empty,
        resale_text: "Ticketbörse Es gibt aktuell keine Tickets zum Weiterverkauf.".into(),
        listings: vec![],
        main: MainStock::SoldOut,
    }
}

fn available_obs() -> PageObservation {
    PageObservation {
        resale: ResaleState::Available,
        resale_text: "Ticketbörse In den Warenkorb".into(),
        listings: vec![],
        main: MainStock::SoldOut,
    }
}

fn main_on_sale_obs() -> PageObservation {
    PageObservation {
        resale: ResaleState::Empty,
        resale_text: "Ticketbörse Es gibt aktuell keine Tickets zum Weiterverkauf.".into(),
        listings: vec![],
        main: MainStock::OnSale,
    }
}

// ---------- backing off ----------

#[test]
fn backoff_doubles_from_the_poll_interval_and_caps() {
    let base = Duration::from_secs(60);
    assert_eq!(next_backoff(None, base), Duration::from_secs(60));
    assert_eq!(
        next_backoff(Some(Duration::from_secs(60)), base),
        Duration::from_secs(120)
    );
    assert_eq!(
        next_backoff(Some(Duration::from_secs(120)), base),
        Duration::from_secs(240)
    );
    assert_eq!(
        next_backoff(Some(Duration::from_secs(240)), base),
        Duration::from_secs(480)
    );
    assert_eq!(next_backoff(Some(Duration::from_secs(480)), base), backoff_max());
    assert_eq!(next_backoff(Some(backoff_max()), base), backoff_max());
    assert_eq!(backoff_max(), Duration::from_secs(600));
}

#[test]
fn a_poll_interval_beyond_the_cap_is_cut_to_it() {
    assert_eq!(next_backoff(None, Duration::from_secs(3600)), backoff_max());
}

#[test]
fn a_block_after_a_transient_failure_still_waits_the_blocked_floor() {
    let base = Duration::from_secs(60);
    assert_eq!(backoff_after(None, base, true), blocked_backoff());
    assert_eq!(backoff_after(Some(Duration::from_secs(60)), base, true), blocked_backoff());
    assert_eq!(backoff_after(Some(blocked_backoff()), base, true), backoff_max());
    // Not blocked: the floor does not apply.
    assert_eq!(
        backoff_after(Some(Duration::from_secs(60)), base, false),
        Duration::from_secs(120)
    );
    assert_eq!(blocked_backoff(), Duration::from_secs(300));
}

// ---------- reminders ----------

#[test]
fn repeat_waits_the_interval() {
    let r = AlertRepeat {
        kind: AlertKind::ResaleAvailable,
        sent_at: t(0),
        count: 1,
        delivered: true,
    };
    assert!(!should_repeat(&r, t(4)), "too soon");
    assert!(should_repeat(&r, t(5)), "five minutes have passed");
}

#[test]
fn repeat_stops_at_the_cap() {
    let r = AlertRepeat {
        kind: AlertKind::ResaleAvailable,
        sent_at: t(0),
        count: REPEAT_CAP,
        delivered: true,
    };
    assert!(!should_repeat(&r, t(60)), "cap reached, stop pinging");
}

#[test]
fn failure_warning_is_time_based_not_attempt_based() {
    // Under backoff, ten attempts take over an hour; a count-based rule
    // would leave the watcher silently blind through a whole drop.
    assert!(!failure_warning_due(Some(t(0)), t(14)));
    assert!(failure_warning_due(Some(t(0)), t(15)));
    assert!(!failure_warning_due(None, t(99)));
}

#[test]
fn a_drop_alerts_once_then_repeats_on_schedule_then_stops() {
    let mut st = AppState::new(t(0));
    st.last = Some(empty_obs());
    let mut sent = Vec::new();

    // The drop happens.
    let a = apply_observation(&mut st, available_obs(), t(0), "url");
    deliver_all(&mut st, &a);
    sent.extend(a);
    assert_eq!(sent.len(), 1);
    assert_eq!(st.repeats[0].count, 0, "no reminders sent yet");

    // Still available a minute later: too soon to repeat.
    let a = apply_observation(&mut st, available_obs(), t(1), "url");
    deliver_all(&mut st, &a);
    sent.extend(a);
    assert_eq!(sent.len(), 1, "must not spam every poll");

    // Five minutes on: one reminder.
    let a = apply_observation(&mut st, available_obs(), t(5), "url");
    deliver_all(&mut st, &a);
    sent.extend(a);
    assert_eq!(sent.len(), 2);

    // Drive past the cap.
    for m in [10, 15, 20, 25, 30, 35, 40] {
        let a = apply_observation(&mut st, available_obs(), t(m), "url");
        deliver_all(&mut st, &a);
        sent.extend(a);
    }
    assert_eq!(sent.len(), 1 + REPEAT_CAP as usize, "stops after the cap");
}

#[test]
fn stock_going_away_clears_the_repeat() {
    let mut st = AppState::new(t(0));
    st.last = Some(empty_obs());
    let a = apply_observation(&mut st, available_obs(), t(0), "url");
    deliver_all(&mut st, &a);
    assert_eq!(st.repeats.len(), 1);
    apply_observation(&mut st, empty_obs(), t(1), "url");
    assert!(st.repeats.is_empty(), "no point reminding about stock that is gone");
}

#[test]
fn an_undelivered_alert_is_retried_next_poll_without_counting_toward_the_cap() {
    let mut st = AppState::new(t(0));
    st.last = Some(empty_obs());

    // The drop fires, but the loop reports that no channel accepted it.
    let a = apply_observation(&mut st, available_obs(), t(0), "url");
    assert_eq!(a.len(), 1);
    record_delivery(&mut st, AlertKind::ResaleAvailable, false);

    // Next poll, one minute later: resend at once, not in five minutes.
    let retry = apply_observation(&mut st, available_obs(), t(1), "url");
    assert_eq!(retry.len(), 1, "an undelivered Max alert must be retried immediately");
    assert_eq!(retry[0].severity, Severity::Max);
    assert!(retry[0].body.contains("could not be delivered"), "{}", retry[0].body);
    assert_eq!(st.repeats[0].count, 0, "retries do not eat into the reminder cap");
    deliver_all(&mut st, &retry);

    // Delivered now, so the regular schedule resumes from the retry.
    assert!(apply_observation(&mut st, available_obs(), t(2), "url").is_empty());
    let reminder = apply_observation(&mut st, available_obs(), t(6), "url");
    assert_eq!(reminder.len(), 1);
    assert!(reminder[0].body.contains("Reminder 1 of"), "{}", reminder[0].body);
}

#[test]
fn main_on_sale_reminders_describe_the_main_shop_not_the_resale() {
    let mut st = AppState::new(t(0));
    st.last = Some(empty_obs());
    let a = apply_observation(&mut st, main_on_sale_obs(), t(0), "url");
    assert_eq!(a[0].kind, AlertKind::MainOnSale);
    deliver_all(&mut st, &a);

    let reminder = apply_observation(&mut st, main_on_sale_obs(), t(5), "url");
    assert_eq!(reminder.len(), 1);
    assert_eq!(reminder[0].kind, AlertKind::MainOnSale);
    assert!(reminder[0].body.contains("main shop"), "{}", reminder[0].body);
    assert!(
        !reminder[0].body.contains("no offers could be parsed"),
        "must not claim resale stock that does not exist: {}",
        reminder[0].body
    );
}

#[test]
fn resale_going_empty_stops_resale_reminders_even_while_main_is_on_sale() {
    let mut st = AppState::new(t(0));
    st.last = Some(empty_obs());
    let both = PageObservation {
        resale: ResaleState::Available,
        resale_text: "Ticketbörse In den Warenkorb".into(),
        listings: vec![],
        main: MainStock::OnSale,
    };
    let a = apply_observation(&mut st, both, t(0), "url");
    assert_eq!(a.len(), 2, "resale and main both fire");
    deliver_all(&mut st, &a);
    assert_eq!(st.repeats.len(), 2);

    // Resale sells out; main stays on sale.
    let a = apply_observation(&mut st, main_on_sale_obs(), t(1), "url");
    deliver_all(&mut st, &a);
    assert_eq!(st.repeats.len(), 1);
    assert_eq!(st.repeats[0].kind, AlertKind::MainOnSale);

    let reminders = apply_observation(&mut st, main_on_sale_obs(), t(6), "url");
    assert_eq!(reminders.len(), 1, "only the main-shop reminder remains");
    assert_eq!(reminders[0].kind, AlertKind::MainOnSale);
}

#[test]
fn an_info_alert_on_the_same_poll_does_not_delay_a_due_reminder() {
    let mut st = AppState::new(t(0));
    st.last = Some(empty_obs());
    let a = apply_observation(&mut st, available_obs(), t(0), "url");
    deliver_all(&mut st, &a);

    // At t+5 the main shop also sells out again (Info) while resale stays up.
    let mut with_main_sold_out_again = available_obs();
    with_main_sold_out_again.main = MainStock::SoldOut;
    st.last.as_mut().unwrap().main = MainStock::OnSale;
    let a = apply_observation(&mut st, with_main_sold_out_again, t(5), "url");
    let kinds = kinds(&a);
    assert!(kinds.contains(&AlertKind::MainSoldOut), "{kinds:?}");
    assert!(kinds.contains(&AlertKind::ResaleAvailable), "reminder must still go out: {kinds:?}");
}

#[test]
fn repeated_alerts_read_as_they_should() {
    let mut st = AppState::new(t(0));
    st.last = Some(empty_obs());
    let mut both = available_obs();
    both.main = MainStock::OnSale;
    apply_observation(&mut st, both.clone(), t(0), "url");
    record_delivery(&mut st, AlertKind::MainOnSale, true);
    let a = apply_observation(&mut st, both.clone(), t(5), "url");
    assert_eq!(
        a,
        vec![
            Alert::new(
                AlertKind::ResaleAvailable,
                Severity::Max,
                "🎟️ STILL AVAILABLE",
                "The previous alert could not be delivered.\n\n\
                 The Ticketbörse is no longer empty, but no offers could be parsed. \
                 Check the page yourself:\n\nTicketbörse In den Warenkorb\n\nurl"
            ),
            Alert::new(
                AlertKind::MainOnSale,
                Severity::Max,
                "🎟️ STILL AVAILABLE",
                "Reminder 1 of 6.\n\nThe main shop is still not showing 'Ausverkauft'.\n\nurl"
            ),
        ]
    );
    assert_eq!(
        st.repeats,
        vec![
            AlertRepeat {
                kind: AlertKind::ResaleAvailable,
                sent_at: t(5),
                count: 0,
                delivered: false,
            },
            AlertRepeat {
                kind: AlertKind::MainOnSale,
                sent_at: t(5),
                count: 1,
                delivered: false,
            },
        ]
    );
}

#[test]
fn a_second_drop_starts_over() {
    let mut st = AppState::new(t(0));
    st.last = Some(empty_obs());
    let a = apply_observation(&mut st, available_obs(), t(0), "url");
    deliver_all(&mut st, &a);
    let a = apply_observation(&mut st, available_obs(), t(5), "url");
    deliver_all(&mut st, &a);
    assert_eq!(st.repeats[0].count, 1);
    apply_observation(&mut st, empty_obs(), t(6), "url");
    let a = apply_observation(&mut st, available_obs(), t(7), "url");
    assert_eq!(kinds(&a), vec![AlertKind::ResaleAvailable]);
    assert_eq!(st.repeats[0].count, 0);
    assert_eq!(st.repeats[0].sent_at, t(7));
}

#[test]
fn an_acknowledgement_silences_until_the_next_drop() {
    let mut st = AppState::new(t(0));
    st.last = Some(empty_obs());
    let a = apply_observation(&mut st, available_obs(), t(0), "url");
    deliver_all(&mut st, &a);
    assert!(acknowledge(&mut st));
    assert!(!acknowledge(&mut st), "there is nothing left to stop");
    for m in [5, 10, 60] {
        assert!(apply_observation(&mut st, available_obs(), t(m), "url").is_empty());
    }
    apply_observation(&mut st, empty_obs(), t(61), "url");
    let a = apply_observation(&mut st, available_obs(), t(62), "url");
    assert_eq!(kinds(&a), vec![AlertKind::ResaleAvailable]);
}

#[test]
fn only_max_alerts_are_followed_up() {
    let mut st = AppState::new(t(0));
    st.last = Some(empty_obs());
    let a = apply_observation(&mut st, available_obs(), t(0), "url");
    let info = Alert::new(AlertKind::ResaleAvailable, Severity::Info, "", "");
    settle(&mut st, &info, true);
    assert!(!st.repeats[0].delivered);
    settle(&mut st, &a[0], true);
    assert!(st.repeats[0].delivered);
    record_delivery(&mut st, AlertKind::MainOnSale, false);
    assert!(st.repeats[0].delivered, "another kind is not meant");
}

#[test]
fn a_change_is_dated_and_a_repetition_is_not() {
    let mut st = AppState::new(t(0));
    apply_observation(&mut st, empty_obs(), t(1), "url");
    assert_eq!(st.last_change, Some(t(1)));
    apply_observation(&mut st, empty_obs(), t(2), "url");
    assert_eq!(st.last_change, Some(t(1)));
    let mut reworded = empty_obs();
    reworded.resale_text.push('!');
    apply_observation(&mut st, reworded, t(3), "url");
    assert_eq!(st.last_change, Some(t(3)));
}

// ---------- the safety nets: these are what guarantee it never fails silently ----------

#[test]
fn missing_card_warns_immediately_but_only_once_per_day() {
    // A site redesign must never read as "all quiet", and must not spam either.
    let mut st = AppState::new(t(0));
    let card = "The Ticketbörse card";

    let first = apply_structure_error(&mut st, t(0), "url", card).expect("first one must warn");
    assert_eq!(
        first,
        Alert::new(
            AlertKind::StructureChanged,
            Severity::Info,
            "⚠️ Page structure changed",
            "The Ticketbörse card could not be found. sb-watcher may be blind and needs a code \
             update.\n\nurl"
        )
    );

    // Every poll for the next day is suppressed.
    assert!(apply_structure_error(&mut st, t(60), "url", card).is_none());
    assert!(apply_structure_error(&mut st, t(60 * 23), "url", card).is_none());

    // But it re-warns after 24h, so a lasting breakage keeps nagging.
    assert!(apply_structure_error(&mut st, t(60 * 24), "url", card).is_some());
}

#[test]
fn heartbeat_is_silent_until_due_then_fires_daily() {
    let mut st = AppState::new(t(0));
    st.checks = 1440;

    assert!(maybe_heartbeat(&mut st, t(60 * 23)).is_none(), "not due yet");

    let hb = maybe_heartbeat(&mut st, t(60 * 24)).expect("due at 24h");
    assert_eq!(hb.kind, AlertKind::Heartbeat);
    assert!(hb.body.contains("1440"), "must report the check count");
    assert_eq!(
        hb,
        Alert::new(
            AlertKind::Heartbeat,
            Severity::Info,
            "✅ sb-watcher still running",
            "1440 checks since 2027-01-15 08:00 UTC. Last change: none."
        )
    );

    // The clock resets, so it is quiet again for another day.
    assert!(maybe_heartbeat(&mut st, t(60 * 25)).is_none());
    st.last_change = Some(t(1));
    assert_eq!(
        maybe_heartbeat(&mut st, t(60 * 48)).unwrap().body,
        "1440 checks since 2027-01-15 08:00 UTC. Last change: 2027-01-15 08:01 UTC."
    );
}

#[test]
fn transient_failures_are_not_reported_but_a_sustained_outage_is() {
    let mut st = AppState::new(t(0));
    let err = FetchError::Network("timeout".into());

    assert!(apply_failure(&mut st, &err, t(0), "url").is_none());
    assert!(
        apply_failure(&mut st, &err, t(5), "url").is_none(),
        "a brief blip is not worth a message"
    );

    // 15 minutes of continuous failure means the watcher is genuinely blind.
    let warn = apply_failure(&mut st, &err, t(15), "url").expect("must warn after 15 minutes");
    assert_eq!(
        warn,
        Alert::new(
            AlertKind::FetchFailing,
            Severity::Info,
            "⚠️ sb-watcher cannot reach the site",
            "network error: timeout\n\nThe watcher is currently blind. It keeps retrying.\n\nurl"
        )
    );

    // Only once per episode, not once per poll.
    assert!(apply_failure(&mut st, &err, t(20), "url").is_none());
    assert!(
        apply_failure(&mut st, &err, t(120), "url").is_none(),
        "must not repeat the outage warning every poll"
    );
}

#[test]
fn being_blocked_warns_at_once_without_waiting() {
    // 403/429 means we are already blind, so the 15-minute grace does not apply.
    let mut st = AppState::new(t(0));
    let warn = apply_failure(&mut st, &FetchError::Blocked(429), t(0), "url").expect("warn at once");
    assert_eq!(warn.kind, AlertKind::FetchFailing);
}

#[test]
fn startup_alert_announces_the_target_and_warns_about_fixture_mode() {
    let a = startup_alert(&cfg());
    assert_eq!(a.kind, AlertKind::Started);
    assert_eq!(a.severity, Severity::Info);
    assert!(a.body.contains("url"), "must say what it watches: {}", a.body);
    assert!(!a.body.contains("FIXTURE"), "no fixture warning in normal mode: {}", a.body);
    assert_eq!(a.title, "▶️ sb-watcher started");
    assert_eq!(a.body, "Watching url every 60s.");

    let mut rehearsal = cfg();
    rehearsal.fixture_path = Some("page.html".to_string());
    assert_eq!(
        startup_alert(&rehearsal).body,
        "Watching url every 60s.\n\n⚠️ FIXTURE MODE: reading page.html instead of the live site."
    );
}

// ---------- polls ----------

#[test]
fn a_successful_poll_ends_the_failure_episode_and_waits_the_poll_interval() {
    let mut st = AppState::new(t(0));
    st.failures_since = Some(t(0));
    st.failure_warned = true;
    st.backoff = Some(backoff_max());

    let (alerts, wait) = poll_once(&mut st, Ok(EMPTY_PAGE.to_string()), t(30), &cfg());

    assert!(alerts.is_empty(), "a quiet first observation sends nothing: {alerts:?}");
    assert_eq!(wait, cfg().poll_interval);
    assert_eq!(st.failures_since, None);
    assert!(!st.failure_warned);
    assert_eq!(st.backoff, None);
}

#[test]
fn a_failed_poll_backs_off_exponentially() {
    let mut st = AppState::new(t(0));
    let waits: Vec<Duration> =
        (0..6).map(|m| poll_once(&mut st, net_err(), t(m), &cfg()).1).collect();
    let expected: Vec<Duration> =
        [60, 120, 240, 480, 600, 600].iter().map(|s| Duration::from_secs(*s)).collect();
    assert_eq!(waits, expected);
}

#[test]
fn a_blocked_poll_waits_the_blocked_backoff_and_warns() {
    let mut st = AppState::new(t(0));
    let (alerts, wait) = poll_once(&mut st, Err(FetchError::Blocked(429)), t(0), &cfg());
    assert_eq!(wait, blocked_backoff());
    assert_eq!(alerts.len(), 1);
    assert_eq!(alerts[0].kind, AlertKind::FetchFailing);
}

#[test]
fn a_drop_seen_by_the_loop_is_returned_for_the_caller_to_send() {
    let mut st = AppState::new(t(0));
    poll_once(&mut st, Ok(EMPTY_PAGE.to_string()), t(0), &cfg());
    let (alerts, _) = poll_once(&mut st, Ok(AVAILABLE_PAGE.to_string()), t(1), &cfg());
    assert_eq!(alerts[0].kind, AlertKind::ResaleAvailable);
    assert_eq!(alerts[0].severity, Severity::Max);
    assert_eq!(
        alerts[0].body,
        "1 ticket available:\n• Festivalticket — 45,20 €\n\nurl"
    );
}

#[test]
fn a_200_without_a_card_still_ends_the_failure_episode() {
    // The site answered, so "cannot reach the site" is over even though the
    // page is unrecognisable. Otherwise the NEXT outage is never reported.
    let mut st = AppState::new(t(0));
    st.failures_since = Some(t(0));
    st.failure_warned = true;
    st.backoff = Some(backoff_max());

    let (alerts, wait) = poll_once(&mut st, Ok(NO_CARD.to_string()), t(30), &cfg());

    assert_eq!(alerts.len(), 1, "the structure warning must still fire");
    assert_eq!(alerts[0].kind, AlertKind::StructureChanged);
    assert!(alerts[0].body.starts_with("The Ticketbörse card could not be found."));
    assert_eq!(wait, cfg().poll_interval);
    assert_eq!(st.failures_since, None);
    assert!(!st.failure_warned);
    assert_eq!(st.backoff, None);
}

#[test]
fn every_poll_counts_as_a_check_even_when_blind() {
    let mut st = AppState::new(t(0));
    poll_once(&mut st, net_err(), t(0), &cfg());
    poll_once(&mut st, Ok(NO_CARD.to_string()), t(1), &cfg());
    poll_once(&mut st, Ok(EMPTY_PAGE.to_string()), t(2), &cfg());
    assert_eq!(st.checks, 3, "failed and unparseable polls are still polls");
}

#[test]
fn a_missing_product_frame_raises_the_structure_warning_not_a_max_alert() {
    let html = r#"<div class="card"><div class="card-header"><h2>Ticketbörse</h2></div>
        <div>Es gibt aktuell keine Tickets zum Weiterverkauf.</div></div>"#;
    let mut st = AppState::new(t(0));
    let (alerts, _) = poll_once(&mut st, Ok(html.to_string()), t(0), &cfg());
    assert_eq!(kinds(&alerts), vec![AlertKind::StructureChanged], "{alerts:?}");
    assert!(alerts[0].body.contains("product frame"), "{}", alerts[0].body);
}

#[test]
fn one_outage_is_reported_once_and_the_next_one_again() {
    let mut st = AppState::new(t(0));
    let mut reported = Vec::new();
    for m in 0..60 {
        reported.extend(poll_once(&mut st, net_err(), t(m), &cfg()).0);
    }
    assert_eq!(kinds(&reported), vec![AlertKind::FetchFailing]);
    poll_once(&mut st, Ok(EMPTY_PAGE.to_string()), t(60), &cfg());
    let mut again = Vec::new();
    for m in 61..90 {
        again.extend(poll_once(&mut st, net_err(), t(m), &cfg()).0);
    }
    assert_eq!(kinds(&again), vec![AlertKind::FetchFailing]);
}

#[test]
fn heartbeats_go_out_daily_even_from_a_blind_watcher() {
    let mut st = AppState::new(t(0));
    let mut at = Vec::new();
    for hour in 1..=72 {
        let (alerts, _) = poll_once(&mut st, net_err(), t(hour * 60), &cfg());
        if kinds(&alerts).contains(&AlertKind::Heartbeat) {
            assert_eq!(alerts.last().unwrap().kind, AlertKind::Heartbeat);
            at.push(hour);
        }
    }
    assert_eq!(at, vec![24, 48, 72]);
}

#[test]
fn structure_warnings_come_daily_whichever_part_is_missing() {
    let mut st = AppState::new(t(0));
    let mut unknown = empty_obs();
    unknown.main = MainStock::Unknown;
    let mut at = Vec::new();
    for hour in 0..=50 {
        let page = if hour % 2 == 0 {
            Err(ParseError::CardNotFound)
        } else {
            Ok(unknown.clone())
        };
        let (alerts, _) = fold_poll(&mut st, Ok(page), t(hour * 60), &cfg());
        if kinds(&alerts).contains(&AlertKind::StructureChanged) {
            at.push(hour);
        }
    }
    assert_eq!(at, vec![0, 24, 48]);
}

#[test]
fn a_poll_tells_everything_in_order() {
    let mut st = AppState::new(t(0));
    let mut obs = available_obs();
    obs.main = MainStock::Unknown;
    let (alerts, _) = fold_poll(&mut st, Ok(Ok(obs)), t(60 * 24), &cfg());
    assert_eq!(
        kinds(&alerts),
        vec![
            AlertKind::ResaleAvailable,
            AlertKind::StructureChanged,
            AlertKind::Heartbeat
        ]
    );
    assert_eq!(alerts[1].body.lines().last(), Some("url"));
}

#[test]
fn a_wait_is_shortened_by_the_time_already_spent() {
    let wait = cfg().poll_interval;
    assert_eq!(wait.saturating_sub(Duration::from_secs(20)), Duration::from_secs(40));
    assert_eq!(wait.saturating_sub(Duration::from_secs(80)), Duration::from_secs(0));
}

#[test]
fn reminders_come_every_five_minutes_for_half_an_hour() {
    let mut st = AppState::new(t(0));
    st.last = Some(empty_obs());
    let mut at = Vec::new();
    for m in 0..180 {
        let (alerts, _) = fold_poll(&mut st, Ok(Ok(available_obs())), t(m), &cfg());
        deliver_all(&mut st, &alerts);
        for a in &alerts {
            assert_eq!(a.kind, AlertKind::ResaleAvailable);
            at.push(m);
        }
    }
    assert_eq!(at, vec![0, 5, 10, 15, 20, 25, 30]);
}

#[test]
fn a_quiet_page_is_met_with_silence() {
    let mut st = AppState::new(t(0));
    for m in 0..60 {
        let (alerts, wait) = poll_once(&mut st, Ok(EMPTY_PAGE.to_string()), t(m), &cfg());
        assert!(alerts.is_empty(), "{alerts:?}");
        assert_eq!(wait, Duration::from_secs(60));
    }
    assert_eq!(st.last_change, Some(t(0)), "only the first look was a change");
}

#[test]
fn an_outbox_is_emptied_in_order_before_the_rest() {
    let mut st = AppState::new(t(0));
    let mut outbox = Outbox::starting(&cfg());
    match outbox.next() {
        Next::Send(alert) => assert_eq!(alert, startup_alert(&cfg())),
        Next::Rest(_) => panic!("the start must be announced"),
    }
    outbox.report(&mut st, false);
    match outbox.next() {
        Next::Rest(wait) => assert_eq!(wait, Duration::from_secs(0)),
        Next::Send(alert) => panic!("{alert:?}"),
    }

    let mut outbox =
        Outbox::after_poll(&mut st, Ok(AVAILABLE_PAGE.to_string()), t(60 * 24), &cfg());
    let mut sent = Vec::new();
    let wait = loop {
        match outbox.next() {
            Next::Send(alert) => {
                sent.push(alert.kind);
                outbox.report(&mut st, true);
            }
            Next::Rest(wait) => break wait,
        }
    };
    assert_eq!(sent, vec![AlertKind::ResaleAvailable, AlertKind::Heartbeat]);
    assert_eq!(wait, cfg().poll_interval);
    assert!(st.repeats[0].delivered, "the outcome was taken note of");
}
