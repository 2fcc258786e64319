use std::collections::HashMap;

use sb_watcher::bot::{on_command, on_message, status_text, AllowedChat, ChatId, Command, Reply};
use sb_watcher::clock::Timestamp;
use sb_watcher::config::Config;
use sb_watcher::parse::{Listing, MainStock, PageObservation, ResaleState};
use sb_watcher::state::AlertKind;
use sb_watcher::watcher::{AlertRepeat, AppState};

fn now() -> Timestamp {
    Timestamp::from_unix(1_800_000_000, 0).unwrap()
}

fn later(secs: i64) -> Timestamp {
    Timestamp::from_unix(1_800_000_000 + secs, 0).unwrap()
}

fn alerting() -> AppState {
    let mut st = AppState::new(now());
    st.repeats = vec![
        AlertRepeat {
            kind: AlertKind::ResaleAvailable,
            sent_at: now(),
            count: 2,
            delivered: true,
        },
        AlertRepeat {
            kind: AlertKind::MainOnSale,
            sent_at: now(),
            count: 0,
            delivered: false,
        },
    ];
    st
}

#[test]
fn status_reports_a_quiet_watcher() {
    let mut st = AppState::new(now());
    st.checks = 42;
    st.last = Some(PageObservation {
        resale: ResaleState::Empty,
        resale_text: "Ticketbörse Es gibt aktuell keine Tickets zum Weiterverkauf.".into(),
        listings: vec![],
        main: MainStock::SoldOut,
    });
    let s = status_text(&st, now(), "https://example.test");
    assert!(s.contains("42"), "check count must be visible: {s}");
    assert!(s.contains("no resale tickets"), "{s}");
}

#[test]
fn status_reports_available_stock() {
    let mut st = AppState::new(now());
    st.last = Some(PageObservation {
        resale: ResaleState::Available,
        resale_text: "Ticketbörse In den Warenkorb".into(),
        listings: vec![],
        main: MainStock::SoldOut,
    });
    assert!(status_text(&st, now(), "u").contains("TICKETS AVAILABLE"));
}

#[test]
fn status_before_the_first_check_says_so() {
    let st = AppState::new(now());
    assert!(status_text(&st, now(), "u").contains("no check completed yet"));
}

#[test]
fn only_the_configured_chat_is_permitted() {
    let mine = ChatId(42);
    let stranger = ChatId(7);
    assert!(AllowedChat(Some(mine)).permits(mine));
    assert!(
        !AllowedChat(Some(mine)).permits(stranger),
        "a stranger must not be able to /ack"
    );
    // Discovery mode: nothing configured yet, so every chat is answered.
    assert!(AllowedChat(None).permits(stranger));
}

#[test]
fn a_status_reads_as_it_should() {
    let mut st = alerting();
    st.checks = 1440;
    st.last = Some(PageObservation {
        resale: ResaleState::Available,
        resale_text: "ignored".into(),
        listings: vec![Listing {
            id: "voucher_swap_1".into(),
            name: "Ticket".into(),
            price: "45,20 €".into(),
        }],
        main: MainStock::OnSale,
    });
    st.last_change = Some(later(60));
    assert_eq!(
        status_text(&st, later(25 * 3600 + 30 * 60 + 59), "u"),
        "🎟️ TICKETS AVAILABLE\n1 ticket available:\n• Ticket — 45,20 €\nmain shop: ON SALE\n\n\
         checks: 1440\nuptime: 25h 30m\nlast change: 2027-01-15 08:01 UTC\n\
         alerting ResaleAvailable: 2 of 6 reminders sent\n\
         alerting MainOnSale: 0 of 6 reminders sent\n\nu"
    );
    let mut st = AppState::new(now());
    st.last = Some(PageObservation {
        resale: ResaleState::Empty,
        resale_text: "quiet".into(),
        listings: vec![],
        main: MainStock::Unknown,
    });
    assert_eq!(
        status_text(&st, now(), "u"),
        "no resale tickets\nmain shop: UNKNOWN (product frame not found)\n\n\
         checks: 0\nuptime: 0h 0m\nlast change: none since start\n\nu"
    );
}

#[test]
fn a_clock_that_was_set_back_shows_as_it_is() {
    let st = AppState::new(later(3 * 3600 + 5 * 60 + 1));
    assert!(status_text(&st, now(), "u").contains("\nuptime: -3h -5m\n"));
}

#[test]
fn commands_are_answered() {
    let mine = AllowedChat(Some(ChatId(42)));
    let mut st = alerting();
    assert_eq!(
        on_command(&mut st, mine, ChatId(42), Command::Help, now(), "u"),
        Reply::Descriptions
    );
    let status = status_text(&st, now(), "u");
    assert_eq!(
        on_command(&mut st, mine, ChatId(42), Command::Status, now(), "u"),
        Reply::Text(status)
    );
    assert_eq!(st.repeats.len(), 2, "looking changes nothing");
    assert_eq!(
        on_command(&mut st, mine, ChatId(42), Command::Ack, now(), "u"),
        Reply::Text("Acknowledged — reminders stopped.".to_string())
    );
    assert!(st.repeats.is_empty());
    assert_eq!(
        on_command(&mut st, mine, ChatId(42), Command::Ack, now(), "u"),
        Reply::Text("Nothing to acknowledge.".to_string())
    );
}

#[test]
fn strangers_are_ignored_and_change_nothing() {
    let mut st = alerting();
    for command in [Command::Help, Command::Status, Command::Ack] {
        assert_eq!(
            on_command(&mut st, AllowedChat(Some(ChatId(42))), ChatId(7), command, now(), "u"),
            Reply::Ignored
        );
    }
    assert_eq!(st.repeats, alerting().repeats);
    assert_eq!(on_message(AllowedChat(Some(ChatId(42))), ChatId(7)), None);
}

#[test]
fn the_replied_id_can_be_configured() {
    for id in [42, -1001234567890, i64::MIN, i64::MAX, 0] {
        let reply = on_message(AllowedChat(None), ChatId(id)).unwrap();
        assert_eq!(reply, format!("This chat's id is: {id}"));
        let mut m = HashMap::new();
        m.insert("TELOXIDE_TOKEN".to_string(), "123:ABC".to_string());
        m.insert("TELEGRAM_CHAT_ID".to_string(), reply.rsplit(' ').next().unwrap().to_string());
        assert_eq!(Config::from_map(&m).unwrap().chat_id, Some(id));
    }
    assert_eq!(
        on_message(AllowedChat(Some(ChatId(5))), ChatId(5)),
        Some("This chat's id is: 5".to_string())
    );
}
