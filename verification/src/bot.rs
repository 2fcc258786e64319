//! What the bot answers, and to whom.

use vstd::prelude::*;

use crate::clock;
use crate::clock::{divide_toward_zero, Timestamp};
use crate::config;
use crate::parse;
use crate::parse::{MainStock, ResaleState};
use crate::state;
use crate::state::listing_summary;
use crate::text;
use crate::text::{push_decimal, push_signed_decimal};
use crate::watcher;
use crate::watcher::{acknowledge, AppState, REPEAT_CAP};

verus! {

broadcast use vstd::string::group_string_axioms;

/// What the bot can be told to do.
#[derive(Debug, Clone, Copy, PartialEq, Eq, Structural)]
pub enum Command {
    /// Show what the watcher currently sees.
    Status,
    /// Stop repeating the current alert.
    Ack,
    /// Show the commands.
    Help,
}

/// The id of a chat.
#[derive(Debug, Clone, Copy, PartialEq, Eq, Structural)]
pub struct ChatId(pub i64);

/// The one chat allowed to drive the bot. `None` means discovery mode, where
/// every chat is answered so that users can learn their chat id.
#[derive(Debug, Clone, Copy, PartialEq, Eq)]
pub struct AllowedChat(pub Option<ChatId>);

/// Whether a chat is answered.
pub open spec fn permitted(allowed: AllowedChat, chat: ChatId) -> bool {
    allowed.0 matches Some(c) ==> c == chat
}

impl AllowedChat {
    /// Whether `chat` is answered.
    pub fn permits(self, chat: ChatId) -> (r: bool)
        ensures
            r == permitted(self, chat),
    {
        match self.0 {
            Some(c) => c == chat,
            None => true,
        }
    }
}

// ---------------------------------------------------------------------------
// Status
// ---------------------------------------------------------------------------

/// What the page last showed, in words.
pub open spec fn page_status(last: Option<parse::Sighting>) -> Seq<char> {
    match last {
        None => "no check completed yet"@,
        Some(obs) => (match obs.resale {
            ResaleState::Empty => "no resale tickets"@,
            ResaleState::Available => "🎟️ TICKETS AVAILABLE\n"@ + state::summary(
                obs.listings,
                obs.resale_text,
            ),
        }) + "\n"@ + (match obs.main {
            MainStock::SoldOut => "main shop: sold out"@,
            MainStock::OnSale => "main shop: ON SALE"@,
            MainStock::Unknown => "main shop: UNKNOWN (product frame not found)"@,
        }),
    }
}

/// The line on a repeat.
pub open spec fn repeat_line(r: watcher::Reminder) -> Seq<char> {
    "\nalerting "@ + state::kind_name(r.kind) + ": "@ + text::decimal(r.count as nat) + " of "@
        + text::decimal(REPEAT_CAP as nat) + " reminders sent"@
}

/// The lines on the repeats.
pub open spec fn repeat_lines(repeats: Seq<watcher::Reminder>) -> Seq<char>
    decreases repeats.len(),
{
    if repeats.len() == 0 {
        Seq::empty()
    } else {
        repeat_lines(repeats.drop_last()) + repeat_line(repeats.last())
    }
}

/// The whole hours of a span in nanoseconds.
pub open spec fn whole_hours(nanos: int) -> int {
    clock::toward_zero(nanos, 60 * clock::minute())
}

/// The whole minutes of a span in nanoseconds beyond its whole hours.
pub open spec fn minutes_beyond(nanos: int) -> int {
    clock::toward_zero(nanos, clock::minute()) - 60 * whole_hours(nanos)
}

/// The status message.
pub open spec fn status(w: watcher::Watch, now: int, url: Seq<char>) -> Seq<char> {
    page_status(w.last) + "\n\nchecks: "@ + text::decimal(w.checks) + "\nuptime: "@
        + text::signed_decimal(whole_hours(now - w.started)) + "h "@ + text::signed_decimal(
        minutes_beyond(now - w.started),
    ) + "m\nlast change: "@ + (match w.last_change {
        Some(at) => clock::minute_text(at),
        None => "none since start"@,
    }) + repeat_lines(w.repeats) + "\n\n"@ + url
}

fn page_status_text(st: &AppState) -> (r: String)
    ensures
        r@ == page_status(st@.last),
{
    match &st.last {
        None => "no check completed yet".to_string(),
        Some(obs) => {
            let mut out = match obs.resale {
                ResaleState::Empty => "no resale tickets".to_string(),
                ResaleState::Available => {
                    let mut out = "🎟️ TICKETS AVAILABLE\n".to_string();
                    out.append(&listing_summary(&obs.listings, &obs.resale_text));
                    out
                },
            };
            out.append("\n");
            out.append(
                match obs.main {
                    MainStock::SoldOut => "main shop: sold out",
                    MainStock::OnSale => "main shop: ON SALE",
                    MainStock::Unknown => "main shop: UNKNOWN (product frame not found)",
                },
            );
            out
        },
    }
}

fn push_repeat_lines(out: &mut String, st: &AppState)
    ensures
        final(out)@ == old(out)@ + repeat_lines(st@.repeats),
{
    let ghost head = out@;
    let ghost all = st@.repeats;
    let mut i: usize = 0;
    assert(head + repeat_lines(all.take(0)) =~= head);
    while i < st.repeats.len()
        invariant
            i <= st.repeats@.len(),
            all == st@.repeats,
            out@ == head + repeat_lines(all.take(i as int)),
        decreases st.repeats@.len() - i,
    {
        let r = &st.repeats[i];
        assert(all[i as int] == r@);
        assert(all.take(i + 1).drop_last() =~= all.take(i as int));
        let ghost before = out@;
        out.append("\nalerting ");
        out.append(r.kind.name());
        out.append(": ");
        push_decimal(out, r.count as u128);
        out.append(" of ");
        push_decimal(out, REPEAT_CAP as u128);
        out.append(" reminders sent");
        assert(out@ =~= before + repeat_line(r@));
        assert(out@ =~= head + repeat_lines(all.take(i + 1)));
        i += 1;
    }
    assert(all.take(all.len() as int) =~= all);
}

proof fn lemma_hours_from_minutes(nanos: int)
    ensures
        whole_hours(nanos) == clock::toward_zero(
            clock::toward_zero(nanos, clock::minute()),
            60,
        ),
{
    let size = if nanos >= 0 {
        nanos
    } else {
        -nanos
    };
    assert((size / 60_000_000_000) / 60 == size / 3_600_000_000_000);
}

/// What the watcher sees, how long it has been at it, and what it is repeating.
pub fn status_text(st: &AppState, now: Timestamp, url: &str) -> (r: String)
    ensures
        r@ == status(st@, now@, url@),
{
    let uptime = now.nanos_since(st.started);
    let minutes = divide_toward_zero(uptime, 60_000_000_000);
    let hours = divide_toward_zero(uptime, 3_600_000_000_000);
    proof {
        lemma_hours_from_minutes(uptime as int);
    }
    let mut out = page_status_text(st);
    out.append("\n\nchecks: ");
    push_decimal(&mut out, st.checks as u128);
    out.append("\nuptime: ");
    push_signed_decimal(&mut out, hours as i64);
    out.append("h ");
    push_signed_decimal(&mut out, (minutes - 60 * hours) as i64);
    out.append("m\nlast change: ");
    let change = match st.last_change {
        Some(at) => at.minute_text(),
        None => "none since start".to_string(),
    };
    out.append(&change);
    push_repeat_lines(&mut out, st);
    out.append("\n\n");
    out.append(url);
    assert(out@ =~= status(st@, now@, url@));
    out
}

// ---------------------------------------------------------------------------
// Answers
// ---------------------------------------------------------------------------

/// What the bot does about a command.
#[derive(Debug, PartialEq, Eq)]
pub enum Reply {
    /// Nothing: the chat is a stranger's.
    Ignored,
    /// Send this text.
    Text(String),
    /// Send the list of commands.
    Descriptions,
}

/// What the bot does about a command.
pub enum Response {
    Ignored,
    Text(Seq<char>),
    Descriptions,
}

impl View for Reply {
    type V = Response;

    open spec fn view(&self) -> Response {
        match self {
            Reply::Ignored => Response::Ignored,
            Reply::Text(s) => Response::Text(s@),
            Reply::Descriptions => Response::Descriptions,
        }
    }
}

/// What the bot does about a command that it may answer.
pub open spec fn response(
    w: watcher::Watch,
    command: Command,
    now: int,
    url: Seq<char>,
) -> Response {
    match command {
        Command::Help => Response::Descriptions,
        Command::Status => Response::Text(status(w, now, url)),
        Command::Ack => Response::Text(
            if w.repeats.len() == 0 {
                "Nothing to acknowledge."@
            } else {
                "Acknowledged — reminders stopped."@
            },
        ),
    }
}

/// What the bot does about a command from `chat`.
pub open spec fn answer(
    w: watcher::Watch,
    allowed: AllowedChat,
    chat: ChatId,
    command: Command,
    now: int,
    url: Seq<char>,
) -> Response {
    if permitted(allowed, chat) {
        response(w, command, now, url)
    } else {
        Response::Ignored
    }
}

/// The state after a command from `chat`.
pub open spec fn after_command(
    w: watcher::Watch,
    allowed: AllowedChat,
    chat: ChatId,
    command: Command,
) -> watcher::Watch {
    if permitted(allowed, chat) && command == Command::Ack {
        watcher::acknowledged(w)
    } else {
        w
    }
}

/// Answer a command. A stranger gets no answer and changes nothing; only an
/// acknowledgement changes anything at all.
pub fn on_command(
    st: &mut AppState,
    allowed: AllowedChat,
    chat: ChatId,
    command: Command,
    now: Timestamp,
    url: &str,
) -> (r: Reply)
    ensures
        r@ == answer(old(st)@, allowed, chat, command, now@, url@),
        final(st)@ == after_command(old(st)@, allowed, chat, command),
        watcher::well_kept(old(st)@) ==> watcher::well_kept(final(st)@),
{
    if !allowed.permits(chat) {
        return Reply::Ignored;
    }
    match command {
        Command::Help => Reply::Descriptions,
        Command::Status => Reply::Text(status_text(st, now, url)),
        Command::Ack => if acknowledge(st) {
            Reply::Text("Acknowledged — reminders stopped.".to_string())
        } else {
            Reply::Text("Nothing to acknowledge.".to_string())
        },
    }
}

/// The answer to a plain message.
pub open spec fn introduction(chat: ChatId) -> Seq<char> {
    "This chat's id is: "@ + text::signed_decimal(chat.0 as int)
}

/// What a plain message from `chat` is answered with.
pub open spec fn welcome(allowed: AllowedChat, chat: ChatId) -> Option<Seq<char>> {
    if permitted(allowed, chat) {
        Some(introduction(chat))
    } else {
        None
    }
}

/// Any non-command message is answered with the chat id, so that first-time
/// setup does not need a third-party bot to discover it.
pub fn on_message(allowed: AllowedChat, chat: ChatId) -> (r: Option<String>)
    ensures
        text::optional_text(r) == welcome(allowed, chat),
{
    if !allowed.permits(chat) {
        return None;
    }
    let mut out = "This chat's id is: ".to_string();
    push_signed_decimal(&mut out, chat.0);
    Some(out)
}

/// In discovery mode every chat is answered; else the one that was configured,
/// and no other.
pub proof fn law_only_the_configured_chat_is_answered(mine: ChatId, other: ChatId)
    ensures
        permitted(AllowedChat(None), other),
        permitted(AllowedChat(Some(mine)), other) <==> other == mine,
{
}

/// The id that the bot replies with is one that the configuration takes, and it
/// names the chat that asked.
pub proof fn law_the_replied_id_configures_the_chat(chat: ChatId)
    ensures
        config::chat_id_of(Some(text::signed_decimal(chat.0 as int))) == Ok::<
            Option<i64>,
            config::Fault,
        >(Some(chat.0)),
{
    text::law_decimal_reads_back(chat.0 as int);
}

/// The last line on the page tells the state of the main shop, and each of the
/// three states has a line of its own.
pub proof fn law_each_state_of_the_main_shop_has_its_own_line(obs: parse::Sighting)
    ensures
        text::lines(page_status(Some(obs))).last() == "main shop: sold out"@ <==> obs.main
            == MainStock::SoldOut,
        text::lines(page_status(Some(obs))).last() == "main shop: ON SALE"@ <==> obs.main
            == MainStock::OnSale,
        text::lines(page_status(Some(obs))).last()
            == "main shop: UNKNOWN (product frame not found)"@ <==> obs.main == MainStock::Unknown,
{
    let head = resale_status(obs);
    let line = main_line(obs.main);
    lemma_page_status(obs);
    lemma_main_lines(obs.main);
    text::lemma_line(line);
    text::lemma_lines_break(head, line);
    assert((text::lines(head) + seq![line]).last() == line);
}

/// What the page said of the exchange, in words.
spec fn resale_status(obs: parse::Sighting) -> Seq<char> {
    match obs.resale {
        ResaleState::Empty => "no resale tickets"@,
        ResaleState::Available => "🎟️ TICKETS AVAILABLE\n"@ + state::summary(
            obs.listings,
            obs.resale_text,
        ),
    }
}

/// The line on the main shop.
spec fn main_line(main: MainStock) -> Seq<char> {
    match main {
        MainStock::SoldOut => "main shop: sold out"@,
        MainStock::OnSale => "main shop: ON SALE"@,
        MainStock::Unknown => "main shop: UNKNOWN (product frame not found)"@,
    }
}

proof fn lemma_page_status(obs: parse::Sighting)
    ensures
        page_status(Some(obs)) == resale_status(obs).push('\n') + main_line(obs.main),
{
    reveal_strlit("\n");
    assert("\n"@ =~= seq!['\n']);
    assert(page_status(Some(obs)) =~= resale_status(obs).push('\n') + main_line(obs.main));
}

proof fn lemma_main_lines(main: MainStock)
    ensures
        text::is_line(main_line(main)),
        "main shop: sold out"@ != "main shop: ON SALE"@,
        "main shop: sold out"@ != "main shop: UNKNOWN (product frame not found)"@,
        "main shop: ON SALE"@ != "main shop: UNKNOWN (product frame not found)"@,
{
    reveal_strlit("main shop: sold out");
    reveal_strlit("main shop: ON SALE");
    reveal_strlit("main shop: UNKNOWN (product frame not found)");
    assert("main shop: sold out"@.len() == 19);
    assert("main shop: ON SALE"@.len() == 18);
    assert("main shop: UNKNOWN (product frame not found)"@.len() == 44);
}

/// A status begins with what the page last showed: that there are no tickets, or
/// that there are and which, and then the state of the main shop.
pub proof fn law_a_status_begins_with_the_page(
    w: watcher::Watch,
    now: int,
    url: Seq<char>,
)
    ensures
        w.last is None ==> text::begins_with(
            status(w, now, url),
            "no check completed yet"@ + "\n\nchecks: "@,
        ),
        w.last matches Some(obs) ==> text::begins_with(
            status(w, now, url),
            (match obs.resale {
                ResaleState::Empty => "no resale tickets"@,
                ResaleState::Available => "🎟️ TICKETS AVAILABLE\n"@ + state::summary(
                    obs.listings,
                    obs.resale_text,
                ),
            }) + "\n"@ + (match obs.main {
                MainStock::SoldOut => "main shop: sold out"@,
                MainStock::OnSale => "main shop: ON SALE"@,
                MainStock::Unknown => "main shop: UNKNOWN (product frame not found)"@,
            }) + "\n\nchecks: "@,
        ),
{
    let start = page_status(w.last) + "\n\nchecks: "@;
    let s = status(w, now, url);
    assert(s.subrange(0, start.len() as int) =~= start);
}

/// While there are no resale tickets, a status has that for its first line and
/// the state of the main shop for its second.
pub proof fn law_a_quiet_status_opens_with_two_lines(
    w: watcher::Watch,
    obs: parse::Sighting,
    now: int,
    url: Seq<char>,
)
    requires
        w.last == Some(obs),
        obs.resale == ResaleState::Empty,
    ensures
        text::lines(status(w, now, url)).len() > 2,
        text::lines(status(w, now, url))[0] == "no resale tickets"@,
        text::lines(status(w, now, url))[1] == "main shop: sold out"@ <==> obs.main
            == MainStock::SoldOut,
        text::lines(status(w, now, url))[1] == "main shop: ON SALE"@ <==> obs.main
            == MainStock::OnSale,
        text::lines(status(w, now, url))[1] == "main shop: UNKNOWN (product frame not found)"@
            <==> obs.main == MainStock::Unknown,
{
    let s = status(w, now, url);
    let first = "no resale tickets"@;
    let second = main_line(obs.main);
    reveal_strlit("no resale tickets");
    reveal_strlit("\n\nchecks: ");
    lemma_page_status(obs);
    lemma_main_lines(obs.main);
    let shown = first.push('\n') + second;
    assert(page_status(w.last) == shown);
    assert(s[shown.len() as int] == '\n');
    let rest = s.skip((shown.len() + 1) as int);
    let tail = second.push('\n') + rest;
    assert(s =~= first.push('\n') + tail) by {
        assert(s.take(shown.len() as int) =~= shown);
        assert forall|i: int| 0 <= i < shown.len() implies s[i] == shown[i] by {
            assert(s.take(shown.len() as int)[i] == s[i]);
        }
    }
    text::lemma_first_line(first, tail);
    text::lemma_first_line(second, rest);
    text::lemma_lines_break(second, rest);
    assert(text::lines(s) =~= seq![first] + (seq![second] + text::lines(rest)));
}

/// Hours and minutes make up the uptime to within a minute, and there are never
/// sixty minutes beside the hours.
pub proof fn law_uptime_in_hours_and_minutes(nanos: int)
    ensures
        ({
            let (h, m) = (whole_hours(nanos), minutes_beyond(nanos));
            let rest = nanos - 3_600_000_000_000 * h - 60_000_000_000 * m;
            &&& nanos >= 0 ==> h >= 0 && 0 <= m < 60 && 0 <= rest < 60_000_000_000
            &&& nanos <= 0 ==> h <= 0 && -60 < m <= 0 && -60_000_000_000 < rest <= 0
        }),
{
    lemma_hours_from_minutes(nanos);
}

/// The rest of a status: how many checks there have been, for how long, when the
/// page last changed, what is being repeated, and the link.
pub proof fn law_a_status_tells_the_watch(
    w: watcher::Watch,
    now: int,
    url: Seq<char>,
    hours: nat,
    minutes: nat,
)
    requires
        minutes < 60,
        0 <= now - w.started - 3_600_000_000_000 * hours - 60_000_000_000 * minutes
            < 60_000_000_000,
    ensures
        status(w, now, url) == page_status(w.last) + "\n\nchecks: "@ + text::decimal(w.checks)
            + "\nuptime: "@ + text::decimal(hours) + "h "@ + text::decimal(minutes)
            + "m\nlast change: "@ + (match w.last_change {
            Some(at) => clock::minute_text(at),
            None => "none since start"@,
        }) + repeat_lines(w.repeats) + "\n\n"@ + url,
{
    let nanos = now - w.started;
    law_uptime_in_hours_and_minutes(nanos);
    assert(whole_hours(nanos) == hours);
    assert(minutes_beyond(nanos) == minutes);
}

/// Every repeat has a line with its kind and how many of the six reminders are
/// sent, in order.
pub proof fn law_every_repeat_is_listed(
    repeats: Seq<watcher::Reminder>,
    further: watcher::Reminder,
)
    ensures
        repeat_lines(Seq::empty()).len() == 0,
        repeat_lines(repeats.push(further)) == repeat_lines(repeats) + ("\nalerting "@
            + state::kind_name(further.kind) + ": "@ + text::decimal(further.count as nat)
            + " of 6 reminders sent"@),
{
    assert(repeats.push(further).drop_last() =~= repeats);
    text::law_decimal_digit_by_digit(0, 6);
    reveal_strlit("0123456789");
    reveal_strlit(" of ");
    reveal_strlit(" reminders sent");
    reveal_strlit(" of 6 reminders sent");
    assert(repeat_line(further) =~= "\nalerting "@ + state::kind_name(further.kind) + ": "@
        + text::decimal(further.count as nat) + " of 6 reminders sent"@);
}

/// A stranger's command is ignored and changes nothing, whatever it is.
pub proof fn law_strangers_are_ignored(
    w: watcher::Watch,
    mine: ChatId,
    chat: ChatId,
    command: Command,
    now: int,
    url: Seq<char>,
)
    requires
        chat != mine,
    ensures
        answer(w, AllowedChat(Some(mine)), chat, command, now, url) == Response::Ignored,
        after_command(w, AllowedChat(Some(mine)), chat, command) == w,
        welcome(AllowedChat(Some(mine)), chat) is None,
{
}

/// The configured chat, and in discovery mode every chat, is answered: the status
/// and the list of commands without changing anything, an acknowledgement by
/// ending every repeat and saying whether there was one.
pub proof fn law_commands_do_what_they_say(
    w: watcher::Watch,
    allowed: AllowedChat,
    chat: ChatId,
    now: int,
    url: Seq<char>,
)
    requires
        allowed.0 is None || allowed.0 == Some(chat),
    ensures
        answer(w, allowed, chat, Command::Status, now, url) == Response::Text(status(w, now, url)),
        after_command(w, allowed, chat, Command::Status) == w,
        answer(w, allowed, chat, Command::Help, now, url) == Response::Descriptions,
        after_command(w, allowed, chat, Command::Help) == w,
        w.repeats.len() == 0 ==> answer(w, allowed, chat, Command::Ack, now, url)
            == Response::Text("Nothing to acknowledge."@),
        w.repeats.len() > 0 ==> answer(w, allowed, chat, Command::Ack, now, url)
            == Response::Text("Acknowledged — reminders stopped."@),
        after_command(w, allowed, chat, Command::Ack).repeats.len() == 0,
        after_command(w, allowed, chat, Command::Ack) == (watcher::Watch {
            repeats: after_command(w, allowed, chat, Command::Ack).repeats,
            ..w
        }),
        welcome(allowed, chat) == Some("This chat's id is: "@ + text::signed_decimal(chat.0 as int)),
{
}

/// What a reply says is what it holds.
pub proof fn law_replies_say_what_they_hold(s: String)
    ensures
        Reply::Text(s)@ == Response::Text(s@),
        Reply::Ignored@ == Response::Ignored,
        Reply::Descriptions@ == Response::Descriptions,
{
}

}
