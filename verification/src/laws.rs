//! What holds of a running watcher, over any number of polls.

use vstd::prelude::*;

use crate::clock;
use crate::config;
use crate::fetch;
use crate::fetch::FetchError;
use crate::page;
use crate::parse;
use crate::parse::{MainStock, ParseError, ResaleState};
use crate::state;
use crate::state::{AlertKind, Severity};
use crate::text;
use crate::watcher;

verus! {

// ---------------------------------------------------------------------------
// Runs
// ---------------------------------------------------------------------------

/// What happens to a running watcher.
pub enum Event {
    /// A poll came to an end at `now`.
    Poll { found: watcher::Found, now: int },
    /// An alert was sent, and reached someone or not.
    Sent { notice: state::Notice, delivered: bool },
    /// The user acknowledged the reminders.
    Acknowledged,
}

/// When a poll came to an end.
pub open spec fn time_of(event: Event) -> int {
    match event {
        Event::Poll { now, .. } => now,
        _ => 0,
    }
}

/// The state after an event.
pub open spec fn after(
    w: watcher::Watch,
    event: Event,
    settings: config::Settings,
) -> watcher::Watch {
    match event {
        Event::Poll { found, now } => watcher::polled(w, found, now, settings).after,
        Event::Sent { notice, delivered } => watcher::settled(w, notice, delivered),
        Event::Acknowledged => watcher::acknowledged(w),
    }
}

/// The alerts that an event calls for.
pub open spec fn called_for(
    w: watcher::Watch,
    event: Event,
    settings: config::Settings,
) -> Seq<state::Notice> {
    match event {
        Event::Poll { found, now } => watcher::polled(w, found, now, settings).notices,
        _ => Seq::empty(),
    }
}

/// The state after all the events.
pub open spec fn run(
    w: watcher::Watch,
    events: Seq<Event>,
    settings: config::Settings,
) -> watcher::Watch
    decreases events.len(),
{
    if events.len() == 0 {
        w
    } else {
        after(run(w, events.drop_last(), settings), events.last(), settings)
    }
}

/// The state before event `i`.
pub open spec fn before(
    w: watcher::Watch,
    events: Seq<Event>,
    settings: config::Settings,
    i: int,
) -> watcher::Watch {
    run(w, events.take(i), settings)
}

proof fn lemma_before_steps(
    w: watcher::Watch,
    events: Seq<Event>,
    settings: config::Settings,
    i: int,
)
    requires
        0 <= i < events.len(),
    ensures
        before(w, events, settings, i + 1) == after(
            before(w, events, settings, i),
            events[i],
            settings,
        ),
{
    assert(events.take(i + 1).drop_last() =~= events.take(i));
}

/// Whatever happens to a watcher, it stays well kept. In particular no run ever
/// goes beyond the cap on reminders, and the wait after a failure stays within
/// its cap.
pub proof fn law_a_run_keeps_the_state(
    w: watcher::Watch,
    events: Seq<Event>,
    settings: config::Settings,
)
    requires
        watcher::well_kept(w),
        settings.poll_interval >= 0,
    ensures
        watcher::well_kept(run(w, events, settings)),
    decreases events.len(),
{
    if events.len() > 0 {
        let front = events.drop_last();
        law_a_run_keeps_the_state(w, front, settings);
        let then = run(w, front, settings);
        match events.last() {
            Event::Poll { found, now } => {
                watcher::law_a_poll_keeps_the_state(then, found, now, settings);
            },
            Event::Sent { notice, delivered } => {
                watcher::law_a_delivery_keeps_the_state(then, notice, delivered);
            },
            Event::Acknowledged => {},
        }
    }
}

// ---------------------------------------------------------------------------
// One poll
// ---------------------------------------------------------------------------

/// Every poll counts as a check, also one that found nothing.
pub proof fn law_every_poll_counts(
    w: watcher::Watch,
    found: watcher::Found,
    now: int,
    settings: config::Settings,
)
    ensures
        watcher::polled(w, found, now, settings).after.checks == w.checks + 1,
{
}

/// Any answer of the site ends the failure episode, also one that cannot be made
/// out, and the next poll comes at the regular interval.
pub proof fn law_any_answer_ends_the_episode(
    w: watcher::Watch,
    page: Result<parse::Sighting, ParseError>,
    now: int,
    settings: config::Settings,
)
    ensures
        ({
            let poll = watcher::polled(w, Ok(page), now, settings);
            &&& poll.after.failures_since is None
            &&& !poll.after.failure_warned
            &&& poll.after.backoff is None
            &&& poll.wait == settings.poll_interval
        }),
{
}

/// A poll that sees stock which the one before did not see raises the alert that
/// names it, whatever else it has to say.
pub proof fn law_a_poll_raises_every_drop(
    w: watcher::Watch,
    obs: parse::Sighting,
    now: int,
    settings: config::Settings,
)
    ensures
        obs.resale == ResaleState::Available && !(w.last matches Some(p) && p.resale
            == ResaleState::Available) ==> watcher::polled(
            w,
            Ok(Ok(obs)),
            now,
            settings,
        ).notices.contains(state::resale_available(obs, settings.target_url)),
        obs.main == MainStock::OnSale && !(w.last matches Some(p) && p.main == MainStock::OnSale)
            ==> watcher::polled(w, Ok(Ok(obs)), now, settings).notices.contains(
            state::main_on_sale(settings.target_url),
        ),
{
    let url = settings.target_url;
    let first = state::transition_notices(w.last, obs, url);
    let all = watcher::polled(w, Ok(Ok(obs)), now, settings).notices;
    state::law_no_drop_is_swallowed(w.last, obs, url);
    assert(forall|i: int| 0 <= i < first.len() ==> #[trigger] all[i] == first[i]);
    assert forall|n: state::Notice| first.contains(n) implies #[trigger] all.contains(n) by {
        let i = choose|i: int| 0 <= i < first.len() && first[i] == n;
        assert(all[i] == n);
    }
}

/// From the page to the alarm: a page whose exchange does not hold the known
/// empty sentence raises the alarm, unless the page before already did. Nothing
/// else on the page, and nothing else in the state, can keep it back.
pub proof fn law_a_page_that_departs_from_quiet_alarms(
    w: watcher::Watch,
    parts: page::PageParts,
    now: int,
    settings: config::Settings,
)
    requires
        !(w.last matches Some(p) && p.resale == ResaleState::Available),
    ensures
        parse::exchange(parts.cards) matches Some(card) ==> (!text::holds_text(
            text::collapsed(card.text),
            parse::EMPTY_MARKER@,
        ) ==> watcher::polled(w, Ok(parse::classification(parts)), now, settings).notices.contains(
            state::resale_available(
                parse::sighting(card, parts.frame),
                settings.target_url,
            ),
        )),
{
    if let Some(card) = parse::exchange(parts.cards) {
        law_a_poll_raises_every_drop(w, parse::sighting(card, parts.frame), now, settings);
    }
}

/// A page that is as quiet as it was is met with silence, but for the heartbeat.
pub proof fn law_a_quiet_poll_is_silent(
    w: watcher::Watch,
    obs: parse::Sighting,
    now: int,
    settings: config::Settings,
)
    requires
        watcher::well_kept(w),
        w.last == Some(obs),
        obs.resale == ResaleState::Empty,
        obs.main == MainStock::SoldOut,
    ensures
        watcher::polled(w, Ok(Ok(obs)), now, settings).notices.len() == (if watcher::heartbeat_due(
            w,
            now,
        ) {
            1nat
        } else {
            0nat
        }),
{
    let url = settings.target_url;
    let seen = watcher::answered(watcher::Watch { checks: w.checks + 1, ..w });
    let open = watcher::open_repeats(seen, obs, now, url);
    let kinds = watcher::fired(seen, obs, url);
    state::law_a_steady_page_is_silent(obs, url);
    watcher::lemma_open_repeats(seen, obs, now, url);
    let more = watcher::nudges(open, kinds, obs, now, url);
    if more.len() > 0 {
        let k = lemma_nudges_come_from_repeats(open, kinds, obs, now, url, 0);
        assert(open.contains(open[k]));
    }
}

/// A page without the exchange is never taken for a quiet one: where no warning
/// has gone out for a day, this poll sends one.
pub proof fn law_a_missing_card_is_reported(
    w: watcher::Watch,
    now: int,
    settings: config::Settings,
)
    requires
        watcher::structure_due(w, now),
    ensures
        watcher::polled(w, Ok(Err(ParseError::CardNotFound)), now, settings).notices.contains(
            watcher::structure_changed("The Ticketbörse card"@, settings.target_url),
        ),
{
    let all = watcher::polled(w, Ok(Err(ParseError::CardNotFound)), now, settings).notices;
    assert(all[0] == watcher::structure_changed("The Ticketbörse card"@, settings.target_url));
}

/// A page without the main product frame wakes nobody for the main product, and
/// is reported: where no warning has gone out for a day, this poll sends one.
pub proof fn law_a_missing_frame_is_reported(
    w: watcher::Watch,
    obs: parse::Sighting,
    now: int,
    settings: config::Settings,
    i: int,
)
    requires
        obs.main == MainStock::Unknown,
    ensures
        watcher::structure_due(w, now) ==> watcher::polled(
            w,
            Ok(Ok(obs)),
            now,
            settings,
        ).notices.contains(
            watcher::structure_changed("The main product frame"@, settings.target_url),
        ),
        0 <= i < watcher::polled(w, Ok(Ok(obs)), now, settings).notices.len() ==> watcher::polled(
            w,
            Ok(Ok(obs)),
            now,
            settings,
        ).notices[i].kind != AlertKind::MainOnSale,
{
    let url = settings.target_url;
    let seen = watcher::answered(watcher::Watch { checks: w.checks + 1, ..w });
    let news = watcher::observation_notices(seen, obs, now, url);
    let all = watcher::polled(w, Ok(Ok(obs)), now, settings).notices;
    let warning = watcher::structure_changed("The main product frame"@, url);
    if watcher::structure_due(w, now) {
        assert(all[news.len() as int] == warning);
    }
    if 0 <= i < all.len() {
        let first = state::transition_notices(w.last, obs, url);
        if first.len() <= i < news.len() {
            let open = watcher::open_repeats(seen, obs, now, url);
            let kinds = watcher::fired(seen, obs, url);
            watcher::lemma_open_repeats(seen, obs, now, url);
            lemma_nudges_come_from_repeats(open, kinds, obs, now, url, i - first.len());
        }
    }
}

/// A heartbeat that is due goes out with this poll, whatever the poll found: a
/// blind watcher is not a silent one.
pub proof fn law_a_due_heartbeat_goes_out(
    w: watcher::Watch,
    found: watcher::Found,
    now: int,
    settings: config::Settings,
)
    requires
        watcher::heartbeat_due(w, now),
    ensures
        ({
            let poll = watcher::polled(w, found, now, settings);
            &&& poll.notices.len() > 0
            &&& poll.notices.last().kind == AlertKind::Heartbeat
            &&& poll.after.last_heartbeat == now
        }),
{
}

// ---------------------------------------------------------------------------
// Reminders
// ---------------------------------------------------------------------------

/// Each alert among the nudges is what some repeat calls for.
proof fn lemma_nudges_come_from_repeats(
    repeats: Seq<watcher::Reminder>,
    kinds: Seq<AlertKind>,
    obs: parse::Sighting,
    now: int,
    url: Seq<char>,
    i: int,
) -> (k: int)
    requires
        0 <= i < watcher::nudges(repeats, kinds, obs, now, url).len(),
    ensures
        0 <= k < repeats.len(),
        watcher::nudge(repeats[k], kinds, obs, now, url) == Some(
            watcher::nudges(repeats, kinds, obs, now, url)[i],
        ),
        repeats.contains(repeats[k]),
        watcher::nudges(repeats, kinds, obs, now, url)[i].kind == repeats[k].kind,
    decreases repeats.len(),
{
    let front = repeats.drop_last();
    let fewer = watcher::nudges(front, kinds, obs, now, url);
    if i < fewer.len() {
        let k = lemma_nudges_come_from_repeats(front, kinds, obs, now, url, i);
        assert(front[k] == repeats[k]);
        k
    } else {
        repeats.len() - 1
    }
}

/// Each alert among the nudges names a condition that is true of the page.
proof fn lemma_nudges_name_open_conditions(
    w: watcher::Watch,
    obs: parse::Sighting,
    now: int,
    url: Seq<char>,
    i: int,
)
    requires
        state::transition_notices(w.last, obs, url).len() <= i < watcher::observation_notices(
            w,
            obs,
            now,
            url,
        ).len(),
    ensures
        watcher::is_open(watcher::observation_notices(w, obs, now, url)[i].kind, obs),
{
    let first = state::transition_notices(w.last, obs, url);
    let open = watcher::open_repeats(w, obs, now, url);
    let kinds = watcher::fired(w, obs, url);
    watcher::lemma_open_repeats(w, obs, now, url);
    let k = lemma_nudges_come_from_repeats(open, kinds, obs, now, url, i - first.len());
    assert(open.contains(open[k]));
}

/// Whatever a repeat calls for is among the nudges.
proof fn lemma_a_nudge_is_sent(
    repeats: Seq<watcher::Reminder>,
    kinds: Seq<AlertKind>,
    obs: parse::Sighting,
    now: int,
    url: Seq<char>,
    r: watcher::Reminder,
) -> (i: int)
    requires
        repeats.contains(r),
        watcher::nudge(r, kinds, obs, now, url) is Some,
    ensures
        0 <= i < watcher::nudges(repeats, kinds, obs, now, url).len(),
        watcher::nudges(repeats, kinds, obs, now, url)[i] == watcher::nudge(
            r,
            kinds,
            obs,
            now,
            url,
        ).unwrap(),
    decreases repeats.len(),
{
    let front = repeats.drop_last();
    let fewer = watcher::nudges(front, kinds, obs, now, url);
    if repeats.last() == r {
        fewer.len() as int
    } else {
        let k = choose|k: int| 0 <= k < repeats.len() && repeats[k] == r;
        assert(front[k] == r);
        lemma_a_nudge_is_sent(front, kinds, obs, now, url, r)
    }
}

/// An alert that reached nobody is sent again by the next poll that still sees
/// its condition, at once and without counting as a reminder.
pub proof fn law_an_undelivered_alert_is_sent_again(
    w: watcher::Watch,
    obs: parse::Sighting,
    now: int,
    url: Seq<char>,
    r: watcher::Reminder,
)
    requires
        w.repeats.contains(r),
        !r.delivered,
        watcher::is_open(r.kind, obs),
        !watcher::fired(w, obs, url).contains(r.kind),
    ensures
        watcher::observation_notices(w, obs, now, url).contains(
            watcher::still_available(
                r.kind,
                "The previous alert could not be delivered."@,
                obs,
                url,
            ),
        ),
        watcher::observed(w, obs, now, url).repeats.contains(
            watcher::Reminder { sent_at: now, ..r },
        ),
{
    lemma_a_repeat_is_seen_to(w, obs, now, url, r);
}

/// A reminder that is due goes out, whatever other alerts the poll has, and is
/// counted; it then waits to be known as delivered.
pub proof fn law_a_due_reminder_goes_out(
    w: watcher::Watch,
    obs: parse::Sighting,
    now: int,
    url: Seq<char>,
    r: watcher::Reminder,
)
    requires
        w.repeats.contains(r),
        r.delivered,
        watcher::repeat_due(r, now),
        watcher::is_open(r.kind, obs),
        !watcher::fired(w, obs, url).contains(r.kind),
    ensures
        watcher::observation_notices(w, obs, now, url).contains(
            watcher::still_available(r.kind, watcher::reminder_opening(r), obs, url),
        ),
        watcher::observed(w, obs, now, url).repeats.contains(
            watcher::Reminder {
                sent_at: now,
                count: (r.count + 1) as u32,
                delivered: false,
                ..r
            },
        ),
{
    lemma_a_repeat_is_seen_to(w, obs, now, url, r);
}

proof fn lemma_a_repeat_is_seen_to(
    w: watcher::Watch,
    obs: parse::Sighting,
    now: int,
    url: Seq<char>,
    r: watcher::Reminder,
)
    requires
        w.repeats.contains(r),
        watcher::is_open(r.kind, obs),
        !watcher::fired(w, obs, url).contains(r.kind),
    ensures
        watcher::nudge(r, watcher::fired(w, obs, url), obs, now, url) matches Some(n)
            ==> watcher::observation_notices(w, obs, now, url).contains(n),
        watcher::observed(w, obs, now, url).repeats.contains(
            watcher::stepped(r, watcher::fired(w, obs, url), now),
        ),
{
    let kinds = watcher::fired(w, obs, url);
    let open = watcher::open_repeats(w, obs, now, url);
    watcher::lemma_open_repeats(w, obs, now, url);
    assert(open.contains(r));
    let k = choose|k: int| 0 <= k < open.len() && open[k] == r;
    assert(watcher::observed(w, obs, now, url).repeats[k] == watcher::stepped(r, kinds, now));
    if watcher::nudge(r, kinds, obs, now, url) is Some {
        let i = lemma_a_nudge_is_sent(open, kinds, obs, now, url, r);
        let first = state::transition_notices(w.last, obs, url);
        assert(watcher::observation_notices(w, obs, now, url)[first.len() + i] == watcher::nudge(
            r,
            kinds,
            obs,
            now,
            url,
        ).unwrap());
    }
}

/// Each repeat lives exactly as long as its own condition: after a poll that
/// does not see it, there is none of that kind left.
pub proof fn law_a_closed_condition_is_forgotten(
    w: watcher::Watch,
    obs: parse::Sighting,
    now: int,
    url: Seq<char>,
    i: int,
)
    requires
        0 <= i < watcher::observed(w, obs, now, url).repeats.len(),
    ensures
        watcher::is_open(watcher::observed(w, obs, now, url).repeats[i].kind, obs),
{
    let open = watcher::open_repeats(w, obs, now, url);
    watcher::lemma_open_repeats(w, obs, now, url);
    assert(open.contains(open[i]));
}

/// Every alert at the highest severity, the first one and each that follows,
/// names a condition that is true of the page it was raised for.
pub proof fn law_only_open_conditions_wake_the_user(
    w: watcher::Watch,
    obs: parse::Sighting,
    now: int,
    url: Seq<char>,
    i: int,
)
    requires
        0 <= i < watcher::observation_notices(w, obs, now, url).len(),
        watcher::observation_notices(w, obs, now, url)[i].severity == Severity::Max,
    ensures
        watcher::is_open(watcher::observation_notices(w, obs, now, url)[i].kind, obs),
{
    let first = state::transition_notices(w.last, obs, url);
    if i < first.len() {
        state::law_only_stock_wakes_the_user(w.last, obs, url, i);
    } else {
        lemma_nudges_name_open_conditions(w, obs, now, url, i);
    }
}

/// An acknowledgement silences: nothing that is open is mentioned again. What
/// the page newly shows is still raised.
pub proof fn law_an_acknowledgement_silences(
    w: watcher::Watch,
    obs: parse::Sighting,
    now: int,
    url: Seq<char>,
)
    ensures
        watcher::observation_notices(watcher::acknowledged(w), obs, now, url)
            == state::transition_notices(w.last, obs, url),
{
    let quiet = watcher::acknowledged(w);
    let open = watcher::open_repeats(quiet, obs, now, url);
    let kinds = watcher::fired(quiet, obs, url);
    watcher::lemma_open_repeats(quiet, obs, now, url);
    let more = watcher::nudges(open, kinds, obs, now, url);
    if more.len() > 0 {
        let k = lemma_nudges_come_from_repeats(open, kinds, obs, now, url, 0);
        assert(open.contains(open[k]));
    }
    assert(state::transition_notices(w.last, obs, url) + more =~= state::transition_notices(
        w.last,
        obs,
        url,
    ));
}

/// Whether an event raises an alert of `kind` at the highest severity because
/// the page has changed.
pub open spec fn raises(
    w: watcher::Watch,
    event: Event,
    settings: config::Settings,
    kind: AlertKind,
) -> bool {
    event matches Event::Poll { found: Ok(Ok(obs)), .. } && watcher::fired(
        w,
        obs,
        settings.target_url,
    ).contains(kind)
}

/// Whether an event sends a reminder of `kind`.
pub open spec fn reminds(
    w: watcher::Watch,
    event: Event,
    settings: config::Settings,
    kind: AlertKind,
) -> bool {
    event matches Event::Poll { found: Ok(Ok(obs)), now } && exists|r: watcher::Reminder|
        {
            &&& #[trigger] watcher::open_repeats(w, obs, now, settings.target_url).contains(r)
            &&& r.kind == kind
            &&& watcher::due(r, watcher::fired(w, obs, settings.target_url), now)
                == watcher::Due::Remind
        }
}

/// How many reminders of `kind` the events send.
pub open spec fn reminders_sent(
    w: watcher::Watch,
    events: Seq<Event>,
    settings: config::Settings,
    kind: AlertKind,
) -> nat
    decreases events.len(),
{
    if events.len() == 0 {
        0
    } else {
        let front = events.drop_last();
        reminders_sent(w, front, settings, kind) + (if reminds(
            run(w, front, settings),
            events.last(),
            settings,
            kind,
        ) {
            1nat
        } else {
            0nat
        })
    }
}

/// Whether none of the events raises `kind` anew.
pub open spec fn never_raised(
    w: watcher::Watch,
    events: Seq<Event>,
    settings: config::Settings,
    kind: AlertKind,
) -> bool
    decreases events.len(),
{
    events.len() > 0 ==> {
        let front = events.drop_last();
        &&& never_raised(w, front, settings, kind)
        &&& !raises(run(w, front, settings), events.last(), settings, kind)
    }
}

/// Whether a repeat of `kind` that has been repeated `count` times is there.
pub open spec fn stands_at(w: watcher::Watch, kind: AlertKind, count: int) -> bool {
    exists|r: watcher::Reminder| #[trigger]
        w.repeats.contains(r) && r.kind == kind && r.count == count
}

/// Whether a repeat of `kind` is there.
pub open spec fn stands(w: watcher::Watch, kind: AlertKind) -> bool {
    exists|r: watcher::Reminder| #[trigger] w.repeats.contains(r) && r.kind == kind
}

proof fn lemma_one_of_a_kind(
    w: watcher::Watch,
    a: watcher::Reminder,
    b: watcher::Reminder,
)
    requires
        watcher::distinct(w.repeats),
        w.repeats.contains(a),
        w.repeats.contains(b),
        a.kind == b.kind,
    ensures
        a == b,
{
    let i = choose|i: int| 0 <= i < w.repeats.len() && w.repeats[i] == a;
    let j = choose|j: int| 0 <= j < w.repeats.len() && w.repeats[j] == b;
    if i < j {
        assert(w.repeats[i].kind != w.repeats[j].kind);
    } else if j < i {
        assert(w.repeats[j].kind != w.repeats[i].kind);
    }
}

/// What an event that does not raise `kind` does to the repeat of that kind: it
/// can only count it up by a reminder, or end it.
proof fn lemma_a_step_counts_reminders(
    w: watcher::Watch,
    event: Event,
    settings: config::Settings,
    kind: AlertKind,
    count: int,
)
    requires
        watcher::well_kept(w),
        !raises(w, event, settings, kind),
        stands_at(w, kind, count) || !stands(w, kind),
    ensures
        !stands(w, kind) ==> !reminds(w, event, settings, kind) && !stands(
            after(w, event, settings),
            kind,
        ),
        stands(w, kind) && reminds(w, event, settings, kind) ==> count < watcher::REPEAT_CAP
            && stands_at(after(w, event, settings), kind, count + 1),
        stands(w, kind) && !reminds(w, event, settings, kind) ==> stands_at(
            after(w, event, settings),
            kind,
            count,
        ) || !stands(after(w, event, settings), kind),
{
    let next = after(w, event, settings);
    match event {
        Event::Acknowledged => {},
        Event::Sent { notice, delivered } => {
            watcher::lemma_recorded(w.repeats, notice.kind, delivered);
            assert forall|r: watcher::Reminder| #[trigger]
                next.repeats.contains(r) && r.kind == kind implies stands_at(
                w,
                kind,
                r.count as int,
            ) by {
                let i = choose|i: int| 0 <= i < next.repeats.len() && next.repeats[i] == r;
                assert(w.repeats.contains(w.repeats[i]));
            }
            if stands(next, kind) {
                let r = choose|r: watcher::Reminder| #[trigger]
                    next.repeats.contains(r) && r.kind == kind;
                let s = choose|s: watcher::Reminder| #[trigger]
                    w.repeats.contains(s) && s.kind == kind && s.count == r.count;
                let t = choose|t: watcher::Reminder| #[trigger]
                    w.repeats.contains(t) && t.kind == kind && t.count == count;
                lemma_one_of_a_kind(w, s, t);
            }
        },
        Event::Poll { found, now } => {
            if let Ok(Ok(obs)) = found {
                let url = settings.target_url;
                let seen = watcher::answered(watcher::Watch { checks: w.checks + 1, ..w });
                let kinds = watcher::fired(w, obs, url);
                let open = watcher::open_repeats(w, obs, now, url);
                assert(watcher::fired(seen, obs, url) == kinds);
                assert(watcher::open_repeats(seen, obs, now, url) == open);
                watcher::lemma_open_repeats(w, obs, now, url);
                assert(next.repeats == open.map_values(
                    |r: watcher::Reminder| watcher::stepped(r, kinds, now),
                ));
                if reminds(w, event, settings, kind) {
                    let r = choose|r: watcher::Reminder|
                        {
                            &&& #[trigger] open.contains(r)
                            &&& r.kind == kind
                            &&& watcher::due(r, kinds, now) == watcher::Due::Remind
                        };
                    assert(w.repeats.contains(r));
                    let t = choose|t: watcher::Reminder| #[trigger]
                        w.repeats.contains(t) && t.kind == kind && t.count == count;
                    lemma_one_of_a_kind(w, r, t);
                    let k = choose|k: int| 0 <= k < open.len() && open[k] == r;
                    let s = watcher::stepped(r, kinds, now);
                    assert(next.repeats[k] == s);
                    assert(next.repeats.contains(s));
                }
                if stands(next, kind) {
                    let s = choose|s: watcher::Reminder| #[trigger]
                        next.repeats.contains(s) && s.kind == kind;
                    let k = choose|k: int| 0 <= k < next.repeats.len() && next.repeats[k] == s;
                    let r = open[k];
                    assert(s == watcher::stepped(r, kinds, now));
                    assert(open.contains(r));
                    assert(w.repeats.contains(r));
                    let t = choose|t: watcher::Reminder| #[trigger]
                        w.repeats.contains(t) && t.kind == kind && t.count == count;
                    lemma_one_of_a_kind(w, r, t);
                }
            } else {
                assert(next.repeats == w.repeats);
            }
        },
    }
}

proof fn lemma_reminders_are_counted(
    w: watcher::Watch,
    events: Seq<Event>,
    settings: config::Settings,
    kind: AlertKind,
    count: int,
)
    requires
        watcher::well_kept(w),
        settings.poll_interval >= 0,
        never_raised(w, events, settings, kind),
        stands_at(w, kind, count) || !stands(w, kind),
    ensures
        !stands(w, kind) ==> reminders_sent(w, events, settings, kind) == 0 && !stands(
            run(w, events, settings),
            kind,
        ),
        stands(w, kind) ==> {
            let sent = reminders_sent(w, events, settings, kind);
            &&& count + sent <= watcher::REPEAT_CAP
            &&& stands_at(run(w, events, settings), kind, count + sent) || !stands(
                run(w, events, settings),
                kind,
            )
        },
    decreases events.len(),
{
    if events.len() == 0 {
        if stands(w, kind) {
            let r = choose|r: watcher::Reminder| #[trigger]
                w.repeats.contains(r) && r.kind == kind && r.count == count;
            let i = choose|i: int| 0 <= i < w.repeats.len() && w.repeats[i] == r;
            assert(w.repeats[i].count <= watcher::REPEAT_CAP);
        }
    } else {
        let front = events.drop_last();
        let then = run(w, front, settings);
        lemma_reminders_are_counted(w, front, settings, kind, count);
        law_a_run_keeps_the_state(w, front, settings);
        let so_far = reminders_sent(w, front, settings, kind);
        lemma_a_step_counts_reminders(then, events.last(), settings, kind, count + so_far);
    }
}

/// Reminders are capped: however a run goes on, as long as the condition is not
/// raised anew, no more than the cap of reminders of it are sent. Without a
/// repeat there is none at all.
pub proof fn law_reminders_are_capped(
    w: watcher::Watch,
    events: Seq<Event>,
    settings: config::Settings,
    kind: AlertKind,
)
    requires
        watcher::well_kept(w),
        settings.poll_interval >= 0,
        never_raised(w, events, settings, kind),
    ensures
        reminders_sent(w, events, settings, kind) <= watcher::REPEAT_CAP,
        !stands(w, kind) ==> reminders_sent(w, events, settings, kind) == 0,
{
    if stands(w, kind) {
        let r = choose|r: watcher::Reminder| #[trigger] w.repeats.contains(r) && r.kind == kind;
        lemma_reminders_are_counted(w, events, settings, kind, r.count as int);
    } else {
        lemma_reminders_are_counted(w, events, settings, kind, 0);
    }
}

/// The user is woken for nothing else: every alert at the highest severity is
/// the alert itself, a reminder of it that counts towards the cap, or another
/// attempt at one that reached nobody.
pub proof fn law_nothing_else_wakes_the_user(
    w: watcher::Watch,
    event: Event,
    settings: config::Settings,
    i: int,
)
    requires
        0 <= i < called_for(w, event, settings).len(),
        called_for(w, event, settings)[i].severity == Severity::Max,
    ensures
        ({
            let kind = called_for(w, event, settings)[i].kind;
            ||| raises(w, event, settings, kind)
            ||| reminds(w, event, settings, kind)
            ||| exists|r: watcher::Reminder| #[trigger]
                w.repeats.contains(r) && r.kind == kind && !r.delivered
        }),
{
    if let Event::Poll { found, now } = event {
        if let Ok(Ok(obs)) = found {
            let url = settings.target_url;
            let seen = watcher::answered(watcher::Watch { checks: w.checks + 1, ..w });
            let first = state::transition_notices(w.last, obs, url);
            let news = watcher::observation_notices(seen, obs, now, url);
            let open = watcher::open_repeats(w, obs, now, url);
            let kinds = watcher::fired(w, obs, url);
            assert(watcher::fired(seen, obs, url) == kinds);
            assert(watcher::open_repeats(seen, obs, now, url) == open);
            if i < first.len() {
                let is_max = |n: state::Notice| n.severity == Severity::Max;
                let max = first.filter(is_max);
                first.lemma_filter_contains(is_max, i);
                let k = choose|k: int| 0 <= k < max.len() && max[k] == first[i];
                assert(kinds[k] == first[i].kind);
            } else if i < news.len() {
                watcher::lemma_open_repeats(w, obs, now, url);
                let k = lemma_nudges_come_from_repeats(open, kinds, obs, now, url, i - first.len());
                assert(w.repeats.contains(open[k]));
            }
        }
    }
}

/// Whether the polls among the events come in the order of their times.
pub open spec fn in_time_order(events: Seq<Event>) -> bool {
    forall|i: int, j: int|
        0 <= i < j < events.len() && (#[trigger] events[i]) is Poll && (#[trigger] events[j]) is Poll
            ==> time_of(events[i]) <= time_of(events[j])
}

/// Whether every repeat of `kind` was sent at `time` or later.
pub open spec fn sent_since(w: watcher::Watch, kind: AlertKind, time: int) -> bool {
    forall|r: watcher::Reminder| #[trigger]
        w.repeats.contains(r) && r.kind == kind ==> r.sent_at >= time
}

/// An alert or a reminder of `kind` dates its repeat.
proof fn lemma_a_send_is_dated(
    w: watcher::Watch,
    event: Event,
    settings: config::Settings,
    kind: AlertKind,
)
    requires
        watcher::well_kept(w),
        raises(w, event, settings, kind) || reminds(w, event, settings, kind),
    ensures
        sent_since(after(w, event, settings), kind, time_of(event)),
{
    let next = after(w, event, settings);
    if let Event::Poll { found: Ok(Ok(obs)), now } = event {
        let url = settings.target_url;
        let kinds = watcher::fired(w, obs, url);
        let open = watcher::open_repeats(w, obs, now, url);
        lemma_repeats_after_a_poll(w, obs, now, settings);
        watcher::lemma_open_repeats(w, obs, now, url);
        assert forall|s: watcher::Reminder| #[trigger]
            next.repeats.contains(s) && s.kind == kind implies s.sent_at >= now by {
            let k = choose|k: int| 0 <= k < next.repeats.len() && next.repeats[k] == s;
            let r = open[k];
            assert(open.contains(r));
            if !kinds.contains(kind) {
                let q = choose|q: watcher::Reminder|
                    {
                        &&& #[trigger] open.contains(q)
                        &&& q.kind == kind
                        &&& watcher::due(q, kinds, now) == watcher::Due::Remind
                    };
                lemma_one_of_a_kind(w, q, r);
            }
        }
    }
}

/// What a poll makes of the repeats.
proof fn lemma_repeats_after_a_poll(
    w: watcher::Watch,
    obs: parse::Sighting,
    now: int,
    settings: config::Settings,
)
    ensures
        watcher::polled(w, Ok(Ok(obs)), now, settings).after.repeats == watcher::open_repeats(
            w,
            obs,
            now,
            settings.target_url,
        ).map_values(
            |r: watcher::Reminder|
                watcher::stepped(r, watcher::fired(w, obs, settings.target_url), now),
        ),
{
    let url = settings.target_url;
    let seen = watcher::answered(watcher::Watch { checks: w.checks + 1, ..w });
    assert(watcher::fired(seen, obs, url) == watcher::fired(w, obs, url));
    assert(watcher::open_repeats(seen, obs, now, url) == watcher::open_repeats(w, obs, now, url));
}

/// An event that does not raise `kind` only moves the date of its repeat to its
/// own time, if at all.
proof fn lemma_dates_move_on(
    w: watcher::Watch,
    event: Event,
    settings: config::Settings,
    kind: AlertKind,
    time: int,
)
    requires
        sent_since(w, kind, time),
        !raises(w, event, settings, kind),
        event is Poll ==> time_of(event) >= time,
    ensures
        sent_since(after(w, event, settings), kind, time),
{
    let next = after(w, event, settings);
    assert forall|s: watcher::Reminder| #[trigger]
        next.repeats.contains(s) && s.kind == kind implies s.sent_at >= time by {
        let k = choose|k: int| 0 <= k < next.repeats.len() && next.repeats[k] == s;
        match event {
            Event::Acknowledged => {},
            Event::Sent { notice, delivered } => {
                watcher::lemma_recorded(w.repeats, notice.kind, delivered);
                assert(w.repeats.contains(w.repeats[k]));
            },
            Event::Poll { found, now } => {
                if let Ok(Ok(obs)) = found {
                    let open = watcher::open_repeats(w, obs, now, settings.target_url);
                    lemma_repeats_after_a_poll(w, obs, now, settings);
                    watcher::lemma_open_repeats(w, obs, now, settings.target_url);
                    assert(open.contains(open[k]));
                } else {
                    assert(next.repeats == w.repeats);
                }
            },
        }
    }
}

proof fn lemma_dates_hold(
    w: watcher::Watch,
    events: Seq<Event>,
    settings: config::Settings,
    kind: AlertKind,
    i: int,
    j: int,
)
    requires
        watcher::well_kept(w),
        settings.poll_interval >= 0,
        in_time_order(events),
        0 <= i < j <= events.len(),
        events[i] is Poll,
        raises(before(w, events, settings, i), events[i], settings, kind) || reminds(
            before(w, events, settings, i),
            events[i],
            settings,
            kind,
        ),
        forall|k: int|
            i < k < j ==> !raises(
                #[trigger] before(w, events, settings, k),
                events[k],
                settings,
                kind,
            ),
    ensures
        sent_since(before(w, events, settings, j), kind, time_of(events[i])),
    decreases j,
{
    lemma_before_steps(w, events, settings, j - 1);
    if j == i + 1 {
        law_a_run_keeps_the_state(w, events.take(i), settings);
        lemma_a_send_is_dated(before(w, events, settings, i), events[i], settings, kind);
    } else {
        lemma_dates_hold(w, events, settings, kind, i, j - 1);
        lemma_dates_move_on(
            before(w, events, settings, j - 1),
            events[j - 1],
            settings,
            kind,
            time_of(events[i]),
        );
    }
}

/// Reminders are spaced: while time runs on, a reminder comes no earlier than
/// five minutes after the alert itself, and after the reminder before.
pub proof fn law_reminders_are_five_minutes_apart(
    w: watcher::Watch,
    events: Seq<Event>,
    settings: config::Settings,
    kind: AlertKind,
    i: int,
    j: int,
)
    requires
        watcher::well_kept(w),
        settings.poll_interval >= 0,
        in_time_order(events),
        0 <= i < j < events.len(),
        raises(before(w, events, settings, i), events[i], settings, kind) || reminds(
            before(w, events, settings, i),
            events[i],
            settings,
            kind,
        ),
        forall|k: int|
            i < k <= j ==> !raises(
                #[trigger] before(w, events, settings, k),
                events[k],
                settings,
                kind,
            ),
        reminds(before(w, events, settings, j), events[j], settings, kind),
    ensures
        time_of(events[j]) - time_of(events[i]) >= 5 * clock::minute(),
{
    lemma_dates_hold(w, events, settings, kind, i, j);
    let then = before(w, events, settings, j);
    if let Event::Poll { found: Ok(Ok(obs)), now } = events[j] {
        let kinds = watcher::fired(then, obs, settings.target_url);
        let open = watcher::open_repeats(then, obs, now, settings.target_url);
        watcher::lemma_open_repeats(then, obs, now, settings.target_url);
        let r = choose|r: watcher::Reminder|
            {
                &&& #[trigger] open.contains(r)
                &&& r.kind == kind
                &&& watcher::due(r, kinds, now) == watcher::Due::Remind
            };
        assert(then.repeats.contains(r));
    }
}

// ---------------------------------------------------------------------------
// Failures
// ---------------------------------------------------------------------------

/// An outage is reported by the first failed poll that finds it lasting for a
/// quarter of an hour, or finds us turned away, and not before.
pub proof fn law_an_outage_is_reported_in_time(
    w: watcher::Watch,
    e: FetchError,
    now: int,
    settings: config::Settings,
)
    ensures
        watcher::polled(w, Err(e), now, settings).notices.contains(
            watcher::outage(e, settings.target_url),
        ) <==> !w.failure_warned && (e is Blocked || (w.failures_since matches Some(since) && now
            - since >= 15 * clock::minute())),
{
    let all = watcher::polled(w, Err(e), now, settings).notices;
    let warning = watcher::outage(e, settings.target_url);
    if watcher::warns(w, e, now) {
        assert(all[0] == warning);
    } else {
        assert(forall|i: int| 0 <= i < all.len() ==> (#[trigger] all[i]).kind
            == AlertKind::Heartbeat);
    }
}

/// Whether every poll among the events failed.
pub open spec fn all_failing(events: Seq<Event>) -> bool {
    forall|i: int| 0 <= i < events.len() ==> ((#[trigger] events[i]) matches Event::Poll {
        found,
        ..
    } ==> found is Err)
}

/// Whether an event sends the warning that the site cannot be reached.
pub open spec fn warns_of_outage(w: watcher::Watch, event: Event) -> bool {
    event matches Event::Poll { found: Err(e), now } && watcher::warns(w, e, now)
}

/// How many warnings that the site cannot be reached the events send.
pub open spec fn warnings_sent(
    w: watcher::Watch,
    events: Seq<Event>,
    settings: config::Settings,
) -> nat
    decreases events.len(),
{
    if events.len() == 0 {
        0
    } else {
        let front = events.drop_last();
        warnings_sent(w, front, settings) + (if warns_of_outage(
            run(w, front, settings),
            events.last(),
        ) {
            1nat
        } else {
            0nat
        })
    }
}

/// A failure episode is reported once: however long it lasts, no second warning
/// goes out before the site has answered.
pub proof fn law_one_warning_per_episode(
    w: watcher::Watch,
    events: Seq<Event>,
    settings: config::Settings,
)
    requires
        all_failing(events),
    ensures
        warnings_sent(w, events, settings) <= 1,
        w.failure_warned ==> warnings_sent(w, events, settings) == 0,
        run(w, events, settings).failure_warned <==> w.failure_warned || warnings_sent(
            w,
            events,
            settings,
        ) == 1,
    decreases events.len(),
{
    if events.len() > 0 {
        let front = events.drop_last();
        assert(forall|i: int| 0 <= i < front.len() ==> #[trigger] front[i] == events[i]);
        law_one_warning_per_episode(w, front, settings);
        assert(events[events.len() - 1] == events.last());
    }
}

/// The wait after a failure never exceeds the cap, and where the site turned us
/// away it is never below the floor for that.
pub proof fn law_waits_after_failures_are_bounded(
    w: watcher::Watch,
    e: FetchError,
    now: int,
    settings: config::Settings,
)
    ensures
        ({
            let wait = watcher::polled(w, Err(e), now, settings).wait;
            &&& wait <= 600 * clock::NANOS_PER_SEC
            &&& e is Blocked ==> wait >= 300 * clock::NANOS_PER_SEC
        }),
{
}

/// `base` doubled `n` times, within the cap.
pub open spec fn capped_doublings(base: int, n: nat) -> int {
    let wait = base * vstd::arithmetic::power2::pow2(n);
    if wait <= 600 * clock::NANOS_PER_SEC {
        wait
    } else {
        600 * clock::NANOS_PER_SEC
    }
}

/// Whether every event is a poll that failed without our being turned away.
pub open spec fn all_unreachable(events: Seq<Event>) -> bool {
    forall|i: int| 0 <= i < events.len() ==> ((#[trigger] events[i]) matches Event::Poll {
        found,
        ..
    } && found is Err && !(found->Err_0 is Blocked))
}

/// Waits double: after a run of failures since the last answer, the wait is the
/// poll interval doubled once for each failure but the first, within the cap.
pub proof fn law_waits_double(
    w: watcher::Watch,
    events: Seq<Event>,
    settings: config::Settings,
)
    requires
        w.backoff is None,
        events.len() > 0,
        all_unreachable(events),
        settings.poll_interval >= 0,
    ensures
        run(w, events, settings).backoff == Some(
            capped_doublings(settings.poll_interval, (events.len() - 1) as nat),
        ),
    decreases events.len(),
{
    let base = settings.poll_interval;
    let n = (events.len() - 1) as nat;
    let front = events.drop_last();
    assert(events[n as int] == events.last());
    assert(forall|i: int| 0 <= i < front.len() ==> #[trigger] front[i] == events[i]);
    let then = run(w, front, settings);
    let next = run(w, events, settings);
    assert(next.backoff == Some(watcher::doubled(then.backoff, base)));
    let power = vstd::arithmetic::power2::pow2(n);
    if n == 0 {
        assert(then == w);
        vstd::arithmetic::power2::lemma2_to64();
        assert(base * power == base);
    } else {
        let m = (n - 1) as nat;
        let less = vstd::arithmetic::power2::pow2(m);
        law_waits_double(w, front, settings);
        assert(then.backoff == Some(capped_doublings(base, m)));
        vstd::arithmetic::power2::lemma_pow2_unfold(n);
        vstd::arithmetic::power2::lemma_pow2_pos(m);
        assert(power == 2 * less);
        assert(base * power == 2 * (base * less)) by (nonlinear_arith)
            requires
                power == 2 * less,
        ;
        assert(base * less >= 0) by (nonlinear_arith)
            requires
                base >= 0,
                less > 0,
        ;
    }
}

// ---------------------------------------------------------------------------
// Spacing
// ---------------------------------------------------------------------------

/// Whether an event sends a heartbeat.
pub open spec fn beats(w: watcher::Watch, event: Event) -> bool {
    event matches Event::Poll { now, .. } && watcher::heartbeat_due(w, now)
}

proof fn lemma_heartbeats_move_on(
    w: watcher::Watch,
    events: Seq<Event>,
    settings: config::Settings,
    i: int,
    j: int,
)
    requires
        0 <= i <= j <= events.len(),
    ensures
        before(w, events, settings, i).last_heartbeat <= before(
            w,
            events,
            settings,
            j,
        ).last_heartbeat,
    decreases j - i,
{
    if i < j {
        lemma_heartbeats_move_on(w, events, settings, i, j - 1);
        lemma_before_steps(w, events, settings, j - 1);
    }
}

/// No two heartbeats of a run are less than a day apart.
pub proof fn law_heartbeats_are_a_day_apart(
    w: watcher::Watch,
    events: Seq<Event>,
    settings: config::Settings,
    i: int,
    j: int,
)
    requires
        0 <= i < j < events.len(),
        beats(before(w, events, settings, i), events[i]),
        beats(before(w, events, settings, j), events[j]),
    ensures
        time_of(events[j]) - time_of(events[i]) >= 24 * 60 * clock::minute(),
{
    lemma_before_steps(w, events, settings, i);
    lemma_heartbeats_move_on(w, events, settings, i + 1, j);
}

/// Whether an event sends the warning that part of the page is missing.
pub open spec fn warns_of_structure(w: watcher::Watch, event: Event) -> bool {
    event matches Event::Poll { found: Ok(page), now } && watcher::structure_due(w, now) && (
    page matches Ok(obs) ==> obs.main == MainStock::Unknown)
}

proof fn lemma_structure_warnings_move_on(
    w: watcher::Watch,
    events: Seq<Event>,
    settings: config::Settings,
    i: int,
    j: int,
)
    requires
        0 <= i <= j <= events.len(),
        before(w, events, settings, i).last_structure_warn is Some,
    ensures
        before(w, events, settings, j).last_structure_warn matches Some(later) && before(
            w,
            events,
            settings,
            i,
        ).last_structure_warn->0 <= later,
    decreases j - i,
{
    if i < j {
        lemma_structure_warnings_move_on(w, events, settings, i, j - 1);
        lemma_before_steps(w, events, settings, j - 1);
    }
}

/// No two warnings of a run that part of the page is missing are less than a day
/// apart.
pub proof fn law_structure_warnings_are_a_day_apart(
    w: watcher::Watch,
    events: Seq<Event>,
    settings: config::Settings,
    i: int,
    j: int,
)
    requires
        0 <= i < j < events.len(),
        warns_of_structure(before(w, events, settings, i), events[i]),
        warns_of_structure(before(w, events, settings, j), events[j]),
    ensures
        time_of(events[j]) - time_of(events[i]) >= 24 * 60 * clock::minute(),
{
    lemma_before_steps(w, events, settings, i);
    lemma_structure_warnings_move_on(w, events, settings, i + 1, j);
}

/// What the events count is what is sent: a poll sends a heartbeat, a warning
/// that part of the page is missing, or a warning that the site cannot be
/// reached, if and only if it counts as sending one.
pub proof fn law_what_is_counted_is_sent(
    w: watcher::Watch,
    event: Event,
    settings: config::Settings,
)
    ensures
        beats(w, event) <==> exists|i: int|
            0 <= i < called_for(w, event, settings).len() && (#[trigger] called_for(
                w,
                event,
                settings,
            )[i]).kind == AlertKind::Heartbeat,
        warns_of_structure(w, event) <==> exists|i: int|
            0 <= i < called_for(w, event, settings).len() && (#[trigger] called_for(
                w,
                event,
                settings,
            )[i]).kind == AlertKind::StructureChanged,
        warns_of_outage(w, event) <==> exists|i: int|
            0 <= i < called_for(w, event, settings).len() && (#[trigger] called_for(
                w,
                event,
                settings,
            )[i]).kind == AlertKind::FetchFailing,
{
    let all = called_for(w, event, settings);
    if let Event::Poll { found, now } = event {
        let url = settings.target_url;
        let counted = watcher::Watch { checks: w.checks + 1, ..w };
        let last = all.len() - 1;
        if beats(w, event) {
            assert(all[last].kind == AlertKind::Heartbeat);
        }
        if let Ok(Ok(obs)) = found {
            let seen = watcher::answered(counted);
            let news = watcher::observation_notices(seen, obs, now, url);
            assert forall|i: int| 0 <= i < news.len() implies {
                &&& (#[trigger] all[i]).kind != AlertKind::Heartbeat
                &&& all[i].kind != AlertKind::StructureChanged
                &&& all[i].kind != AlertKind::FetchFailing
            } by {
                assert(all[i] == news[i]);
                let first = state::transition_notices(w.last, obs, url);
                if i >= first.len() {
                    lemma_nudges_name_open_conditions(seen, obs, now, url, i);
                }
            }
            if warns_of_structure(w, event) {
                assert(all[news.len() as int].kind == AlertKind::StructureChanged);
            }
        } else if warns_of_structure(w, event) {
            assert(all[0].kind == AlertKind::StructureChanged);
        } else if warns_of_outage(w, event) {
            assert(all[0].kind == AlertKind::FetchFailing);
        }
    }
}

// ---------------------------------------------------------------------------
// In numbers and words
// ---------------------------------------------------------------------------

/// The wait after a failure in numbers: the poll interval at first, then twice
/// the wait before; never more than ten minutes; and where the site turned us
/// away, never less than five.
pub proof fn law_waits_in_numbers(
    w: watcher::Watch,
    e: FetchError,
    now: int,
    settings: config::Settings,
)
    ensures
        ({
            let plain = match w.backoff {
                None => settings.poll_interval,
                Some(last) => last + last,
            };
            let poll = watcher::polled(w, Err(e), now, settings);
            &&& plain <= 600_000_000_000 && !(e is Blocked) ==> poll.wait == plain
            &&& 300_000_000_000 <= plain <= 600_000_000_000 ==> poll.wait == plain
            &&& plain > 600_000_000_000 ==> poll.wait == 600_000_000_000
            &&& plain < 300_000_000_000 && e is Blocked ==> poll.wait == 300_000_000_000
            &&& poll.after.backoff == Some(poll.wait)
        }),
        ({
            let plain = match w.backoff {
                None => settings.poll_interval,
                Some(last) => last + last,
            };
            let wait = watcher::doubled(w.backoff, settings.poll_interval);
            &&& plain <= 600_000_000_000 ==> wait == plain
            &&& plain > 600_000_000_000 ==> wait == 600_000_000_000
        }),
{
}

/// Which alerts a page raises at the highest severity: the one for stock that the
/// page before did not show, of either kind, and no other.
pub proof fn law_what_is_raised(
    w: watcher::Watch,
    obs: parse::Sighting,
    url: Seq<char>,
    kind: AlertKind,
)
    ensures
        watcher::fired(w, obs, url).contains(kind) <==> match kind {
            AlertKind::ResaleAvailable => obs.resale == ResaleState::Available && !(
            w.last matches Some(p) && p.resale == ResaleState::Available),
            AlertKind::MainOnSale => obs.main == MainStock::OnSale && !(w.last matches Some(p)
                && p.main == MainStock::OnSale),
            _ => false,
        },
{
    let all = state::transition_notices(w.last, obs, url);
    let is_max = |n: state::Notice| n.severity == Severity::Max;
    let max = all.filter(is_max);
    let kinds = watcher::fired(w, obs, url);
    state::law_each_change_raises_its_own_alert(w.last, obs, url);
    if kinds.contains(kind) {
        let k = choose|k: int| 0 <= k < kinds.len() && kinds[k] == kind;
        all.lemma_filter_pred(is_max, k);
        lemma_filtered_are_there(all, is_max, k);
        let i = choose|i: int| 0 <= i < all.len() && all[i] == max[k];
        state::law_each_alert_reads_as_it_should(w.last, obs, url, i);
        assert(state::mentions(all, kind));
    }
    if state::mentions(all, kind) && (kind == AlertKind::ResaleAvailable || kind
        == AlertKind::MainOnSale) {
        let i = choose|i: int| 0 <= i < all.len() && (#[trigger] all[i]).kind == kind;
        state::law_each_alert_reads_as_it_should(w.last, obs, url, i);
        all.lemma_filter_contains(is_max, i);
        let k = choose|k: int| 0 <= k < max.len() && max[k] == all[i];
        assert(kinds[k] == kind);
    }
}

proof fn lemma_filtered_are_there<A>(s: Seq<A>, p: spec_fn(A) -> bool, k: int)
    requires
        0 <= k < s.filter(p).len(),
    ensures
        s.contains(s.filter(p)[k]),
    decreases s.len(),
{
    reveal(Seq::filter);
    let front = s.drop_last();
    if k < front.filter(p).len() {
        lemma_filtered_are_there(front, p, k);
        let i = choose|i: int| 0 <= i < front.len() && front[i] == front.filter(p)[k];
        assert(s[i] == s.filter(p)[k]);
    } else {
        assert(s[s.len() - 1] == s.filter(p)[k]);
    }
}

/// Whether the page shows what an alert of `kind` is about.
pub open spec fn shows(obs: parse::Sighting, kind: AlertKind) -> bool {
    ||| kind == AlertKind::ResaleAvailable && obs.resale == ResaleState::Available
    ||| kind == AlertKind::MainOnSale && obs.main == MainStock::OnSale
}

/// Whether the page before showed what an alert of `kind` is about.
pub open spec fn showed(w: watcher::Watch, kind: AlertKind) -> bool {
    w.last matches Some(before) && shows(before, kind)
}

/// Another alert about what the page still shows, in words.
pub open spec fn spoken_again(
    kind: AlertKind,
    opening: Seq<char>,
    obs: parse::Sighting,
    url: Seq<char>,
) -> state::Notice {
    state::Notice {
        kind,
        severity: Severity::Max,
        title: "🎟️ STILL AVAILABLE"@,
        body: opening + "\n\n"@ + (if kind == AlertKind::MainOnSale {
            "The main shop is still not showing 'Ausverkauft'."@
        } else {
            state::summary(obs.listings, obs.resale_text)
        }) + "\n\n"@ + url,
    }
}

/// What a poll makes of a repeat whose condition it still sees.
proof fn lemma_a_poll_sees_to_a_repeat(
    w: watcher::Watch,
    obs: parse::Sighting,
    now: int,
    settings: config::Settings,
    r: watcher::Reminder,
)
    requires
        w.repeats.contains(r),
        shows(obs, r.kind),
        showed(w, r.kind),
    ensures
        ({
            let kinds = watcher::fired(w, obs, settings.target_url);
            let poll = watcher::polled(w, Ok(Ok(obs)), now, settings);
            &&& !kinds.contains(r.kind)
            &&& watcher::nudge(r, kinds, obs, now, settings.target_url) matches Some(n)
                ==> poll.notices.contains(n)
            &&& poll.after.repeats.contains(watcher::stepped(r, kinds, now))
        }),
{
    let url = settings.target_url;
    let kinds = watcher::fired(w, obs, url);
    let seen = watcher::answered(watcher::Watch { checks: w.checks + 1, ..w });
    let poll = watcher::polled(w, Ok(Ok(obs)), now, settings);
    law_what_is_raised(w, obs, url, r.kind);
    assert(watcher::fired(seen, obs, url) == kinds);
    lemma_a_repeat_is_seen_to(seen, obs, now, url, r);
    let news = watcher::observation_notices(seen, obs, now, url);
    assert(forall|i: int| 0 <= i < news.len() ==> #[trigger] poll.notices[i] == news[i]);
    assert forall|n: state::Notice| news.contains(n) implies #[trigger] poll.notices.contains(n) by {
        let i = choose|i: int| 0 <= i < news.len() && news[i] == n;
        assert(poll.notices[i] == n);
    }
}

/// Reminders keep coming: as long as the page shows what a delivered alert was
/// about, every poll that comes five minutes or more after the last send, however
/// much more, sends the next of six reminders, and counts it.
pub proof fn law_reminders_keep_coming(
    w: watcher::Watch,
    obs: parse::Sighting,
    now: int,
    settings: config::Settings,
    r: watcher::Reminder,
)
    requires
        w.repeats.contains(r),
        shows(obs, r.kind),
        showed(w, r.kind),
        r.delivered,
        r.count < 6,
        now - r.sent_at >= 300_000_000_000,
    ensures
        watcher::polled(w, Ok(Ok(obs)), now, settings).notices.contains(
            spoken_again(
                r.kind,
                "Reminder "@ + text::decimal((r.count + 1) as nat) + " of 6."@,
                obs,
                settings.target_url,
            ),
        ),
        watcher::polled(w, Ok(Ok(obs)), now, settings).after.repeats.contains(
            watcher::Reminder {
                kind: r.kind,
                sent_at: now,
                count: (r.count + 1) as u32,
                delivered: false,
            },
        ),
{
    let url = settings.target_url;
    lemma_a_poll_sees_to_a_repeat(w, obs, now, settings, r);
    text::law_decimal_digit_by_digit(0, 6);
    reveal_strlit("0123456789");
    reveal_strlit(" of ");
    reveal_strlit(".");
    reveal_strlit(" of 6.");
    let opening = "Reminder "@ + text::decimal((r.count + 1) as nat) + " of 6."@;
    assert(watcher::reminder_opening(r) =~= opening);
    assert(watcher::still_available(r.kind, opening, obs, url).body =~= spoken_again(
        r.kind,
        opening,
        obs,
        url,
    ).body);
}

/// An alert that reached nobody is spoken again by every poll that still sees
/// what it was about, without waiting and without counting.
pub proof fn law_retries_keep_coming(
    w: watcher::Watch,
    obs: parse::Sighting,
    now: int,
    settings: config::Settings,
    r: watcher::Reminder,
)
    requires
        w.repeats.contains(r),
        shows(obs, r.kind),
        showed(w, r.kind),
        !r.delivered,
    ensures
        watcher::polled(w, Ok(Ok(obs)), now, settings).notices.contains(
            spoken_again(
                r.kind,
                "The previous alert could not be delivered."@,
                obs,
                settings.target_url,
            ),
        ),
        watcher::polled(w, Ok(Ok(obs)), now, settings).after.repeats.contains(
            watcher::Reminder { kind: r.kind, sent_at: now, count: r.count, delivered: false },
        ),
{
    let url = settings.target_url;
    lemma_a_poll_sees_to_a_repeat(w, obs, now, settings, r);
    let opening = "The previous alert could not be delivered."@;
    assert(watcher::still_available(r.kind, opening, obs, url).body =~= spoken_again(
        r.kind,
        opening,
        obs,
        url,
    ).body);
}

/// Nothing is repeated before its time: an alert that was delivered less than
/// five minutes ago, or has been repeated six times, is not spoken again while
/// its condition lasts, and its repeat stays as it is.
pub proof fn law_nothing_is_repeated_before_its_time(
    w: watcher::Watch,
    obs: parse::Sighting,
    now: int,
    settings: config::Settings,
    r: watcher::Reminder,
    i: int,
)
    requires
        watcher::distinct(w.repeats),
        w.repeats.contains(r),
        shows(obs, r.kind),
        showed(w, r.kind),
        r.delivered,
        r.count >= 6 || now - r.sent_at < 300_000_000_000,
    ensures
        0 <= i < watcher::polled(w, Ok(Ok(obs)), now, settings).notices.len() ==> watcher::polled(
            w,
            Ok(Ok(obs)),
            now,
            settings,
        ).notices[i].kind != r.kind,
        watcher::polled(w, Ok(Ok(obs)), now, settings).after.repeats.contains(r),
{
    let url = settings.target_url;
    let seen = watcher::answered(watcher::Watch { checks: w.checks + 1, ..w });
    let kinds = watcher::fired(seen, obs, url);
    let open = watcher::open_repeats(seen, obs, now, url);
    let first = state::transition_notices(w.last, obs, url);
    let news = watcher::observation_notices(seen, obs, now, url);
    let all = watcher::polled(w, Ok(Ok(obs)), now, settings).notices;
    lemma_a_poll_sees_to_a_repeat(w, obs, now, settings, r);
    assert(kinds == watcher::fired(w, obs, url));
    if 0 <= i < all.len() && all[i].kind == r.kind {
        if i < first.len() {
            assert(all[i] == first[i]);
            state::law_each_change_raises_its_own_alert(w.last, obs, url);
            assert(state::mentions(first, r.kind));
        } else if i < news.len() {
            assert(all[i] == news[i]);
            watcher::lemma_open_repeats(seen, obs, now, url);
            let k = lemma_nudges_come_from_repeats(open, kinds, obs, now, url, i - first.len());
            lemma_one_of_a_kind(w, open[k], r);
        }
    }
}

/// A fresh alert gets a fresh repeat, dated now, with no reminder counted and
/// nobody known to have it. What the page does not show has no repeat.
pub proof fn law_repeats_follow_the_page(
    w: watcher::Watch,
    obs: parse::Sighting,
    now: int,
    settings: config::Settings,
    kind: AlertKind,
    r: watcher::Reminder,
)
    ensures
        shows(obs, kind) && !showed(w, kind) ==> watcher::polled(
            w,
            Ok(Ok(obs)),
            now,
            settings,
        ).after.repeats.contains(
            watcher::Reminder { kind, sent_at: now, count: 0, delivered: false },
        ),
        watcher::polled(w, Ok(Ok(obs)), now, settings).after.repeats.contains(r) ==> shows(
            obs,
            r.kind,
        ),
{
    let url = settings.target_url;
    let kinds = watcher::fired(w, obs, url);
    let open = watcher::open_repeats(w, obs, now, url);
    let next = watcher::polled(w, Ok(Ok(obs)), now, settings).after.repeats;
    lemma_repeats_after_a_poll(w, obs, now, settings);
    watcher::lemma_open_repeats(w, obs, now, url);
    law_what_is_raised(w, obs, url, kind);
    if shows(obs, kind) && !showed(w, kind) {
        let new = watcher::fresh_repeat(kind, now);
        assert(open.contains(new));
        let k = choose|k: int| 0 <= k < open.len() && open[k] == new;
        assert(next[k] == watcher::stepped(new, kinds, now));
        assert(next[k] == new);
    }
    if next.contains(r) {
        let k = choose|k: int| 0 <= k < next.len() && next[k] == r;
        assert(open.contains(open[k]));
    }
}

/// Heartbeats in numbers: every poll that comes a day or more after the last
/// heartbeat, however much more and whatever it found, ends with one that tells
/// how many checks there have been, since when, and when the page last changed.
/// No other poll has one.
pub proof fn law_heartbeats_in_numbers(
    w: watcher::Watch,
    found: watcher::Found,
    now: int,
    settings: config::Settings,
    i: int,
)
    ensures
        ({
            let poll = watcher::polled(w, found, now, settings);
            if now - w.last_heartbeat >= 86_400_000_000_000 {
                &&& poll.after.last_heartbeat == now
                &&& poll.notices.len() > 0
                &&& poll.notices.last() == (state::Notice {
                    kind: AlertKind::Heartbeat,
                    severity: Severity::Info,
                    title: "✅ sb-watcher still running"@,
                    body: text::decimal(w.checks + 1) + " checks since "@ + clock::minute_text(
                        w.started,
                    ) + ". Last change: "@ + (match poll.after.last_change {
                        Some(at) => clock::minute_text(at),
                        None => "none"@,
                    }) + "."@,
                })
            } else {
                &&& poll.after.last_heartbeat == w.last_heartbeat
                &&& 0 <= i < poll.notices.len() ==> poll.notices[i].kind != AlertKind::Heartbeat
            }
        }),
{
    law_what_is_counted_is_sent(w, Event::Poll { found, now }, settings);
}

/// Whether the page as it was found lacks its exchange or its product frame.
pub open spec fn lacks_a_part(found: watcher::Found) -> bool {
    found matches Ok(page) && (page matches Ok(obs) ==> obs.main == MainStock::Unknown)
}

/// Structure warnings in numbers: a page that lacks a part is reported, by name,
/// unless it was within the last day; any other poll reports nothing of the kind.
pub proof fn law_structure_warnings_in_numbers(
    w: watcher::Watch,
    found: watcher::Found,
    now: int,
    settings: config::Settings,
    i: int,
)
    ensures
        ({
            let poll = watcher::polled(w, found, now, settings);
            let lately = w.last_structure_warn matches Some(last) && now - last
                < 86_400_000_000_000;
            if lacks_a_part(found) && !lately {
                &&& poll.after.last_structure_warn == Some(now)
                &&& poll.notices.contains(
                    state::Notice {
                        kind: AlertKind::StructureChanged,
                        severity: Severity::Info,
                        title: "⚠️ Page structure changed"@,
                        body: (if found->Ok_0 is Ok {
                            "The main product frame"@
                        } else {
                            "The Ticketbörse card"@
                        }) + " could not be found. sb-watcher may be blind and needs a code update."@
                            + "\n\n"@ + settings.target_url,
                    },
                )
            } else {
                &&& poll.after.last_structure_warn == w.last_structure_warn
                &&& 0 <= i < poll.notices.len() ==> poll.notices[i].kind
                    != AlertKind::StructureChanged
            }
        }),
{
    law_what_is_counted_is_sent(w, Event::Poll { found, now }, settings);
    if lacks_a_part(found) && watcher::structure_due(w, now) {
        match found {
            Ok(Ok(obs)) => {
                law_a_missing_frame_is_reported(w, obs, now, settings, 0);
            },
            Ok(Err(_)) => {
                law_a_missing_card_is_reported(w, now, settings);
            },
            Err(_) => {},
        }
    }
}

/// Outages in numbers: a failed poll warns, once, if the site turned us away or
/// fetches have failed for a quarter of an hour or more, however much more. It
/// keeps the start of the episode, and what was seen of the page and what is
/// being repeated stays as it was.
pub proof fn law_outages_in_numbers(
    w: watcher::Watch,
    e: FetchError,
    now: int,
    settings: config::Settings,
    i: int,
)
    ensures
        ({
            let poll = watcher::polled(w, Err(e), now, settings);
            let since = match w.failures_since {
                Some(since) => since,
                None => now,
            };
            &&& poll.after.failures_since == Some(since)
            &&& if !w.failure_warned && (e is Blocked || now - since >= 900_000_000_000) {
                &&& poll.after.failure_warned
                &&& poll.notices.contains(
                    state::Notice {
                        kind: AlertKind::FetchFailing,
                        severity: Severity::Info,
                        title: "⚠️ sb-watcher cannot reach the site"@,
                        body: fetch::failure_text(e) + "\n\n"@
                            + "The watcher is currently blind. It keeps retrying."@ + "\n\n"@
                            + settings.target_url,
                    },
                )
            } else {
                &&& poll.after.failure_warned == w.failure_warned
                &&& 0 <= i < poll.notices.len() ==> poll.notices[i].kind != AlertKind::FetchFailing
            }
            &&& poll.after.last == w.last
            &&& poll.after.last_change == w.last_change
            &&& poll.after.repeats == w.repeats
            &&& poll.after.started == w.started
        }),
{
    law_what_is_counted_is_sent(w, Event::Poll { found: Err(e), now }, settings);
    let all = watcher::polled(w, Err(e), now, settings).notices;
    if watcher::warns(w, e, now) {
        let warning = watcher::outage(e, settings.target_url);
        assert(all[0] == warning);
        assert(warning.body =~= fetch::failure_text(e) + "\n\n"@
            + "The watcher is currently blind. It keeps retrying."@ + "\n\n"@
            + settings.target_url);
    }
}

/// What a page leaves behind: it is remembered as it was seen, and a page that
/// differs in anything from the one before dates the change. A page that cannot
/// be made out leaves both as they were, and no alert or reminder.
pub proof fn law_pages_are_remembered(
    w: watcher::Watch,
    page: Result<parse::Sighting, ParseError>,
    now: int,
    settings: config::Settings,
)
    ensures
        ({
            let after = watcher::polled(w, Ok(page), now, settings).after;
            &&& after.started == w.started
            &&& match page {
                Ok(obs) => {
                    &&& after.last == Some(obs)
                    &&& after.last_change == (if w.last == Some(obs) {
                        w.last_change
                    } else {
                        Some(now)
                    })
                },
                Err(_) => {
                    &&& after.last == w.last
                    &&& after.last_change == w.last_change
                    &&& after.repeats == w.repeats
                },
            }
        }),
{
}

/// A poll says nothing beside the point: whatever it sends about a page is about
/// a change of the page, about what a repeat stands for, or a structure warning
/// or a heartbeat.
pub proof fn law_a_poll_says_nothing_beside_the_point(
    w: watcher::Watch,
    obs: parse::Sighting,
    now: int,
    settings: config::Settings,
    i: int,
)
    requires
        0 <= i < watcher::polled(w, Ok(Ok(obs)), now, settings).notices.len(),
    ensures
        ({
            let alert = watcher::polled(w, Ok(Ok(obs)), now, settings).notices[i];
            ||| state::transition_notices(w.last, obs, settings.target_url).contains(alert)
            ||| alert.title == "🎟️ STILL AVAILABLE"@ && exists|r: watcher::Reminder| #[trigger]
                w.repeats.contains(r) && r.kind == alert.kind
            ||| alert.kind == AlertKind::StructureChanged
            ||| alert.kind == AlertKind::Heartbeat
        }),
{
    let url = settings.target_url;
    let seen = watcher::answered(watcher::Watch { checks: w.checks + 1, ..w });
    let kinds = watcher::fired(seen, obs, url);
    let open = watcher::open_repeats(seen, obs, now, url);
    let first = state::transition_notices(w.last, obs, url);
    let news = watcher::observation_notices(seen, obs, now, url);
    let all = watcher::polled(w, Ok(Ok(obs)), now, settings).notices;
    if i < first.len() {
        assert(all[i] == first[i]);
    } else if i < news.len() {
        assert(all[i] == news[i]);
        watcher::lemma_open_repeats(seen, obs, now, url);
        let k = lemma_nudges_come_from_repeats(open, kinds, obs, now, url, i - first.len());
        assert(w.repeats.contains(open[k]));
    }
}

/// Taking note of a delivery: of the repeat that was sent it is then known
/// whether it reached anyone, and nothing else changes. An alert that is sent
/// once leaves everything as it was.
pub proof fn law_deliveries_are_noted(
    w: watcher::Watch,
    sent: state::Notice,
    delivered: bool,
    k: int,
)
    requires
        watcher::distinct(w.repeats),
        0 <= k < w.repeats.len(),
    ensures
        sent.severity == Severity::Info ==> watcher::settled(w, sent, delivered) == w,
        sent.severity == Severity::Max ==> {
            let after = watcher::settled(w, sent, delivered).repeats;
            &&& after.len() == w.repeats.len()
            &&& w.repeats[k].kind != sent.kind ==> after[k] == w.repeats[k]
            &&& w.repeats[k].kind == sent.kind ==> after[k] == (watcher::Reminder {
                delivered,
                ..w.repeats[k]
            })
        },
{
    watcher::lemma_recorded(w.repeats, sent.kind, delivered);
    if w.repeats[k].kind == sent.kind {
        assert forall|j: int| 0 <= j < k implies (#[trigger] w.repeats[j]).kind != sent.kind by {
            assert(w.repeats[j].kind != w.repeats[k].kind);
        }
        watcher::lemma_recorded_at(w.repeats, sent.kind, delivered, k);
    }
}

/// An acknowledgement ends every repeat, and changes nothing else.
pub proof fn law_an_acknowledgement_ends_every_repeat(w: watcher::Watch)
    ensures
        watcher::acknowledged(w).repeats.len() == 0,
        watcher::acknowledged(w).last == w.last,
        watcher::acknowledged(w).checks == w.checks,
        watcher::acknowledged(w).failures_since == w.failures_since,
        watcher::acknowledged(w).failure_warned == w.failure_warned,
        watcher::acknowledged(w).last_change == w.last_change,
        watcher::acknowledged(w).started == w.started,
        watcher::acknowledged(w).backoff == w.backoff,
        watcher::acknowledged(w).last_structure_warn == w.last_structure_warn,
        watcher::acknowledged(w).last_heartbeat == w.last_heartbeat,
{
}

/// A watcher starts with nothing seen, nothing counted, nothing failing and
/// nothing to repeat, and its first heartbeat comes a day after its start.
pub proof fn law_a_watcher_starts_afresh(now: int)
    ensures
        watcher::fresh(now).last is None,
        watcher::fresh(now).checks == 0,
        watcher::fresh(now).failures_since is None,
        !watcher::fresh(now).failure_warned,
        watcher::fresh(now).repeats.len() == 0,
        watcher::fresh(now).last_change is None,
        watcher::fresh(now).started == now,
        watcher::fresh(now).backoff is None,
        watcher::fresh(now).last_structure_warn is None,
        watcher::fresh(now).last_heartbeat == now,
{
}

/// The start is announced with what is watched and how often, in seconds, and
/// rehearsal mode is announced if and only if it is on, with the file it reads.
pub proof fn law_the_start_is_announced(settings: config::Settings, secs: nat)
    requires
        secs * 1_000_000_000 <= settings.poll_interval < (secs + 1) * 1_000_000_000,
    ensures
        ({
            let alert = watcher::started(settings);
            let said = "Watching "@ + settings.target_url + " every "@ + text::decimal(secs) + "s."@;
            &&& alert.kind == AlertKind::Started
            &&& alert.severity == Severity::Info
            &&& alert.title == "▶️ sb-watcher started"@
            &&& match settings.fixture_path {
                Some(path) => alert.body == said + "\n\n⚠️ FIXTURE MODE: reading "@ + path
                    + " instead of the live site."@,
                None => alert.body == said,
            }
        }),
{
    assert(settings.poll_interval / 1_000_000_000 == secs);
    let said = "Watching "@ + settings.target_url + " every "@ + text::decimal(secs) + "s."@;
    if let Some(path) = settings.fixture_path {
        assert(watcher::started(settings).body =~= said + "\n\n⚠️ FIXTURE MODE: reading "@ + path
            + " instead of the live site."@);
    } else {
        assert(watcher::started(settings).body =~= said);
    }
}

proof fn lemma_nudges_add_up(
    a: Seq<watcher::Reminder>,
    b: Seq<watcher::Reminder>,
    kinds: Seq<AlertKind>,
    obs: parse::Sighting,
    now: int,
    url: Seq<char>,
)
    ensures
        watcher::nudges(a + b, kinds, obs, now, url) == watcher::nudges(a, kinds, obs, now, url)
            + watcher::nudges(b, kinds, obs, now, url),
    decreases b.len(),
{
    if b.len() == 0 {
        assert(a + b =~= a);
        assert(watcher::nudges(a, kinds, obs, now, url) + watcher::nudges(b, kinds, obs, now, url)
            =~= watcher::nudges(a, kinds, obs, now, url));
    } else {
        let less = b.drop_last();
        lemma_nudges_add_up(a, less, kinds, obs, now, url);
        assert((a + b).drop_last() =~= a + less);
        assert((a + b).last() == b.last());
        assert(watcher::nudges(a + b, kinds, obs, now, url) =~= watcher::nudges(
            a,
            kinds,
            obs,
            now,
            url,
        ) + watcher::nudges(b, kinds, obs, now, url));
    }
}

/// A poll speaks in order: first of what has changed, then of what is still open,
/// each repeat in its turn, then of what is missing, and last of itself.
pub proof fn law_a_poll_speaks_in_order(
    w: watcher::Watch,
    obs: parse::Sighting,
    now: int,
    settings: config::Settings,
    a: Seq<watcher::Reminder>,
    b: Seq<watcher::Reminder>,
    i: int,
    j: int,
)
    ensures
        ({
            let first = state::transition_notices(w.last, obs, settings.target_url);
            let all = watcher::polled(w, Ok(Ok(obs)), now, settings).notices;
            &&& all.len() >= first.len()
            &&& 0 <= i < first.len() ==> all[i] == first[i]
            &&& 0 <= i < j < all.len() && all[i].kind == AlertKind::StructureChanged ==> all[j].kind
                == AlertKind::Heartbeat
            &&& 0 <= i < j < all.len() ==> all[i].kind != AlertKind::Heartbeat
        }),
        ({
            let kinds = watcher::fired(w, obs, settings.target_url);
            let url = settings.target_url;
            watcher::nudges(a + b, kinds, obs, now, url) == watcher::nudges(
                a,
                kinds,
                obs,
                now,
                url,
            ) + watcher::nudges(b, kinds, obs, now, url)
        }),
{
    let url = settings.target_url;
    let seen = watcher::answered(watcher::Watch { checks: w.checks + 1, ..w });
    let first = state::transition_notices(w.last, obs, url);
    let news = watcher::observation_notices(seen, obs, now, url);
    let all = watcher::polled(w, Ok(Ok(obs)), now, settings).notices;
    lemma_nudges_add_up(a, b, watcher::fired(w, obs, url), obs, now, url);
    if 0 <= i < j < all.len() {
        if i < first.len() {
            assert(all[i] == first[i]);
            state::law_each_alert_reads_as_it_should(w.last, obs, url, i);
        } else if i < news.len() {
            assert(all[i] == news[i]);
            lemma_nudges_name_open_conditions(seen, obs, now, url, i);
        }
    }
}

}
