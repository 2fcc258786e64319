//! The watcher's state, and what each poll makes of it.
//!
//! Everything here is pure: no clock, no I/O. A poll is folded into the state
//! and yields the alerts to send and the time to wait.

use vstd::prelude::*;

use crate::clock;
use crate::clock::{Duration, Timestamp};
use crate::config;
use crate::config::Config;
use crate::fetch;
use crate::fetch::FetchError;
use crate::page;
use crate::parse;
use crate::parse::{classify, MainStock, PageObservation, ParseError, ResaleState};
use crate::state;
use crate::state::{linked, listing_summary, transitions, Alert, AlertKind, Severity};
use crate::text;
use crate::text::push_decimal;

verus! {

broadcast use vstd::string::group_string_axioms;

pub const REPEAT_EVERY_MINS: i64 = 5;

pub const REPEAT_CAP: u32 = 6;

pub const FAILURE_WARN_AFTER_MINS: i64 = 15;

pub const HEARTBEAT_EVERY_HOURS: i64 = 24;

pub const STRUCTURE_WARN_EVERY_HOURS: i64 = 24;

pub const BACKOFF_MAX_SECS: u64 = 600;

pub const BLOCKED_BACKOFF_SECS: u64 = 300;

// ---------------------------------------------------------------------------
// State
// ---------------------------------------------------------------------------

/// A Max alert whose condition is still open.
#[derive(Debug, Clone, Copy, PartialEq, Eq)]
pub struct AlertRepeat {
    pub kind: AlertKind,
    pub sent_at: Timestamp,
    /// Reminders sent so far. The initial alert and delivery retries are not
    /// counted.
    pub count: u32,
    /// Whether the most recent send for this kind reached at least one channel.
    pub delivered: bool,
}

/// What a repeat says.
pub struct Reminder {
    pub kind: AlertKind,
    pub sent_at: int,
    pub count: u32,
    pub delivered: bool,
}

impl View for AlertRepeat {
    type V = Reminder;

    open spec fn view(&self) -> Reminder {
        Reminder {
            kind: self.kind,
            sent_at: self.sent_at@,
            count: self.count,
            delivered: self.delivered,
        }
    }
}

/// What repeats say.
pub open spec fn reminders(v: Seq<AlertRepeat>) -> Seq<Reminder> {
    v.map_values(|r: AlertRepeat| r@)
}

#[derive(Debug)]
pub struct AppState {
    pub last: Option<PageObservation>,
    pub checks: u64,
    pub failures_since: Option<Timestamp>,
    pub failure_warned: bool,
    pub repeats: Vec<AlertRepeat>,
    pub last_change: Option<Timestamp>,
    pub started: Timestamp,
    pub backoff: Option<Duration>,
    pub last_structure_warn: Option<Timestamp>,
    pub last_heartbeat: Timestamp,
}

/// What a state says. Instants and spans are in nanoseconds.
#[verifier::ext_equal]
pub struct Watch {
    pub last: Option<parse::Sighting>,
    pub checks: nat,
    pub failures_since: Option<int>,
    pub failure_warned: bool,
    pub repeats: Seq<Reminder>,
    pub last_change: Option<int>,
    pub started: int,
    pub backoff: Option<int>,
    pub last_structure_warn: Option<int>,
    pub last_heartbeat: int,
}

/// The instant that an optional timestamp says.
pub open spec fn instant(t: Option<Timestamp>) -> Option<int> {
    match t {
        Some(t) => Some(t@),
        None => None,
    }
}

/// The span that an optional duration says.
pub open spec fn span(d: Option<Duration>) -> Option<int> {
    match d {
        Some(d) => Some(d@),
        None => None,
    }
}

impl View for AppState {
    type V = Watch;

    open spec fn view(&self) -> Watch {
        Watch {
            last: state::seen(self.last),
            checks: self.checks as nat,
            failures_since: instant(self.failures_since),
            failure_warned: self.failure_warned,
            repeats: reminders(self.repeats@),
            last_change: instant(self.last_change),
            started: self.started@,
            backoff: span(self.backoff),
            last_structure_warn: instant(self.last_structure_warn),
            last_heartbeat: self.last_heartbeat@,
        }
    }
}

/// A watcher that starts at `now`.
pub open spec fn fresh(now: int) -> Watch {
    Watch {
        last: None,
        checks: 0,
        failures_since: None,
        failure_warned: false,
        repeats: Seq::empty(),
        last_change: None,
        started: now,
        backoff: None,
        last_structure_warn: None,
        last_heartbeat: now,
    }
}

impl AppState {
    /// The state of a watcher that starts at `now`.
    pub fn new(now: Timestamp) -> (r: AppState)
        ensures
            r@ == fresh(now@),
            well_kept(r@),
    {
        let st = AppState {
            last: None,
            checks: 0,
            failures_since: None,
            failure_warned: false,
            repeats: Vec::new(),
            last_change: None,
            started: now,
            backoff: None,
            last_structure_warn: None,
            last_heartbeat: now,
        };
        assert(st@.repeats =~= Seq::empty());
        st
    }
}

// ---------------------------------------------------------------------------
// Backing off
// ---------------------------------------------------------------------------

/// The wait after a failure: the poll interval at first, then twice the wait
/// before, and at most the cap.
pub open spec fn doubled(current: Option<int>, base: int) -> int {
    let wait = match current {
        None => base,
        Some(c) => 2 * c,
    };
    if wait <= BACKOFF_MAX_SECS * clock::NANOS_PER_SEC {
        wait
    } else {
        BACKOFF_MAX_SECS * clock::NANOS_PER_SEC
    }
}

/// The wait after a failure. Where the site turned us away it is never below
/// the floor for that.
pub open spec fn backed_off(current: Option<int>, base: int, blocked: bool) -> int {
    let wait = doubled(current, base);
    if blocked && wait < BLOCKED_BACKOFF_SECS * clock::NANOS_PER_SEC {
        BLOCKED_BACKOFF_SECS * clock::NANOS_PER_SEC
    } else {
        wait
    }
}

/// Double the wait on each consecutive failure, starting at the poll interval,
/// capped at `BACKOFF_MAX_SECS`.
pub fn next_backoff(current: Option<Duration>, base: Duration) -> (r: Duration)
    requires
        current matches Some(c) ==> 2 * c@ <= clock::LONGEST_NANOS,
    ensures
        r@ == doubled(span(current), base@),
{
    let cap = Duration::from_secs(BACKOFF_MAX_SECS);
    match current {
        None => base.min(cap),
        Some(c) => (Duration { nanos: c.nanos * 2 }).min(cap),
    }
}

/// The wait after a failure. A 403 or 429 means that we are being throttled, so
/// it never waits less than `BLOCKED_BACKOFF_SECS`, regardless of where the
/// doubling had got to.
pub fn backoff_after(current: Option<Duration>, base: Duration, blocked: bool) -> (r: Duration)
    requires
        current matches Some(c) ==> 2 * c@ <= clock::LONGEST_NANOS,
    ensures
        r@ == backed_off(span(current), base@, blocked),
{
    let wait = next_backoff(current, base);
    if blocked {
        wait.max(Duration::from_secs(BLOCKED_BACKOFF_SECS))
    } else {
        wait
    }
}

// ---------------------------------------------------------------------------
// Reminders
// ---------------------------------------------------------------------------

/// Whether another reminder is due.
pub open spec fn repeat_due(r: Reminder, now: int) -> bool {
    r.count < REPEAT_CAP && now - r.sent_at >= REPEAT_EVERY_MINS * clock::minute()
}

/// Whether another reminder is due: the interval has passed and the cap is not
/// reached.
pub fn should_repeat(repeat: &AlertRepeat, now: Timestamp) -> (r: bool)
    ensures
        r == repeat_due(repeat@, now@),
{
    repeat.count < REPEAT_CAP && now.minutes_passed(repeat.sent_at, REPEAT_EVERY_MINS)
}

/// Whether the condition behind a Max alert is true of the page.
pub open spec fn is_open(kind: AlertKind, obs: parse::Sighting) -> bool {
    match kind {
        AlertKind::ResaleAvailable => obs.resale == ResaleState::Available,
        AlertKind::MainOnSale => obs.main == MainStock::OnSale,
        _ => false,
    }
}

fn condition_open(kind: AlertKind, obs: &PageObservation) -> (r: bool)
    ensures
        r == is_open(kind, obs@),
{
    match kind {
        AlertKind::ResaleAvailable => obs.resale == ResaleState::Available,
        AlertKind::MainOnSale => obs.main == MainStock::OnSale,
        _ => false,
    }
}

/// The kinds of the Max alerts among the notices.
pub open spec fn max_kinds(all: Seq<state::Notice>) -> Seq<AlertKind> {
    all.filter(|n: state::Notice| n.severity == Severity::Max).map_values(|n: state::Notice| n.kind)
}

/// A repeat for an alert that has just been raised. Nobody has it yet.
pub open spec fn fresh_repeat(kind: AlertKind, now: int) -> Reminder {
    Reminder { kind, sent_at: now, count: 0, delivered: false }
}

/// The repeats of other kinds.
pub open spec fn without(repeats: Seq<Reminder>, kind: AlertKind) -> Seq<Reminder> {
    repeats.filter(|r: Reminder| r.kind != kind)
}

/// The repeats once an alert of each of the kinds has been raised: each gets a
/// fresh repeat in place of the one it had.
pub open spec fn armed(repeats: Seq<Reminder>, kinds: Seq<AlertKind>, now: int) -> Seq<Reminder>
    decreases kinds.len(),
{
    if kinds.len() == 0 {
        repeats
    } else {
        without(armed(repeats, kinds.drop_last(), now), kinds.last()).push(
            fresh_repeat(kinds.last(), now),
        )
    }
}

/// The repeats whose own condition is true of the page.
pub open spec fn still_open(repeats: Seq<Reminder>, obs: parse::Sighting) -> Seq<Reminder> {
    repeats.filter(|r: Reminder| is_open(r.kind, obs))
}

/// What a repeat calls for.
#[derive(Debug, Clone, Copy, PartialEq, Eq, Structural)]
pub enum Due {
    Nothing,
    /// Nothing reached the user last time: send again.
    Retry,
    /// The next reminder.
    Remind,
}

/// What a repeat calls for on a poll that raised alerts of the kinds `fired`.
pub open spec fn due(r: Reminder, fired: Seq<AlertKind>, now: int) -> Due {
    if fired.contains(r.kind) {
        Due::Nothing
    } else if !r.delivered {
        Due::Retry
    } else if repeat_due(r, now) {
        Due::Remind
    } else {
        Due::Nothing
    }
}

/// A repeat after what it calls for. A retry does not eat into the cap.
pub open spec fn stepped(r: Reminder, fired: Seq<AlertKind>, now: int) -> Reminder {
    match due(r, fired, now) {
        Due::Nothing => r,
        Due::Retry => Reminder { sent_at: now, ..r },
        Due::Remind => Reminder {
            sent_at: now,
            count: (r.count + 1) as u32,
            delivered: false,
            ..r
        },
    }
}

/// What a reminder of a kind says of the page.
pub open spec fn reminder_said(kind: AlertKind, obs: parse::Sighting) -> Seq<char> {
    match kind {
        AlertKind::MainOnSale => "The main shop is still not showing 'Ausverkauft'."@,
        _ => state::summary(obs.listings, obs.resale_text),
    }
}

/// Another alert of a kind whose condition is still open.
pub open spec fn still_available(
    kind: AlertKind,
    opening: Seq<char>,
    obs: parse::Sighting,
    url: Seq<char>,
) -> state::Notice {
    state::Notice {
        kind,
        severity: Severity::Max,
        title: "🎟️ STILL AVAILABLE"@,
        body: opening + "\n\n"@ + state::with_link(reminder_said(kind, obs), url),
    }
}

/// How a reminder opens.
pub open spec fn reminder_opening(r: Reminder) -> Seq<char> {
    "Reminder "@ + text::decimal((r.count + 1) as nat) + " of "@ + text::decimal(REPEAT_CAP as nat)
        + "."@
}

/// The alert that a repeat calls for.
pub open spec fn nudge(
    r: Reminder,
    fired: Seq<AlertKind>,
    obs: parse::Sighting,
    now: int,
    url: Seq<char>,
) -> Option<state::Notice> {
    match due(r, fired, now) {
        Due::Nothing => None,
        Due::Retry => Some(
            still_available(r.kind, "The previous alert could not be delivered."@, obs, url),
        ),
        Due::Remind => Some(still_available(r.kind, reminder_opening(r), obs, url)),
    }
}

/// The alerts that the repeats call for, in order.
pub open spec fn nudges(
    repeats: Seq<Reminder>,
    fired: Seq<AlertKind>,
    obs: parse::Sighting,
    now: int,
    url: Seq<char>,
) -> Seq<state::Notice>
    decreases repeats.len(),
{
    if repeats.len() == 0 {
        Seq::empty()
    } else {
        let before = nudges(repeats.drop_last(), fired, obs, now, url);
        match nudge(repeats.last(), fired, obs, now, url) {
            Some(notice) => before.push(notice),
            None => before,
        }
    }
}

proof fn lemma_filter_step<A>(s: Seq<A>, p: spec_fn(A) -> bool, i: int)
    requires
        0 <= i < s.len(),
    ensures
        s.take(i + 1).filter(p) == (if p(s[i]) {
            s.take(i).filter(p).push(s[i])
        } else {
            s.take(i).filter(p)
        }),
{
    reveal(Seq::filter);
    assert(s.take(i + 1).drop_last() =~= s.take(i));
}

proof fn lemma_filter_none<A>(s: Seq<A>, p: spec_fn(A) -> bool)
    ensures
        s.take(0).filter(p) == Seq::<A>::empty(),
{
    reveal(Seq::filter);
}

/// The kinds of the Max alerts.
fn fired_kinds(alerts: &Vec<Alert>) -> (r: Vec<AlertKind>)
    ensures
        r@ == max_kinds(state::notices(alerts@)),
{
    let ghost all = state::notices(alerts@);
    let ghost is_max = |n: state::Notice| n.severity == Severity::Max;
    let ghost kind = |n: state::Notice| n.kind;
    let mut out: Vec<AlertKind> = Vec::new();
    let mut i: usize = 0;
    proof {
        lemma_filter_none(all, is_max);
    }
    while i < alerts.len()
        invariant
            i <= alerts@.len(),
            all == state::notices(alerts@),
            is_max == (|n: state::Notice| n.severity == Severity::Max),
            kind == (|n: state::Notice| n.kind),
            out@ == all.take(i as int).filter(is_max).map_values(kind),
        decreases alerts@.len() - i,
    {
        proof {
            lemma_filter_step(all, is_max, i as int);
            let before = all.take(i as int).filter(is_max);
            assert(before.push(all[i as int]).map_values(kind) =~= before.map_values(kind).push(
                all[i as int].kind,
            ));
        }
        if alerts[i].severity == Severity::Max {
            out.push(alerts[i].kind);
        }
        i += 1;
    }
    assert(all.take(all.len() as int) =~= all);
    out
}

/// The repeats of other kinds.
fn drop_kind(repeats: &Vec<AlertRepeat>, kind: AlertKind) -> (r: Vec<AlertRepeat>)
    ensures
        reminders(r@) == without(reminders(repeats@), kind),
{
    let ghost all = reminders(repeats@);
    let ghost other = |r: Reminder| r.kind != kind;
    let mut out: Vec<AlertRepeat> = Vec::new();
    let mut i: usize = 0;
    proof {
        lemma_filter_none(all, other);
        assert(reminders(out@) =~= Seq::empty());
    }
    while i < repeats.len()
        invariant
            i <= repeats@.len(),
            all == reminders(repeats@),
            other == (|r: Reminder| r.kind != kind),
            reminders(out@) == all.take(i as int).filter(other),
        decreases repeats@.len() - i,
    {
        let r = repeats[i];
        proof {
            lemma_filter_step(all, other, i as int);
            assert(all[i as int] == r@);
            assert(reminders(out@.push(r)) =~= reminders(out@).push(r@));
        }
        if r.kind != kind {
            out.push(r);
        }
        i += 1;
    }
    assert(all.take(all.len() as int) =~= all);
    out
}

/// The repeats whose own condition is true of the page.
fn keep_open(repeats: &Vec<AlertRepeat>, obs: &PageObservation) -> (r: Vec<AlertRepeat>)
    ensures
        reminders(r@) == still_open(reminders(repeats@), obs@),
{
    let ghost all = reminders(repeats@);
    let ghost open = |r: Reminder| is_open(r.kind, obs@);
    let mut out: Vec<AlertRepeat> = Vec::new();
    let mut i: usize = 0;
    proof {
        lemma_filter_none(all, open);
        assert(reminders(out@) =~= Seq::empty());
    }
    while i < repeats.len()
        invariant
            i <= repeats@.len(),
            all == reminders(repeats@),
            open == (|r: Reminder| is_open(r.kind, obs@)),
            reminders(out@) == all.take(i as int).filter(open),
        decreases repeats@.len() - i,
    {
        let r = repeats[i];
        proof {
            lemma_filter_step(all, open, i as int);
            assert(all[i as int] == r@);
            assert(reminders(out@.push(r)) =~= reminders(out@).push(r@));
        }
        if condition_open(r.kind, obs) {
            out.push(r);
        }
        i += 1;
    }
    assert(all.take(all.len() as int) =~= all);
    out
}

/// Give each of the kinds a fresh repeat.
fn arm(repeats: &Vec<AlertRepeat>, kinds: &Vec<AlertKind>, now: Timestamp) -> (r: Vec<AlertRepeat>)
    ensures
        reminders(r@) == armed(reminders(repeats@), kinds@, now@),
{
    let ghost all = reminders(repeats@);
    let mut out: Vec<AlertRepeat> = Vec::new();
    let mut i: usize = 0;
    while i < repeats.len()
        invariant
            i <= repeats@.len(),
            out@ == repeats@.take(i as int),
        decreases repeats@.len() - i,
    {
        assert(repeats@.take(i + 1) =~= repeats@.take(i as int).push(repeats@[i as int]));
        out.push(repeats[i]);
        i += 1;
    }
    assert(out@ =~= repeats@);
    assert(armed(all, kinds@.take(0), now@) =~= all);
    let mut k: usize = 0;
    while k < kinds.len()
        invariant
            k <= kinds@.len(),
            reminders(out@) == armed(all, kinds@.take(k as int), now@),
        decreases kinds@.len() - k,
    {
        let kind = kinds[k];
        let r = AlertRepeat { kind, sent_at: now, count: 0, delivered: false };
        out = drop_kind(&out, kind);
        proof {
            assert(kinds@.take(k + 1).drop_last() =~= kinds@.take(k as int));
            assert(reminders(out@.push(r)) =~= reminders(out@).push(r@));
        }
        out.push(r);
        k += 1;
    }
    assert(kinds@.take(kinds@.len() as int) =~= kinds@);
    out
}

fn has_kind(kinds: &Vec<AlertKind>, kind: AlertKind) -> (r: bool)
    ensures
        r == kinds@.contains(kind),
{
    let mut i: usize = 0;
    while i < kinds.len()
        invariant
            i <= kinds@.len(),
            forall|k: int| 0 <= k < i ==> kinds@[k] != kind,
        decreases kinds@.len() - i,
    {
        if kinds[i] == kind {
            assert(kinds@[i as int] == kind);
            return true;
        }
        i += 1;
    }
    false
}

fn due_now(r: &AlertRepeat, fired: &Vec<AlertKind>, now: Timestamp) -> (d: Due)
    ensures
        d == due(r@, fired@, now@),
{
    if has_kind(fired, r.kind) {
        Due::Nothing
    } else if !r.delivered {
        Due::Retry
    } else if should_repeat(r, now) {
        Due::Remind
    } else {
        Due::Nothing
    }
}

/// What a reminder of a kind says of the page, with the link.
fn reminder_body(opening: &str, kind: AlertKind, obs: &PageObservation, url: &str) -> (r: String)
    ensures
        r@ == opening@ + "\n\n"@ + state::with_link(reminder_said(kind, obs@), url@),
{
    let said = match kind {
        AlertKind::MainOnSale => "The main shop is still not showing 'Ausverkauft'.".to_string(),
        _ => listing_summary(&obs.listings, &obs.resale_text),
    };
    linked(opening, &linked(&said, url))
}

fn still_available_alert(
    kind: AlertKind,
    opening: &str,
    obs: &PageObservation,
    url: &str,
) -> (r: Alert)
    ensures
        r@ == still_available(kind, opening@, obs@, url@),
{
    Alert::new(
        kind,
        Severity::Max,
        "🎟️ STILL AVAILABLE",
        &reminder_body(opening, kind, obs, url),
    )
}

fn opening_of(r: &AlertRepeat) -> (s: String)
    requires
        r.count < REPEAT_CAP,
    ensures
        s@ == reminder_opening(r@),
{
    let mut out = "Reminder ".to_string();
    push_decimal(&mut out, r.count as u128 + 1);
    out.append(" of ");
    push_decimal(&mut out, REPEAT_CAP as u128);
    out.append(".");
    out
}

/// Do what the repeats call for: the repeats afterwards, and the alerts.
fn remind(
    repeats: &Vec<AlertRepeat>,
    fired: &Vec<AlertKind>,
    obs: &PageObservation,
    now: Timestamp,
    url: &str,
) -> (r: (Vec<AlertRepeat>, Vec<Alert>))
    ensures
        reminders(r.0@) == reminders(repeats@).map_values(
            |r: Reminder| stepped(r, fired@, now@),
        ),
        state::notices(r.1@) == nudges(reminders(repeats@), fired@, obs@, now@, url@),
{
    let ghost all = reminders(repeats@);
    let mut next: Vec<AlertRepeat> = Vec::new();
    let mut alerts: Vec<Alert> = Vec::new();
    let mut i: usize = 0;
    assert(state::notices(alerts@) =~= Seq::empty());
    while i < repeats.len()
        invariant
            i <= repeats@.len(),
            all == reminders(repeats@),
            next@.len() == i,
            forall|k: int| 0 <= k < i ==> (#[trigger] next@[k])@ == stepped(all[k], fired@, now@),
            state::notices(alerts@) == nudges(all.take(i as int), fired@, obs@, now@, url@),
        decreases repeats@.len() - i,
    {
        let mut r = repeats[i];
        let ghost before = r@;
        proof {
            assert(all[i as int] == before);
            assert(all.take(i + 1).drop_last() =~= all.take(i as int));
            assert(forall|a: Alert|
                state::notices(#[trigger] alerts@.push(a)) =~= state::notices(alerts@).push(a@));
        }
        match due_now(&r, fired, now) {
            Due::Nothing => {},
            Due::Retry => {
                alerts.push(
                    still_available_alert(
                        r.kind,
                        "The previous alert could not be delivered.",
                        obs,
                        url,
                    ),
                );
                r.sent_at = now;
            },
            Due::Remind => {
                let opening = opening_of(&r);
                alerts.push(still_available_alert(r.kind, &opening, obs, url));
                r.sent_at = now;
                r.count = r.count + 1;
                r.delivered = false;
            },
        }
        assert(r@ == stepped(before, fired@, now@));
        next.push(r);
        i += 1;
    }
    assert(all.take(all.len() as int) =~= all);
    assert(reminders(next@) =~= all.map_values(|r: Reminder| stepped(r, fired@, now@)));
    (next, alerts)
}

// ---------------------------------------------------------------------------
// Observations
// ---------------------------------------------------------------------------

/// The repeats that an observation leaves to be looked at: those that it has
/// just armed and those that were there, as long as their condition is true.
pub open spec fn open_repeats(
    w: Watch,
    obs: parse::Sighting,
    now: int,
    url: Seq<char>,
) -> Seq<Reminder> {
    still_open(armed(w.repeats, fired(w, obs, url), now), obs)
}

/// The kinds of the Max alerts that an observation raises.
pub open spec fn fired(w: Watch, obs: parse::Sighting, url: Seq<char>) -> Seq<AlertKind> {
    max_kinds(state::transition_notices(w.last, obs, url))
}

/// The state after an observation.
pub open spec fn observed(w: Watch, obs: parse::Sighting, now: int, url: Seq<char>) -> Watch {
    Watch {
        last: Some(obs),
        repeats: open_repeats(w, obs, now, url).map_values(
            |r: Reminder| stepped(r, fired(w, obs, url), now),
        ),
        last_change: if w.last == Some(obs) {
            w.last_change
        } else {
            Some(now)
        },
        ..w
    }
}

/// The alerts that an observation calls for: those for what has changed, then
/// those for what is still open.
pub open spec fn observation_notices(
    w: Watch,
    obs: parse::Sighting,
    now: int,
    url: Seq<char>,
) -> Seq<state::Notice> {
    state::transition_notices(w.last, obs, url) + nudges(
        open_repeats(w, obs, now, url),
        fired(w, obs, url),
        obs,
        now,
        url,
    )
}

/// Fold one successful observation into the state.
///
/// Returns the alerts that must be sent, in order. The caller sends them after
/// releasing the state, then reports each Max alert's outcome through
/// `record_delivery`.
pub fn apply_observation(
    st: &mut AppState,
    obs: PageObservation,
    now: Timestamp,
    url: &str,
) -> (r: Vec<Alert>)
    ensures
        final(st)@ == observed(old(st)@, obs@, now@, url@),
        state::notices(r@) == observation_notices(old(st)@, obs@, now@, url@),
        well_kept(old(st)@) ==> well_kept(final(st)@),
{
    let ghost w = st@;
    let mut alerts = transitions(st.last.as_ref(), &obs, url);
    let changed = match &st.last {
        Some(last) => !last.same(&obs),
        None => true,
    };

    // Arm (or re-arm) a repeat for every Max alert that fired this poll.
    let kinds = fired_kinds(&alerts);
    let all = arm(&st.repeats, &kinds, now);

    // Each repeat lives exactly as long as its own condition.
    let open = keep_open(&all, &obs);

    let (next, mut more) = remind(&open, &kinds, &obs, now, url);
    let ghost first = state::notices(alerts@);
    let ghost second = state::notices(more@);
    alerts.append(&mut more);
    assert(state::notices(alerts@) =~= first + second);

    st.repeats = next;
    if changed {
        st.last_change = Some(now);
    }
    st.last = Some(obs);
    proof {
        assert(st@ =~= observed(w, obs@, now@, url@));
        if well_kept(w) {
            law_an_observation_keeps_the_state(w, obs@, now@, url@);
        }
    }
    alerts
}

/// The repeats once it is known whether the alert of a kind reached anyone.
pub open spec fn recorded(repeats: Seq<Reminder>, kind: AlertKind, delivered: bool) -> Seq<Reminder>
    decreases repeats.len(),
{
    if repeats.len() == 0 {
        repeats
    } else if repeats[0].kind == kind {
        repeats.update(0, Reminder { delivered, ..repeats[0] })
    } else {
        seq![repeats[0]] + recorded(repeats.skip(1), kind, delivered)
    }
}

pub proof fn lemma_recorded_at(repeats: Seq<Reminder>, kind: AlertKind, delivered: bool, i: int)
    requires
        0 <= i <= repeats.len(),
        forall|k: int| 0 <= k < i ==> (#[trigger] repeats[k]).kind != kind,
    ensures
        i < repeats.len() && repeats[i].kind == kind ==> recorded(repeats, kind, delivered)
            == repeats.update(i, Reminder { delivered, ..repeats[i] }),
        i == repeats.len() ==> recorded(repeats, kind, delivered) == repeats,
    decreases i,
{
    if i > 0 {
        let rest = repeats.skip(1);
        assert(forall|k: int| 0 <= k < i - 1 ==> #[trigger] rest[k] == repeats[k + 1]);
        lemma_recorded_at(rest, kind, delivered, i - 1);
        assert(recorded(repeats, kind, delivered) =~= seq![repeats[0]] + recorded(
            rest,
            kind,
            delivered,
        ));
        if i < repeats.len() && repeats[i].kind == kind {
            assert(recorded(repeats, kind, delivered) =~= repeats.update(
                i,
                Reminder { delivered, ..repeats[i] },
            ));
        }
        if i == repeats.len() {
            assert(recorded(repeats, kind, delivered) =~= repeats);
        }
    }
}

/// Record whether the most recent Max alert of `kind` reached at least one
/// channel.
pub fn record_delivery(st: &mut AppState, kind: AlertKind, delivered: bool)
    ensures
        final(st)@ == (Watch {
            repeats: recorded(old(st)@.repeats, kind, delivered),
            ..old(st)@
        }),
{
    let ghost w = st@;
    let mut i: usize = 0;
    while i < st.repeats.len()
        invariant
            i <= st.repeats@.len(),
            st@ == w,
            w == old(st)@,
            forall|k: int| 0 <= k < i ==> (#[trigger] w.repeats[k]).kind != kind,
        decreases st.repeats@.len() - i,
    {
        let mut r = st.repeats[i];
        assert(w.repeats[i as int] == r@);
        if r.kind == kind {
            proof {
                lemma_recorded_at(w.repeats, kind, delivered, i as int);
            }
            r.delivered = delivered;
            st.repeats.set(i, r);
            assert(st@.repeats =~= recorded(w.repeats, kind, delivered));
            assert(st@ =~= (Watch { repeats: recorded(w.repeats, kind, delivered), ..w }));
            return;
        }
        i += 1;
    }
    proof {
        lemma_recorded_at(w.repeats, kind, delivered, i as int);
    }
}

/// The state once it is known whether an alert reached anyone. Only Max alerts
/// are followed up.
pub open spec fn settled(w: Watch, sent: state::Notice, delivered: bool) -> Watch {
    if sent.severity == Severity::Max {
        Watch { repeats: recorded(w.repeats, sent.kind, delivered), ..w }
    } else {
        w
    }
}

/// Take note of whether an alert that was sent reached at least one channel.
pub fn settle(st: &mut AppState, alert: &Alert, delivered: bool)
    ensures
        final(st)@ == settled(old(st)@, alert@, delivered),
        well_kept(old(st)@) ==> well_kept(final(st)@),
{
    proof {
        if well_kept(st@) {
            law_a_delivery_keeps_the_state(st@, alert@, delivered);
        }
    }
    if alert.severity == Severity::Max {
        record_delivery(st, alert.kind, delivered);
    }
}

/// The state after an acknowledgement.
pub open spec fn acknowledged(w: Watch) -> Watch {
    Watch { repeats: Seq::empty(), ..w }
}

/// Stop repeating. Returns whether there was anything to stop.
pub fn acknowledge(st: &mut AppState) -> (r: bool)
    ensures
        final(st)@ == acknowledged(old(st)@),
        r == (old(st)@.repeats.len() > 0),
        well_kept(old(st)@) ==> well_kept(final(st)@),
{
    let any = st.repeats.len() > 0;
    st.repeats.clear();
    assert(st@.repeats =~= Seq::empty());
    any
}

// ---------------------------------------------------------------------------
// Failures
// ---------------------------------------------------------------------------

/// Whether a failure that has lasted since `since` is worth a warning.
pub open spec fn outage_due(since: Option<int>, now: int) -> bool {
    since matches Some(since) && now - since >= FAILURE_WARN_AFTER_MINS * clock::minute()
}

/// Whether a failure has lasted long enough to be worth a warning.
pub fn failure_warning_due(failures_since: Option<Timestamp>, now: Timestamp) -> (r: bool)
    ensures
        r == outage_due(instant(failures_since), now@),
{
    match failures_since {
        Some(since) => now.minutes_passed(since, FAILURE_WARN_AFTER_MINS),
        None => false,
    }
}

/// Since when fetches have failed, once one has failed at `now`.
pub open spec fn failing_since(w: Watch, now: int) -> int {
    match w.failures_since {
        Some(since) => since,
        None => now,
    }
}

/// Whether a failure calls for a warning: once per episode, at once if the site
/// turned us away, else when the episode has lasted long enough.
pub open spec fn warns(w: Watch, e: FetchError, now: int) -> bool {
    !w.failure_warned && (outage_due(Some(failing_since(w, now)), now) || e is Blocked)
}

/// The state after a failed fetch.
pub open spec fn failed(w: Watch, e: FetchError, now: int) -> Watch {
    Watch {
        failures_since: Some(failing_since(w, now)),
        failure_warned: w.failure_warned || warns(w, e, now),
        ..w
    }
}

/// The warning that the site cannot be reached.
pub open spec fn outage(e: FetchError, url: Seq<char>) -> state::Notice {
    state::Notice {
        kind: AlertKind::FetchFailing,
        severity: Severity::Info,
        title: "⚠️ sb-watcher cannot reach the site"@,
        body: fetch::failure_text(e) + "\n\n"@ + state::with_link(
            "The watcher is currently blind. It keeps retrying."@,
            url,
        ),
    }
}

/// Fold a failed fetch into the state. Returns the outage warning to send, at
/// most once per failure episode.
pub fn apply_failure(st: &mut AppState, err: &FetchError, now: Timestamp, url: &str) -> (r: Option<
    Alert,
>)
    ensures
        final(st)@ == failed(old(st)@, *err, now@),
        match r {
            Some(alert) => warns(old(st)@, *err, now@) && alert@ == outage(*err, url@),
            None => !warns(old(st)@, *err, now@),
        },
{
    if st.failures_since.is_none() {
        st.failures_since = Some(now);
    }
    if st.failure_warned || !(failure_warning_due(st.failures_since, now) || err.is_blocked()) {
        return None;
    }
    st.failure_warned = true;
    let tail = linked("The watcher is currently blind. It keeps retrying.", url);
    Some(
        Alert::new(
            AlertKind::FetchFailing,
            Severity::Info,
            "⚠️ sb-watcher cannot reach the site",
            &linked(&err.message(), &tail),
        ),
    )
}

/// Whether a page that cannot be made out calls for a warning.
pub open spec fn structure_due(w: Watch, now: int) -> bool {
    match w.last_structure_warn {
        Some(last) => now - last >= STRUCTURE_WARN_EVERY_HOURS * 60 * clock::minute(),
        None => true,
    }
}

/// The state after a page that could not be made out.
pub open spec fn puzzled(w: Watch, now: int) -> Watch {
    Watch {
        last_structure_warn: if structure_due(w, now) {
            Some(now)
        } else {
            w.last_structure_warn
        },
        ..w
    }
}

/// The warning that part of the page is missing.
pub open spec fn structure_changed(what: Seq<char>, url: Seq<char>) -> state::Notice {
    state::Notice {
        kind: AlertKind::StructureChanged,
        severity: Severity::Info,
        title: "⚠️ Page structure changed"@,
        body: state::with_link(
            what + " could not be found. sb-watcher may be blind and needs a code update."@,
            url,
        ),
    }
}

/// Handle a page that fetched but is structurally unrecognisable: no exchange
/// card, or no main product frame. `what` names the missing part.
///
/// Rate-limited to one warning per day so that a permanent redesign does not
/// spam, but it must never be silent: treating this as quiet would leave the
/// watcher blind while looking healthy.
pub fn apply_structure_error(st: &mut AppState, now: Timestamp, url: &str, what: &str) -> (r: Option<
    Alert,
>)
    ensures
        final(st)@ == puzzled(old(st)@, now@),
        match r {
            Some(alert) => structure_due(old(st)@, now@) && alert@ == structure_changed(
                what@,
                url@,
            ),
            None => !structure_due(old(st)@, now@),
        },
{
    let is_due = match st.last_structure_warn {
        Some(last) => now.minutes_passed(last, STRUCTURE_WARN_EVERY_HOURS * 60),
        None => true,
    };
    if !is_due {
        return None;
    }
    st.last_structure_warn = Some(now);
    let mut said = what.to_string();
    said.append(" could not be found. sb-watcher may be blind and needs a code update.");
    Some(
        Alert::new(
            AlertKind::StructureChanged,
            Severity::Info,
            "⚠️ Page structure changed",
            &linked(&said, url),
        ),
    )
}

// ---------------------------------------------------------------------------
// Signs of life
// ---------------------------------------------------------------------------

/// Whether a heartbeat is due.
pub open spec fn heartbeat_due(w: Watch, now: int) -> bool {
    now - w.last_heartbeat >= HEARTBEAT_EVERY_HOURS * 60 * clock::minute()
}

/// The state after the time for a heartbeat has been looked at.
pub open spec fn beaten(w: Watch, now: int) -> Watch {
    Watch {
        last_heartbeat: if heartbeat_due(w, now) {
            now
        } else {
            w.last_heartbeat
        },
        ..w
    }
}

/// The heartbeat.
pub open spec fn heartbeat(w: Watch) -> state::Notice {
    state::Notice {
        kind: AlertKind::Heartbeat,
        severity: Severity::Info,
        title: "✅ sb-watcher still running"@,
        body: text::decimal(w.checks) + " checks since "@ + clock::minute_text(w.started)
            + ". Last change: "@ + (match w.last_change {
            Some(at) => clock::minute_text(at),
            None => "none"@,
        }) + "."@,
    }
}

/// The dead-man's switch. Without it, silence is ambiguous between "no tickets"
/// and "the process died three weeks ago". Returns the heartbeat to send, if
/// due.
pub fn maybe_heartbeat(st: &mut AppState, now: Timestamp) -> (r: Option<Alert>)
    ensures
        final(st)@ == beaten(old(st)@, now@),
        match r {
            Some(alert) => heartbeat_due(old(st)@, now@) && alert@ == heartbeat(old(st)@),
            None => !heartbeat_due(old(st)@, now@),
        },
{
    if !now.minutes_passed(st.last_heartbeat, HEARTBEAT_EVERY_HOURS * 60) {
        return None;
    }
    st.last_heartbeat = now;
    let mut body = String::new();
    push_decimal(&mut body, st.checks as u128);
    body.append(" checks since ");
    body.append(&st.started.minute_text());
    body.append(". Last change: ");
    let change = match st.last_change {
        Some(at) => at.minute_text(),
        None => "none".to_string(),
    };
    body.append(&change);
    body.append(".");
    assert(body@ =~= heartbeat(old(st)@).body);
    Some(
        Alert::new(
            AlertKind::Heartbeat,
            Severity::Info,
            "✅ sb-watcher still running",
            &body,
        ),
    )
}

/// The message sent at start-up. Rehearsal mode is unmistakable in it.
pub open spec fn started(settings: config::Settings) -> state::Notice {
    state::Notice {
        kind: AlertKind::Started,
        severity: Severity::Info,
        title: "▶️ sb-watcher started"@,
        body: "Watching "@ + settings.target_url + " every "@ + text::decimal(
            (settings.poll_interval / (clock::NANOS_PER_SEC as int)) as nat,
        ) + "s."@ + (match settings.fixture_path {
            Some(path) => "\n\n⚠️ FIXTURE MODE: reading "@ + path
                + " instead of the live site."@,
            None => Seq::empty(),
        }),
    }
}

/// Sent once at boot. Makes restarts visible (a crash loop shorter than the
/// heartbeat interval would otherwise be silent) and proves at start-up that
/// alerts can actually be delivered.
pub fn startup_alert(cfg: &Config) -> (r: Alert)
    ensures
        r@ == started(cfg@),
{
    let mut body = "Watching ".to_string();
    body.append(&cfg.target_url);
    body.append(" every ");
    push_decimal(&mut body, cfg.poll_interval.as_secs());
    body.append("s.");
    if let Some(path) = &cfg.fixture_path {
        body.append("\n\n⚠️ FIXTURE MODE: reading ");
        body.append(path);
        body.append(" instead of the live site.");
    }
    assert(body@ =~= started(cfg@).body);
    Alert::new(AlertKind::Started, Severity::Info, "▶️ sb-watcher started", &body)
}

// ---------------------------------------------------------------------------
// Polls
// ---------------------------------------------------------------------------

/// What a poll found: a page that was made out or not, or no page.
pub type Found = Result<Result<parse::Sighting, ParseError>, FetchError>;

/// What a poll leads to.
#[verifier::ext_equal]
pub struct Polled {
    pub after: Watch,
    pub notices: Seq<state::Notice>,
    pub wait: int,
}

/// The state after the site has answered: the failure episode is over, whether
/// or not the page can be made out.
pub open spec fn answered(w: Watch) -> Watch {
    Watch { failures_since: None, failure_warned: false, backoff: None, ..w }
}

/// What a page that may not be made out leads to.
pub open spec fn after_puzzle(w: Watch, now: int, url: Seq<char>, what: Seq<char>) -> (
    Watch,
    Seq<state::Notice>,
) {
    (
        puzzled(w, now),
        if structure_due(w, now) {
            seq![structure_changed(what, url)]
        } else {
            Seq::empty()
        },
    )
}

/// What a page leads to. One without the main product frame is reported as a
/// change of structure, besides what it shows.
pub open spec fn after_page(
    w: Watch,
    page: Result<parse::Sighting, ParseError>,
    now: int,
    url: Seq<char>,
) -> (Watch, Seq<state::Notice>) {
    match page {
        Ok(obs) => {
            let seen = observed(w, obs, now, url);
            let news = observation_notices(w, obs, now, url);
            if obs.main == MainStock::Unknown {
                let (then, warning) = after_puzzle(seen, now, url, "The main product frame"@);
                (then, news + warning)
            } else {
                (seen, news)
            }
        },
        Err(_) => after_puzzle(w, now, url, "The Ticketbörse card"@),
    }
}

/// What a failed fetch leads to.
pub open spec fn after_failure(w: Watch, e: FetchError, now: int, settings: config::Settings) -> (
    Watch,
    Seq<state::Notice>,
) {
    (
        Watch {
            backoff: Some(backed_off(w.backoff, settings.poll_interval, e is Blocked)),
            ..failed(w, e, now)
        },
        if warns(w, e, now) {
            seq![outage(e, settings.target_url)]
        } else {
            Seq::empty()
        },
    )
}

/// What a poll leads to. Every poll counts as a check, and any of them may be
/// the one that sends the heartbeat.
pub open spec fn polled(w: Watch, found: Found, now: int, settings: config::Settings) -> Polled {
    let counted = Watch { checks: w.checks + 1, ..w };
    let (then, news) = match found {
        Ok(page) => after_page(answered(counted), page, now, settings.target_url),
        Err(e) => after_failure(counted, e, now, settings),
    };
    Polled {
        after: beaten(then, now),
        notices: if heartbeat_due(then, now) {
            news.push(heartbeat(then))
        } else {
            news
        },
        wait: match found {
            Ok(_) => settings.poll_interval,
            Err(e) => backed_off(w.backoff, settings.poll_interval, e is Blocked),
        },
    }
}

/// What the result of a fetch and its classification says.
pub open spec fn found(
    result: Result<Result<PageObservation, ParseError>, FetchError>,
) -> Found {
    match result {
        Ok(page) => Ok(parse::outcome(page)),
        Err(e) => Err(e),
    }
}

/// What the result of a fetch says once the page has been classified.
pub open spec fn found_in(result: Result<String, FetchError>) -> Found {
    match result {
        Ok(html) => Ok(parse::classification(page::page_parts(page::parsed(html@)))),
        Err(e) => Err(e),
    }
}

proof fn lemma_notices_push(alerts: Seq<Alert>, alert: Alert)
    ensures
        state::notices(alerts.push(alert)) == state::notices(alerts).push(alert@),
{
    assert(state::notices(alerts.push(alert)) =~= state::notices(alerts).push(alert@));
}

/// Fold a page that was classified into the state.
fn fold_page(
    st: &mut AppState,
    page: Result<PageObservation, ParseError>,
    now: Timestamp,
    url: &str,
) -> (r: Vec<Alert>)
    ensures
        final(st)@ == after_page(old(st)@, parse::outcome(page), now@, url@).0,
        state::notices(r@) == after_page(old(st)@, parse::outcome(page), now@, url@).1,
{
    match page {
        Ok(obs) => {
            let main_unknown = obs.main == MainStock::Unknown;
            let mut alerts = apply_observation(st, obs, now, url);
            if main_unknown {
                let ghost news = state::notices(alerts@);
                if let Some(warning) = apply_structure_error(
                    st,
                    now,
                    url,
                    "The main product frame",
                ) {
                    proof {
                        lemma_notices_push(alerts@, warning);
                        assert(news.push(warning@) =~= news + seq![warning@]);
                    }
                    alerts.push(warning);
                } else {
                    assert(news + Seq::<state::Notice>::empty() =~= news);
                }
            }
            alerts
        },
        Err(ParseError::CardNotFound) => {
            let mut alerts: Vec<Alert> = Vec::new();
            assert(state::notices(alerts@) =~= Seq::empty());
            if let Some(warning) = apply_structure_error(st, now, url, "The Ticketbörse card") {
                proof {
                    lemma_notices_push(alerts@, warning);
                    assert(state::notices(alerts@).push(warning@) =~= seq![warning@]);
                }
                alerts.push(warning);
            }
            alerts
        },
    }
}

/// Fold a failed fetch into the state, and lengthen the wait.
fn fold_failure(st: &mut AppState, e: &FetchError, now: Timestamp, cfg: &Config) -> (r: (
    Vec<Alert>,
    Duration,
))
    requires
        old(st).backoff matches Some(c) ==> 2 * c@ <= clock::LONGEST_NANOS,
    ensures
        final(st)@ == after_failure(old(st)@, *e, now@, cfg@).0,
        state::notices(r.0@) == after_failure(old(st)@, *e, now@, cfg@).1,
        r.1@ == backed_off(old(st)@.backoff, cfg@.poll_interval, e is Blocked),
{
    let mut alerts: Vec<Alert> = Vec::new();
    assert(state::notices(alerts@) =~= Seq::empty());
    let wait = backoff_after(st.backoff, cfg.poll_interval, e.is_blocked());
    if let Some(warning) = apply_failure(st, e, now, &cfg.target_url) {
        proof {
            lemma_notices_push(alerts@, warning);
            assert(state::notices(alerts@).push(warning@) =~= seq![warning@]);
        }
        alerts.push(warning);
    }
    st.backoff = Some(wait);
    (alerts, wait)
}

/// Fold one poll into the state, given what the fetch and the classification
/// came to.
pub fn fold_poll(
    st: &mut AppState,
    result: Result<Result<PageObservation, ParseError>, FetchError>,
    now: Timestamp,
    cfg: &Config,
) -> (r: (Vec<Alert>, Duration))
    requires
        old(st).checks < u64::MAX,
        result is Err ==> (old(st).backoff matches Some(c) ==> 2 * c@ <= clock::LONGEST_NANOS),
    ensures
        final(st)@ == polled(old(st)@, found(result), now@, cfg@).after,
        state::notices(r.0@) == polled(old(st)@, found(result), now@, cfg@).notices,
        r.1@ == polled(old(st)@, found(result), now@, cfg@).wait,
        well_kept(old(st)@) ==> well_kept(final(st)@),
{
    let ghost before = st@;
    proof {
        if well_kept(before) {
            law_a_poll_keeps_the_state(before, found(result), now@, cfg@);
        }
    }
    st.checks = st.checks + 1;
    assert(st@ =~= (Watch { checks: before.checks + 1, ..before }));
    let (mut alerts, wait) = match result {
        Ok(page) => {
            // The site answered: the fetch-failure episode is over regardless of
            // whether the page parses.
            st.failures_since = None;
            st.failure_warned = false;
            st.backoff = None;
            assert(st@ =~= answered(Watch { checks: before.checks + 1, ..before }));
            (fold_page(st, page, now, &cfg.target_url), cfg.poll_interval)
        },
        Err(e) => fold_failure(st, &e, now, cfg),
    };
    if let Some(beat) = maybe_heartbeat(st, now) {
        proof {
            lemma_notices_push(alerts@, beat);
        }
        alerts.push(beat);
    }
    (alerts, wait)
}

/// One poll's worth of state changes: classify the page that was fetched, fold
/// it into the state, and return the alerts to send and how long to wait before
/// the next poll.
pub fn poll_once(
    st: &mut AppState,
    result: Result<String, FetchError>,
    now: Timestamp,
    cfg: &Config,
) -> (r: (Vec<Alert>, Duration))
    requires
        old(st).checks < u64::MAX,
        result is Err ==> (old(st).backoff matches Some(c) ==> 2 * c@ <= clock::LONGEST_NANOS),
        result matches Ok(html) ==> text::byte_len(html@) <= page::MAX_DOCUMENT_BYTES,
    ensures
        final(st)@ == polled(old(st)@, found_in(result), now@, cfg@).after,
        state::notices(r.0@) == polled(old(st)@, found_in(result), now@, cfg@).notices,
        r.1@ == polled(old(st)@, found_in(result), now@, cfg@).wait,
        well_kept(old(st)@) ==> well_kept(final(st)@),
{
    let classified = match result {
        Ok(html) => Ok(classify(&html)),
        Err(e) => Err(e),
    };
    fold_poll(st, classified, now, cfg)
}

// ---------------------------------------------------------------------------
// Sending
// ---------------------------------------------------------------------------

/// The alerts that are to be sent before the watcher rests, and for how long it
/// then rests.
#[derive(Debug)]
pub struct Outbox {
    alerts: Vec<Alert>,
    sent: usize,
    wait: Duration,
}

/// What the watcher does next.
#[derive(Debug)]
pub enum Next {
    /// Send this alert, and report whether it reached anyone.
    Send(Alert),
    /// Rest until this long after the last poll began, then poll.
    Rest(Duration),
}

impl Outbox {
    #[verifier::type_invariant]
    spec fn in_bounds(&self) -> bool {
        self.sent <= self.alerts@.len()
    }

    /// The alerts that are still to be sent, in order.
    pub closed spec fn unsent(&self) -> Seq<state::Notice> {
        state::notices(self.alerts@).skip(self.sent as int)
    }

    /// How long the watcher rests once everything is sent.
    pub closed spec fn wait(&self) -> int {
        self.wait@
    }

    /// What is sent at start-up. The first poll follows at once.
    pub fn starting(cfg: &Config) -> (r: Outbox)
        ensures
            r.unsent() == seq![started(cfg@)],
            r.wait() == 0,
    {
        let mut alerts: Vec<Alert> = Vec::new();
        alerts.push(startup_alert(cfg));
        let r = Outbox { alerts, sent: 0, wait: Duration { nanos: 0 } };
        assert(r.unsent() =~= seq![started(cfg@)]);
        r
    }

    /// What is sent after a poll: the alerts that the poll calls for.
    pub fn after_poll(
        st: &mut AppState,
        result: Result<String, FetchError>,
        now: Timestamp,
        cfg: &Config,
    ) -> (r: Outbox)
        requires
            old(st).checks < u64::MAX,
            result is Err ==> (old(st).backoff matches Some(c) ==> 2 * c@ <= clock::LONGEST_NANOS),
            result matches Ok(html) ==> text::byte_len(html@) <= page::MAX_DOCUMENT_BYTES,
        ensures
            final(st)@ == polled(old(st)@, found_in(result), now@, cfg@).after,
            r.unsent() == polled(old(st)@, found_in(result), now@, cfg@).notices,
            r.wait() == polled(old(st)@, found_in(result), now@, cfg@).wait,
            well_kept(old(st)@) ==> well_kept(final(st)@),
    {
        let (alerts, wait) = poll_once(st, result, now, cfg);
        let r = Outbox { alerts, sent: 0, wait };
        assert(r.unsent() =~= state::notices(alerts@));
        r
    }

    /// What comes next: every alert in turn, then rest.
    pub fn next(&self) -> (r: Next)
        ensures
            match r {
                Next::Send(alert) => self.unsent().len() > 0 && alert@ == self.unsent()[0],
                Next::Rest(wait) => self.unsent().len() == 0 && wait@ == self.wait(),
            },
    {
        proof {
            use_type_invariant(self);
        }
        if self.sent < self.alerts.len() {
            let alert = self.alerts[self.sent].clone();
            assert(self.unsent()[0] == self.alerts@[self.sent as int]@);
            Next::Send(alert)
        } else {
            Next::Rest(self.wait)
        }
    }

    /// Take note of whether the alert that was to be sent reached anyone.
    pub fn report(&mut self, st: &mut AppState, delivered: bool)
        requires
            old(self).unsent().len() > 0,
        ensures
            final(self).unsent() == old(self).unsent().skip(1),
            final(self).wait() == old(self).wait(),
            final(st)@ == settled(old(st)@, old(self).unsent()[0], delivered),
            well_kept(old(st)@) ==> well_kept(final(st)@),
    {
        proof {
            use_type_invariant(&*self);
            assert(self.unsent()[0] == self.alerts@[self.sent as int]@);
        }
        let ghost size = self.alerts.len();
        assert(self.sent < size);
        settle(st, &self.alerts[self.sent], delivered);
        self.sent = self.sent + 1;
        assert(self.unsent() =~= old(self).unsent().skip(1));
    }
}

// ---------------------------------------------------------------------------
// What every operation keeps
// ---------------------------------------------------------------------------

/// Whether no two repeats are of one kind.
pub open spec fn distinct(repeats: Seq<Reminder>) -> bool {
    forall|i: int, j: int|
        0 <= i < j < repeats.len() ==> (#[trigger] repeats[i]).kind != (#[trigger] repeats[j]).kind
}

/// Whether a state is one that the watcher can come to.
///
/// There is at most one repeat of a kind; each has its condition open on the
/// page as last seen, and has not been repeated beyond the cap. A failure
/// episode has a start and a wait, within the cap, and only within an episode
/// has a warning gone out.
pub open spec fn well_kept(w: Watch) -> bool {
    &&& distinct(w.repeats)
    &&& forall|i: int|
        0 <= i < w.repeats.len() ==> {
            &&& (#[trigger] w.repeats[i]).count <= REPEAT_CAP
            &&& w.last matches Some(obs) && is_open(w.repeats[i].kind, obs)
        }
    &&& w.failures_since is Some <==> w.backoff is Some
    &&& w.failure_warned ==> w.failures_since is Some
    &&& w.backoff matches Some(wait) ==> 0 <= wait <= BACKOFF_MAX_SECS * clock::NANOS_PER_SEC
}

pub proof fn lemma_filtered(s: Seq<Reminder>, p: spec_fn(Reminder) -> bool)
    ensures
        distinct(s) ==> distinct(s.filter(p)),
        forall|r: Reminder| #[trigger] s.filter(p).contains(r) <==> s.contains(r) && p(r),
    decreases s.len(),
{
    reveal(Seq::filter);
    if s.len() > 0 {
        let front = s.drop_last();
        lemma_filtered(front, p);
        let kept = front.filter(p);
        assert(forall|i: int| 0 <= i < front.len() ==> #[trigger] front[i] == s[i]);
        assert forall|r: Reminder| #[trigger] s.filter(p).contains(r) <==> s.contains(r) && p(
            r,
        ) by {
            if s.contains(r) && p(r) {
                let i = choose|i: int| 0 <= i < s.len() && s[i] == r;
                if i < front.len() {
                    assert(front[i] == r);
                    assert(kept.contains(r));
                    let j = choose|j: int| 0 <= j < kept.len() && kept[j] == r;
                    assert(s.filter(p)[j] == r);
                } else {
                    assert(s.filter(p)[kept.len() as int] == r);
                }
            }
            if s.filter(p).contains(r) {
                let j = choose|j: int| 0 <= j < s.filter(p).len() && s.filter(p)[j] == r;
                if j < kept.len() {
                    assert(kept[j] == r);
                    assert(kept.contains(r));
                    let i = choose|i: int| 0 <= i < front.len() && front[i] == r;
                    assert(s[i] == r);
                } else {
                    assert(s[s.len() - 1] == r);
                }
            }
        }
        if distinct(s) {
            assert(distinct(front));
            assert forall|i: int, j: int| 0 <= i < j < s.filter(p).len() implies (
            #[trigger] s.filter(p)[i]).kind != (#[trigger] s.filter(p)[j]).kind by {
                if j < kept.len() {
                    assert(kept[i].kind != kept[j].kind);
                } else {
                    assert(kept.contains(kept[i]));
                    let k = choose|k: int| 0 <= k < front.len() && front[k] == kept[i];
                    assert(s[k].kind != s[s.len() - 1].kind);
                }
            }
        }
    }
}

/// Arming leaves one repeat for each of the kinds, and the others as they were.
pub proof fn lemma_armed(repeats: Seq<Reminder>, kinds: Seq<AlertKind>, now: int)
    ensures
        distinct(repeats) ==> distinct(armed(repeats, kinds, now)),
        forall|r: Reminder| #[trigger]
            armed(repeats, kinds, now).contains(r) <==> (if kinds.contains(r.kind) {
                r == fresh_repeat(r.kind, now)
            } else {
                repeats.contains(r)
            }),
    decreases kinds.len(),
{
    if kinds.len() > 0 {
        let front = kinds.drop_last();
        let last = kinds.last();
        lemma_armed(repeats, front, now);
        let before = armed(repeats, front, now);
        let other = |r: Reminder| r.kind != last;
        lemma_filtered(before, other);
        let kept = without(before, last);
        let after = armed(repeats, kinds, now);
        assert(forall|k: AlertKind|
            kinds.contains(k) <==> #[trigger] front.contains(k) || k == last) by {
            assert forall|k: AlertKind| kinds.contains(k) <==> #[trigger] front.contains(k) || k
                == last by {
                if kinds.contains(k) {
                    let i = choose|i: int| 0 <= i < kinds.len() && kinds[i] == k;
                    if i < front.len() {
                        assert(front[i] == k);
                    }
                }
                if front.contains(k) {
                    let i = choose|i: int| 0 <= i < front.len() && front[i] == k;
                    assert(kinds[i] == k);
                }
                assert(kinds[kinds.len() - 1] == last);
            }
        }
        assert forall|r: Reminder| #[trigger] after.contains(r) <==> kept.contains(r) || r
            == fresh_repeat(last, now) by {
            if after.contains(r) {
                let i = choose|i: int| 0 <= i < after.len() && after[i] == r;
                if i < kept.len() {
                    assert(kept[i] == r);
                }
            }
            if kept.contains(r) {
                let i = choose|i: int| 0 <= i < kept.len() && kept[i] == r;
                assert(after[i] == r);
            }
            assert(after[kept.len() as int] == fresh_repeat(last, now));
        }
        assert forall|r: Reminder| #[trigger] after.contains(r) <==> (if kinds.contains(r.kind) {
            r == fresh_repeat(r.kind, now)
        } else {
            repeats.contains(r)
        }) by {
            assert(kept.contains(r) <==> before.contains(r) && r.kind != last);
            assert(front.contains(r.kind) || r.kind == last <==> kinds.contains(r.kind));
        }
        if distinct(repeats) {
            assert forall|i: int, j: int| 0 <= i < j < after.len() implies (
            #[trigger] after[i]).kind != (#[trigger] after[j]).kind by {
                if j == kept.len() {
                    assert(kept.contains(kept[i]));
                } else {
                    assert(kept[i].kind != kept[j].kind);
                }
            }
        }
    }
}

/// What is open after an observation: one repeat of a kind at most, each with
/// its condition true of the page.
pub proof fn lemma_open_repeats(w: Watch, obs: parse::Sighting, now: int, url: Seq<char>)
    ensures
        distinct(w.repeats) ==> distinct(open_repeats(w, obs, now, url)),
        forall|r: Reminder| #[trigger]
            open_repeats(w, obs, now, url).contains(r) <==> is_open(r.kind, obs) && (if fired(
                w,
                obs,
                url,
            ).contains(r.kind) {
                r == fresh_repeat(r.kind, now)
            } else {
                w.repeats.contains(r)
            }),
{
    let kinds = fired(w, obs, url);
    lemma_armed(w.repeats, kinds, now);
    lemma_filtered(
        armed(w.repeats, kinds, now),
        |r: Reminder| is_open(r.kind, obs),
    );
}

/// An observation keeps the state well.
pub proof fn law_an_observation_keeps_the_state(
    w: Watch,
    obs: parse::Sighting,
    now: int,
    url: Seq<char>,
)
    requires
        well_kept(w),
    ensures
        well_kept(observed(w, obs, now, url)),
{
    let kinds = fired(w, obs, url);
    let open = open_repeats(w, obs, now, url);
    let next = observed(w, obs, now, url).repeats;
    lemma_open_repeats(w, obs, now, url);
    assert forall|i: int| 0 <= i < next.len() implies {
        &&& (#[trigger] next[i]).count <= REPEAT_CAP
        &&& is_open(next[i].kind, obs)
    } by {
        assert(open.contains(open[i]));
        assert(next[i] == stepped(open[i], kinds, now));
        if w.repeats.contains(open[i]) {
            let k = choose|k: int| 0 <= k < w.repeats.len() && w.repeats[k] == open[i];
            assert(w.repeats[k].count <= REPEAT_CAP);
        }
    }
    assert forall|i: int, j: int| 0 <= i < j < next.len() implies (#[trigger] next[i]).kind != (
    #[trigger] next[j]).kind by {
        assert(open[i].kind != open[j].kind);
    }
}

pub proof fn lemma_recorded(repeats: Seq<Reminder>, kind: AlertKind, delivered: bool)
    ensures
        recorded(repeats, kind, delivered).len() == repeats.len(),
        forall|i: int|
            0 <= i < repeats.len() ==> {
                &&& (#[trigger] recorded(repeats, kind, delivered)[i]).kind == repeats[i].kind
                &&& recorded(repeats, kind, delivered)[i].count == repeats[i].count
                &&& recorded(repeats, kind, delivered)[i].sent_at == repeats[i].sent_at
                &&& repeats[i].kind != kind ==> recorded(repeats, kind, delivered)[i] == repeats[i]
            },
    decreases repeats.len(),
{
    if repeats.len() > 0 && repeats[0].kind != kind {
        let rest = repeats.skip(1);
        lemma_recorded(rest, kind, delivered);
        let after = recorded(repeats, kind, delivered);
        assert forall|i: int| 0 <= i < repeats.len() implies {
            &&& (#[trigger] after[i]).kind == repeats[i].kind
            &&& after[i].count == repeats[i].count
            &&& after[i].sent_at == repeats[i].sent_at
            &&& repeats[i].kind != kind ==> after[i] == repeats[i]
        } by {
            if i > 0 {
                assert(after[i] == recorded(rest, kind, delivered)[i - 1]);
                assert(rest[i - 1] == repeats[i]);
            }
        }
    }
}

/// Taking note of a delivery keeps the state well, and changes nothing but the
/// note.
pub proof fn law_a_delivery_keeps_the_state(w: Watch, sent: state::Notice, delivered: bool)
    requires
        well_kept(w),
    ensures
        well_kept(settled(w, sent, delivered)),
        settled(w, sent, delivered) == (Watch {
            repeats: settled(w, sent, delivered).repeats,
            ..w
        }),
{
    lemma_recorded(w.repeats, sent.kind, delivered);
    let after = settled(w, sent, delivered);
    assert forall|i: int, j: int| 0 <= i < j < after.repeats.len() implies (
    #[trigger] after.repeats[i]).kind != (#[trigger] after.repeats[j]).kind by {
        assert(w.repeats[i].kind != w.repeats[j].kind);
    }
    assert forall|i: int| 0 <= i < after.repeats.len() implies {
        &&& (#[trigger] after.repeats[i]).count <= REPEAT_CAP
        &&& w.last matches Some(obs) && is_open(after.repeats[i].kind, obs)
    } by {
        assert(w.repeats[i].count <= REPEAT_CAP);
    }
}

/// Every poll keeps the state well, whatever it found.
pub proof fn law_a_poll_keeps_the_state(w: Watch, found: Found, now: int, settings: config::Settings)
    requires
        well_kept(w),
        settings.poll_interval >= 0,
    ensures
        well_kept(polled(w, found, now, settings).after),
{
    let counted = Watch { checks: w.checks + 1, ..w };
    if let Ok(Ok(obs)) = found {
        law_an_observation_keeps_the_state(answered(counted), obs, now, settings.target_url);
    }
}

/// When things are due, in numbers: a reminder five minutes after the last send
/// and while fewer than six went out, an outage warning after a quarter of an
/// hour, a structure warning and a heartbeat after a day. None is ever overdue:
/// what is due stays due until it is sent.
pub proof fn law_when_things_are_due(
    w: Watch,
    r: Reminder,
    since: Option<int>,
    now: int,
    later: int,
)
    ensures
        repeat_due(r, now) <==> r.count < 6 && now - r.sent_at >= 300_000_000_000,
        outage_due(since, now) <==> (since matches Some(at) && now - at >= 900_000_000_000),
        structure_due(w, now) <==> (w.last_structure_warn matches Some(at) ==> now - at
            >= 86_400_000_000_000),
        heartbeat_due(w, now) <==> now - w.last_heartbeat >= 86_400_000_000_000,
        now <= later ==> {
            &&& repeat_due(r, now) ==> repeat_due(r, later)
            &&& outage_due(since, now) ==> outage_due(since, later)
            &&& structure_due(w, now) ==> structure_due(w, later)
            &&& heartbeat_due(w, now) ==> heartbeat_due(w, later)
        },
{
}

/// What a state says is what it holds, with its repeats one for one.
pub proof fn law_states_say_what_they_hold(st: AppState, i: int)
    ensures
        match st.last {
            Some(obs) => st@.last == Some(obs@),
            None => st@.last is None,
        },
        st@.checks == st.checks,
        match st.failures_since {
            Some(at) => st@.failures_since == Some(at@),
            None => st@.failures_since is None,
        },
        st@.failure_warned == st.failure_warned,
        st@.repeats.len() == st.repeats@.len(),
        0 <= i < st.repeats@.len() ==> {
            &&& st@.repeats[i].kind == st.repeats@[i].kind
            &&& st@.repeats[i].sent_at == st.repeats@[i].sent_at@
            &&& st@.repeats[i].count == st.repeats@[i].count
            &&& st@.repeats[i].delivered == st.repeats@[i].delivered
        },
        match st.last_change {
            Some(at) => st@.last_change == Some(at@),
            None => st@.last_change is None,
        },
        st@.started == st.started@,
        match st.backoff {
            Some(wait) => st@.backoff == Some(wait.nanos as int),
            None => st@.backoff is None,
        },
        match st.last_structure_warn {
            Some(at) => st@.last_structure_warn == Some(at@),
            None => st@.last_structure_warn is None,
        },
        st@.last_heartbeat == st.last_heartbeat@,
{
}

/// What a poll found is what the fetch and the classification came to.
pub proof fn law_polls_find_what_was_fetched(
    html: String,
    page: Result<PageObservation, ParseError>,
    e: FetchError,
)
    ensures
        found_in(Ok(html)) == Ok::<Result<parse::Sighting, ParseError>, FetchError>(
            parse::classification(page::page_parts(page::parsed(html@))),
        ),
        found_in(Err(e)) == Err::<Result<parse::Sighting, ParseError>, FetchError>(e),
        found(Ok(page)) == Ok::<Result<parse::Sighting, ParseError>, FetchError>(
            parse::outcome(page),
        ),
        found(Err(e)) == Err::<Result<parse::Sighting, ParseError>, FetchError>(e),
{
}

}
