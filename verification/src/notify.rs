//! How an alert is put into a message, and when it counts as delivered.

use vstd::prelude::*;

use crate::config::Config;
use crate::state;
use crate::state::{Alert, Severity};
use crate::text;
use crate::text::{byte_size, chars_of, push_decimal, string_of, utf8_width};

verus! {

broadcast use vstd::string::group_string_axioms;

/// The ntfy priority of a severity.
pub open spec fn priority(sev: Severity) -> Seq<char> {
    match sev {
        Severity::Max => "max"@,
        Severity::Info => "default"@,
    }
}

/// The ntfy priority of a severity.
pub fn ntfy_priority(sev: Severity) -> (r: &'static str)
    ensures
        r@ == priority(sev),
{
    match sev {
        Severity::Max => "max",
        Severity::Info => "default",
    }
}

// ---------------------------------------------------------------------------
// Message size
// ---------------------------------------------------------------------------

/// Telegram rejects messages over 4096 chars and ntfy bodies over 4096 bytes.
/// There are at least as many bytes as chars, so one byte-based cap with
/// headroom satisfies both.
pub const MAX_MESSAGE_BYTES: usize = 4000;

/// What marks a message that was cut.
pub const CUT_MARKER: &'static str = "\n[…]";

/// How many bytes the marker takes.
pub const CUT_MARKER_BYTES: usize = 6;

/// The longest prefix of `s` that takes at most `room` bytes.
pub open spec fn prefix_within(s: Seq<char>, room: int) -> Seq<char>
    decreases s.len(),
{
    if s.len() == 0 || text::byte_len(s) <= room {
        s
    } else {
        prefix_within(s.drop_last(), room)
    }
}

/// `s` cut to at most `max_bytes`. The cut is marked if there is room for the
/// marker.
pub open spec fn truncated(s: Seq<char>, max_bytes: nat) -> Seq<char> {
    if text::byte_len(s) <= max_bytes {
        s
    } else if max_bytes >= CUT_MARKER_BYTES {
        prefix_within(s, max_bytes - CUT_MARKER_BYTES) + CUT_MARKER@
    } else {
        prefix_within(s, max_bytes as int)
    }
}

proof fn lemma_marker_bytes()
    ensures
        text::byte_len(CUT_MARKER@) == CUT_MARKER_BYTES,
{
    reveal_strlit("\n[…]");
    let none = Seq::<char>::empty();
    assert(text::byte_len(none) == 0) by {
        assert(vstd::utf8::encode_utf8(none) =~= Seq::empty());
    }
    text::lemma_byte_len_push(none, '\n');
    text::lemma_byte_len_push(none.push('\n'), '[');
    text::lemma_byte_len_push(none.push('\n').push('['), '…');
    text::lemma_byte_len_push(none.push('\n').push('[').push('…'), ']');
    assert(CUT_MARKER@ =~= none.push('\n').push('[').push('…').push(']'));
}

proof fn lemma_prefix_within(s: Seq<char>, room: int, k: int)
    requires
        0 <= k < s.len(),
        text::byte_len(s.take(k)) <= room,
        text::byte_len(s.take(k + 1)) > room,
    ensures
        prefix_within(s, room) == s.take(k),
    decreases s.len(),
{
    text::lemma_byte_len_prefix(s, k + 1);
    let front = s.drop_last();
    if k + 1 == s.len() {
        assert(s.take(k + 1) =~= s);
        assert(front =~= s.take(k));
        if front.len() > 0 {
            assert(prefix_within(front, room) == front);
        }
    } else {
        assert(front.take(k) =~= s.take(k));
        assert(front.take(k + 1) =~= s.take(k + 1));
        lemma_prefix_within(front, room, k);
    }
}

/// The longest prefix of `s` that takes at most `room` bytes, where the whole
/// takes more.
fn cut(s: &str, room: usize) -> (r: String)
    requires
        text::byte_len(s@) > room,
    ensures
        r@ == prefix_within(s@, room as int),
{
    let chars = chars_of(s);
    let mut size: usize = 0;
    let mut i: usize = 0;
    assert(text::byte_len(s@.take(0)) == 0) by {
        assert(vstd::utf8::encode_utf8(s@.take(0)) =~= Seq::empty());
    }
    while i < chars.len()
        invariant
            i <= chars@.len(),
            chars@ == s@,
            size == text::byte_len(s@.take(i as int)),
            size <= room,
            text::byte_len(s@) > room,
        decreases chars@.len() - i,
    {
        let width = utf8_width(chars[i]);
        proof {
            assert(s@.take(i + 1) =~= s@.take(i as int).push(s@[i as int]));
            text::lemma_byte_len_push(s@.take(i as int), s@[i as int]);
        }
        if width > room - size {
            proof {
                lemma_prefix_within(s@, room as int, i as int);
                assert(s@.subrange(0, i as int) =~= s@.take(i as int));
            }
            return string_of(&chars, 0, i);
        }
        size = size + width;
        i += 1;
    }
    proof {
        assert(s@.take(s@.len() as int) =~= s@);
    }
    String::new()
}

/// Cut `s` to at most `max_bytes` on a char boundary, marking the cut when the
/// marker itself fits within the limit.
pub fn truncate_message(s: &str, max_bytes: usize) -> (r: String)
    ensures
        r@ == truncated(s@, max_bytes as nat),
        text::byte_len(r@) <= max_bytes,
{
    proof {
        law_truncation_respects_the_limit(s@, max_bytes as nat);
    }
    if byte_size(s) <= max_bytes as u128 {
        return s.to_string();
    }
    if max_bytes >= CUT_MARKER_BYTES {
        let mut out = cut(s, max_bytes - CUT_MARKER_BYTES);
        out.append(CUT_MARKER);
        out
    } else {
        cut(s, max_bytes)
    }
}

proof fn lemma_prefix_within_is_a_prefix(s: Seq<char>, room: int)
    requires
        room >= 0,
    ensures
        text::byte_len(prefix_within(s, room)) <= room,
        prefix_within(s, room) == s.take(prefix_within(s, room).len() as int),
        prefix_within(s, room).len() <= s.len(),
    decreases s.len(),
{
    if s.len() == 0 {
        assert(vstd::utf8::encode_utf8(s) =~= Seq::empty());
        assert(s.take(0) =~= s);
    } else if text::byte_len(s) <= room {
        assert(s.take(s.len() as int) =~= s);
    } else {
        let front = s.drop_last();
        lemma_prefix_within_is_a_prefix(front, room);
        let kept = prefix_within(front, room);
        assert(front.take(kept.len() as int) =~= s.take(kept.len() as int));
    }
}

/// A truncated message takes no more bytes than it may, whatever the limit.
pub proof fn law_truncation_respects_the_limit(s: Seq<char>, max_bytes: nat)
    ensures
        text::byte_len(truncated(s, max_bytes)) <= max_bytes,
{
    if text::byte_len(s) > max_bytes {
        if max_bytes >= CUT_MARKER_BYTES {
            let room = max_bytes - CUT_MARKER_BYTES;
            lemma_prefix_within_is_a_prefix(s, room);
            lemma_marker_bytes();
            text::lemma_byte_len_concat(prefix_within(s, room), CUT_MARKER@);
        } else {
            lemma_prefix_within_is_a_prefix(s, max_bytes as int);
        }
    }
}

/// A truncated message is the message, or a beginning of it, followed by the
/// marker if that fits: nothing is made up and no character is torn apart.
pub proof fn law_truncation_keeps_a_beginning(s: Seq<char>, max_bytes: nat)
    ensures
        truncated(s, max_bytes) == s || exists|k: int|
            0 <= k < s.len() && truncated(s, max_bytes) == #[trigger] s.take(k) + (if max_bytes
                >= CUT_MARKER_BYTES {
                CUT_MARKER@
            } else {
                Seq::empty()
            }),
{
    if text::byte_len(s) > max_bytes {
        let room = if max_bytes >= CUT_MARKER_BYTES {
            max_bytes - CUT_MARKER_BYTES
        } else {
            max_bytes as int
        };
        lemma_prefix_within_is_a_prefix(s, room);
        let k = prefix_within(s, room).len() as int;
        assert(s.take(s.len() as int) =~= s);
        assert(k < s.len());
        assert(s.take(k) + Seq::<char>::empty() =~= s.take(k));
    }
}

/// A message within the limit is untouched, and to truncate twice is to truncate
/// once.
pub proof fn law_truncation_is_idempotent(s: Seq<char>, max_bytes: nat)
    ensures
        text::byte_len(s) <= max_bytes ==> truncated(s, max_bytes) == s,
        truncated(truncated(s, max_bytes), max_bytes) == truncated(s, max_bytes),
{
    law_truncation_respects_the_limit(s, max_bytes);
}

/// The message that an alert is sent as.
pub open spec fn message(notice: state::Notice) -> Seq<char> {
    truncated(notice.title + "\n\n"@ + notice.body, MAX_MESSAGE_BYTES as nat)
}

/// The message that an alert is sent as: its title, its body, within the limits
/// of the channels.
pub fn message_text(alert: &Alert) -> (r: String)
    ensures
        r@ == message(alert@),
        text::byte_len(r@) <= MAX_MESSAGE_BYTES,
{
    let mut whole = alert.title.clone();
    whole.append("\n\n");
    whole.append(&alert.body);
    truncate_message(&whole, MAX_MESSAGE_BYTES)
}

// ---------------------------------------------------------------------------
// ntfy
// ---------------------------------------------------------------------------

pub const NTFY_DEFAULT_BASE_URL: &'static str = "https://ntfy.sh";

/// `s` without the slashes at its end.
pub open spec fn without_slashes(s: Seq<char>) -> Seq<char>
    decreases s.len(),
{
    if s.len() > 0 && s.last() == '/' {
        without_slashes(s.drop_last())
    } else {
        s
    }
}

/// Where messages of a topic are posted to.
pub open spec fn topic_url(base_url: Seq<char>, topic: Seq<char>) -> Seq<char> {
    without_slashes(base_url) + "/"@ + topic
}

/// A request to ntfy. The title is plain ASCII, as a header must be, so the
/// alert's own title goes into the body.
#[derive(Debug, Clone, PartialEq, Eq)]
pub struct NtfyRequest {
    pub url: String,
    pub title: String,
    pub priority: String,
    pub tags: String,
    pub body: String,
}

fn trim_slashes(s: &str) -> (r: String)
    ensures
        r@ == without_slashes(s@),
{
    let chars = chars_of(s);
    let mut end = chars.len();
    assert(s@.take(s@.len() as int) =~= s@);
    while end > 0 && chars[end - 1] == '/'
        invariant
            end <= chars@.len(),
            chars@ == s@,
            without_slashes(s@) == without_slashes(s@.take(end as int)),
        decreases end,
    {
        assert(s@.take(end as int).drop_last() =~= s@.take(end - 1));
        end = end - 1;
    }
    assert(s@.subrange(0, end as int) =~= s@.take(end as int));
    string_of(&chars, 0, end)
}

/// The request that posts an alert to a topic.
pub fn ntfy_request(base_url: &str, topic: &str, alert: &Alert) -> (r: NtfyRequest)
    ensures
        r.url@ == topic_url(base_url@, topic@),
        r.title@ == "sb-watcher"@,
        r.priority@ == priority(alert.severity),
        r.tags@ == "ticket"@,
        r.body@ == message(alert@),
{
    let mut url = trim_slashes(base_url);
    url.append("/");
    url.append(topic);
    NtfyRequest {
        url,
        title: "sb-watcher".to_string(),
        priority: ntfy_priority(alert.severity).to_string(),
        tags: "ticket".to_string(),
        body: message_text(alert),
    }
}

/// Whether ntfy took a message, by the status of its answer.
pub open spec fn accepted(status: u16) -> bool {
    200 <= status <= 299
}

/// Whether ntfy took a message, by the status of its answer.
pub fn ntfy_accepted(status: u16) -> (r: bool)
    ensures
        r == accepted(status),
{
    200 <= status && status <= 299
}

// ---------------------------------------------------------------------------
// Channels
// ---------------------------------------------------------------------------

/// A way to reach the user.
#[derive(Debug, Clone, PartialEq, Eq)]
pub enum Channel {
    /// A Telegram chat.
    Telegram(i64),
    /// An ntfy topic.
    Ntfy(String),
}

/// Whether `channels` are the ones that a watcher for `chat` alerts: the chat
/// first, then the topic if there is one.
pub open spec fn are_channels(
    channels: Seq<Channel>,
    chat: i64,
    topic: Option<Seq<char>>,
) -> bool {
    match topic {
        Some(topic) => {
            &&& channels.len() == 2
            &&& channels[0] == Channel::Telegram(chat)
            &&& channels[1] matches Channel::Ntfy(t) && t@ == topic
        },
        None => channels == seq![Channel::Telegram(chat)],
    }
}

/// The channels that a watcher for `chat` alerts. Without a topic Telegram is
/// the only one.
pub fn channels_for(cfg: &Config, chat: i64) -> (r: Vec<Channel>)
    ensures
        are_channels(r@, chat, cfg@.ntfy_topic),
{
    let mut out: Vec<Channel> = Vec::new();
    out.push(Channel::Telegram(chat));
    if let Some(topic) = &cfg.ntfy_topic {
        out.push(Channel::Ntfy(topic.clone()));
    }
    assert(cfg.ntfy_topic is None ==> out@ =~= seq![Channel::Telegram(chat)]);
    out
}

// ---------------------------------------------------------------------------
// Fan-out
// ---------------------------------------------------------------------------

/// What a channel made of an alert: it took it, or why it did not.
pub open spec fn cause(outcome: Result<(), String>) -> Option<Seq<char>> {
    match outcome {
        Ok(()) => None,
        Err(e) => Some(e@),
    }
}

/// The causes of those channels that did not take the alert.
pub open spec fn causes(outcomes: Seq<Option<Seq<char>>>) -> Seq<Seq<char>>
    decreases outcomes.len(),
{
    if outcomes.len() == 0 {
        Seq::empty()
    } else {
        match outcomes.last() {
            Some(cause) => causes(outcomes.drop_last()).push(cause),
            None => causes(outcomes.drop_last()),
        }
    }
}

/// Whether some channel took the alert.
pub open spec fn reached_someone(outcomes: Seq<Option<Seq<char>>>) -> bool {
    exists|i: int| 0 <= i < outcomes.len() && (#[trigger] outcomes[i]) is None
}

/// What is reported once every channel has had its attempt. Delivered means that
/// the user can see it somewhere: a partial failure is not a failure of the
/// alert. Without channels nobody can see it.
pub open spec fn verdict(outcomes: Seq<Option<Seq<char>>>) -> Result<(), Seq<char>> {
    if outcomes.len() == 0 {
        Err("no notifier channels configured"@)
    } else if reached_someone(outcomes) {
        Ok(())
    } else {
        Err(
            "all "@ + text::decimal(outcomes.len()) + " channels failed: "@ + text::joined(
                causes(outcomes),
                "; "@,
            ),
        )
    }
}

/// The channel to be tried next, if one is left.
pub open spec fn next_channel(outcomes: Seq<Option<Seq<char>>>, channels: nat) -> Option<nat> {
    if outcomes.len() < channels {
        Some(outcomes.len())
    } else {
        None
    }
}

/// An alert on its way to several channels.
///
/// Its view is what the channels that have been tried so far made of it.
#[derive(Debug)]
pub struct FanOut {
    channels: usize,
    outcomes: Vec<Result<(), String>>,
}

impl View for FanOut {
    type V = Seq<Option<Seq<char>>>;

    closed spec fn view(&self) -> Seq<Option<Seq<char>>> {
        self.outcomes@.map_values(|outcome: Result<(), String>| cause(outcome))
    }
}

/// What comes next on an alert's way.
#[derive(Debug)]
pub enum FanStep {
    /// Try this channel.
    Try(usize),
    /// Every channel has had its attempt.
    Done(Result<(), String>),
}

proof fn lemma_causes(outcomes: Seq<Option<Seq<char>>>)
    ensures
        causes(outcomes).len() <= outcomes.len(),
        causes(outcomes).len() == outcomes.len() <==> !reached_someone(outcomes),
    decreases outcomes.len(),
{
    if outcomes.len() > 0 {
        let front = outcomes.drop_last();
        lemma_causes(front);
        assert(forall|i: int| 0 <= i < front.len() ==> #[trigger] front[i] == outcomes[i]);
        if reached_someone(front) {
            let i = choose|i: int| 0 <= i < front.len() && (#[trigger] front[i]) is None;
            assert(outcomes[i] is None);
        }
        assert(outcomes[outcomes.len() - 1] == outcomes.last());
        if reached_someone(outcomes) && outcomes.last() is Some {
            let i = choose|i: int| 0 <= i < outcomes.len() && (#[trigger] outcomes[i]) is None;
            assert(front[i] is None);
        }
    }
}

impl FanOut {
    #[verifier::type_invariant]
    spec fn in_step(&self) -> bool {
        self.outcomes@.len() <= self.channels
    }

    /// How many channels there are.
    pub closed spec fn channels(&self) -> nat {
        self.channels as nat
    }

    /// An alert that no channel has been tried with yet.
    pub fn new(channels: usize) -> (r: FanOut)
        ensures
            r.channels() == channels,
            r@ == Seq::<Option<Seq<char>>>::empty(),
    {
        let r = FanOut { channels, outcomes: Vec::new() };
        assert(r@ =~= Seq::empty());
        r
    }

    /// The causes of those channels that did not take the alert.
    fn errors(&self) -> (r: Vec<String>)
        ensures
            text::texts(r@) == causes(self@),
    {
        let ghost all = self@;
        let mut errors: Vec<String> = Vec::new();
        let mut i: usize = 0;
        assert(text::texts(errors@) =~= causes(all.take(0)));
        while i < self.outcomes.len()
            invariant
                i <= self.outcomes@.len(),
                all == self@,
                text::texts(errors@) == causes(all.take(i as int)),
            decreases self.outcomes@.len() - i,
        {
            assert(all.take(i + 1).drop_last() =~= all.take(i as int));
            assert(all[i as int] == cause(self.outcomes@[i as int]));
            if let Err(e) = &self.outcomes[i] {
                let ghost before = errors@;
                errors.push(e.clone());
                assert(text::texts(errors@) =~= text::texts(before).push(e@));
            }
            i += 1;
        }
        assert(all.take(all.len() as int) =~= all);
        errors
    }

    /// What comes next: each channel in turn, without regard to what the others
    /// made of the alert, and then the verdict.
    pub fn step(&self) -> (r: FanStep)
        ensures
            match r {
                FanStep::Try(i) => i == self@.len() && i < self.channels(),
                FanStep::Done(result) => {
                    &&& self@.len() == self.channels()
                    &&& match result {
                        Ok(()) => verdict(self@) == Ok::<(), Seq<char>>(()),
                        Err(e) => verdict(self@) == Err::<(), Seq<char>>(e@),
                    }
                },
            },
            match next_channel(self@, self.channels()) {
                Some(next) => r matches FanStep::Try(i) && i == next,
                None => r is Done,
            },
    {
        proof {
            use_type_invariant(self);
            lemma_causes(self@);
        }
        let tried = self.outcomes.len();
        if tried < self.channels {
            return FanStep::Try(tried);
        }
        if self.channels == 0 {
            return FanStep::Done(Err("no notifier channels configured".to_string()));
        }
        let errors = self.errors();
        assert(text::texts(errors@).len() == errors@.len());
        if errors.len() < self.channels {
            return FanStep::Done(Ok(()));
        }
        let mut out = "all ".to_string();
        push_decimal(&mut out, self.channels as u128);
        out.append(" channels failed: ");
        out.append(&join(&errors, "; "));
        FanStep::Done(Err(out))
    }

    /// Take note of what the channel that was to be tried made of the alert.
    pub fn record(&mut self, outcome: Result<(), String>)
        requires
            old(self)@.len() < old(self).channels(),
        ensures
            final(self)@ == old(self)@.push(cause(outcome)),
            final(self).channels() == old(self).channels(),
    {
        let mut outcomes: Vec<Result<(), String>> = Vec::new();
        std::mem::swap(&mut outcomes, &mut self.outcomes);
        outcomes.push(outcome);
        self.outcomes = outcomes;
        assert(self@ =~= old(self)@.push(cause(outcome)));
    }
}

/// The strings with `glue` between them.
fn join(parts: &Vec<String>, glue: &str) -> (r: String)
    ensures
        r@ == text::joined(text::texts(parts@), glue@),
{
    let ghost all = text::texts(parts@);
    let mut out = String::new();
    let mut i: usize = 0;
    assert(text::joined(all.take(0), glue@) =~= Seq::empty());
    while i < parts.len()
        invariant
            i <= parts@.len(),
            all == text::texts(parts@),
            out@ == text::joined(all.take(i as int), glue@),
        decreases parts@.len() - i,
    {
        proof {
            assert(all.take(i + 1) =~= all.take(i as int).push(all[i as int]));
            text::lemma_joined_push(all.take(i as int), all[i as int], glue@);
        }
        if i > 0 {
            out.append(glue);
        }
        out.append(&parts[i]);
        assert(out@ =~= text::joined(all.take(i + 1), glue@));
        i += 1;
    }
    assert(all.take(all.len() as int) =~= all);
    out
}

/// An alert counts as delivered if and only if there is a channel that took it.
pub proof fn law_delivered_means_someone_has_it(outcomes: Seq<Option<Seq<char>>>)
    ensures
        verdict(outcomes) is Ok <==> reached_someone(outcomes),
{
}

/// A channel that fails does not keep the others from delivering: one that takes
/// the alert makes it delivered, wherever it stands among the others.
pub proof fn law_one_channel_is_enough(
    before: Seq<Option<Seq<char>>>,
    after: Seq<Option<Seq<char>>>,
)
    ensures
        verdict(before.push(None) + after) == Ok::<(), Seq<char>>(()),
{
    let all = before.push(None) + after;
    assert(all[before.len() as int] is None);
}

// ---------------------------------------------------------------------------
// Test double
// ---------------------------------------------------------------------------

/// A channel that keeps what it was sent, and fails on demand.
#[derive(Debug)]
pub struct FakeNotifier {
    sent: Vec<Alert>,
    fail_next: bool,
}

impl FakeNotifier {
    /// What it was sent, in order.
    pub closed spec fn kept(&self) -> Seq<state::Notice> {
        state::notices(self.sent@)
    }

    /// Whether it will fail the next time.
    pub closed spec fn failing(&self) -> bool {
        self.fail_next
    }

    /// A channel that was sent nothing yet.
    pub fn new() -> (r: FakeNotifier)
        ensures
            r.kept() == Seq::<state::Notice>::empty(),
            !r.failing(),
    {
        let sent: Vec<Alert> = Vec::new();
        assert(state::notices(sent@) =~= Seq::empty());
        FakeNotifier { sent, fail_next: false }
    }

    /// What it was sent, in order.
    pub fn sent(&self) -> (r: Vec<Alert>)
        ensures
            state::notices(r@) == self.kept(),
    {
        let ghost all = state::notices(self.sent@);
        let mut out: Vec<Alert> = Vec::new();
        let mut i: usize = 0;
        assert(state::notices(out@) =~= all.take(0));
        while i < self.sent.len()
            invariant
                i <= self.sent@.len(),
                all == state::notices(self.sent@),
                state::notices(out@) == all.take(i as int),
            decreases self.sent@.len() - i,
        {
            let ghost before = out@;
            let alert = self.sent[i].clone();
            out.push(alert);
            proof {
                assert(all[i as int] == alert@);
                assert(state::notices(out@) =~= state::notices(before).push(alert@));
                assert(all.take(i + 1) =~= all.take(i as int).push(all[i as int]));
            }
            i += 1;
        }
        assert(all.take(all.len() as int) =~= all);
        out
    }

    /// Fail the next time.
    pub fn fail_next(&mut self)
        ensures
            final(self).kept() == old(self).kept(),
            final(self).failing(),
    {
        self.fail_next = true;
    }

    /// Keep the alert, unless it is to fail.
    pub fn send(&mut self, alert: &Alert) -> (r: Result<(), String>)
        ensures
            !final(self).failing(),
            match r {
                Ok(()) => !old(self).failing() && final(self).kept() == old(self).kept().push(
                    alert@,
                ),
                Err(e) => old(self).failing() && final(self).kept() == old(self).kept() && e@
                    == "simulated failure"@,
            },
    {
        if self.fail_next {
            self.fail_next = false;
            return Err("simulated failure".to_string());
        }
        self.sent.push(alert.clone());
        assert(self.kept() =~= old(self).kept().push(alert@));
        Ok(())
    }
}

/// No more is cut off than must be: one more character would not have fit.
pub proof fn law_truncation_keeps_all_that_fits(s: Seq<char>, max_bytes: nat)
    requires
        vstd::utf8::encode_utf8(s).len() > max_bytes,
    ensures
        exists|k: int|
            {
                let room = if max_bytes >= 6 {
                    max_bytes - 6
                } else {
                    max_bytes as int
                };
                &&& 0 <= k < s.len()
                &&& truncated(s, max_bytes) == #[trigger] s.take(k) + (if max_bytes >= 6 {
                    "\n[…]"@
                } else {
                    Seq::empty()
                })
                &&& vstd::utf8::encode_utf8(s.take(k)).len() <= room
                &&& vstd::utf8::encode_utf8(s.take(k + 1)).len() > room
            },
{
    let room = if max_bytes >= 6 {
        max_bytes - 6
    } else {
        max_bytes as int
    };
    lemma_prefix_within_is_a_prefix(s, room);
    let k = prefix_within(s, room).len() as int;
    assert(s.take(s.len() as int) =~= s);
    assert(k < s.len());
    lemma_no_longer_prefix_fits(s, room);
    assert(s.take(k) + Seq::<char>::empty() =~= s.take(k));
}

proof fn lemma_no_longer_prefix_fits(s: Seq<char>, room: int)
    requires
        text::byte_len(s) > room,
        room >= 0,
    ensures
        prefix_within(s, room).len() < s.len(),
        text::byte_len(s.take(prefix_within(s, room).len() as int + 1)) > room,
    decreases s.len(),
{
    assert(vstd::utf8::encode_utf8(Seq::<char>::empty()) =~= Seq::empty());
    if s.len() == 0 {
        assert(s =~= Seq::empty());
    } else {
        let front = s.drop_last();
        if front.len() == 0 || text::byte_len(front) <= room {
            assert(s.take(s.len() as int) =~= s);
        } else {
            lemma_no_longer_prefix_fits(front, room);
            let k = prefix_within(front, room).len() as int;
            assert(front.take(k + 1) =~= s.take(k + 1));
        }
    }
}

/// A message is the title and the body of its alert with an empty line between
/// them, within four thousand bytes.
pub proof fn law_a_message_has_title_and_body(notice: state::Notice)
    ensures
        message(notice) == truncated(notice.title + "\n\n"@ + notice.body, 4000),
        vstd::utf8::encode_utf8(message(notice)).len() <= 4000,
        vstd::utf8::encode_utf8(notice.title + "\n\n"@ + notice.body).len() <= 4000 ==> message(
            notice,
        ) == notice.title + "\n\n"@ + notice.body,
{
    law_truncation_respects_the_limit(notice.title + "\n\n"@ + notice.body, 4000);
}

proof fn lemma_without_slashes(s: Seq<char>) -> (k: int)
    ensures
        0 <= k <= s.len(),
        without_slashes(s) == s.take(k),
        forall|i: int| k <= i < s.len() ==> #[trigger] s[i] == '/',
        k > 0 ==> s[k - 1] != '/',
    decreases s.len(),
{
    if s.len() > 0 && s.last() == '/' {
        let front = s.drop_last();
        let k = lemma_without_slashes(front);
        assert(front.take(k) =~= s.take(k));
        assert forall|i: int| k <= i < s.len() implies #[trigger] s[i] == '/' by {
            if i < front.len() {
                assert(front[i] == s[i]);
            }
        }
        k
    } else {
        assert(s.take(s.len() as int) =~= s);
        s.len() as int
    }
}

/// A topic is found right under the server: the slashes that end the server's
/// address are dropped, one is put in their place, and the topic follows.
pub proof fn law_a_topic_stands_under_its_server(base_url: Seq<char>, topic: Seq<char>)
    ensures
        exists|k: int|
            {
                &&& 0 <= k <= base_url.len()
                &&& topic_url(base_url, topic) == (#[trigger] base_url.take(k)).push('/') + topic
                &&& k > 0 ==> base_url[k - 1] != '/'
                &&& forall|i: int| k <= i < base_url.len() ==> #[trigger] base_url[i] == '/'
            },
{
    let k = lemma_without_slashes(base_url);
    reveal_strlit("/");
    assert("/"@ =~= seq!['/']);
    assert(base_url.take(k) + "/"@ =~= base_url.take(k).push('/'));
    assert(topic_url(base_url, topic) == base_url.take(k).push('/') + topic);
}

/// ntfy took a message if and only if it answered with a success.
pub proof fn law_what_ntfy_takes(status: u16)
    ensures
        accepted(status) <==> 200 <= status && status < 300,
{
}

/// An urgent alert is posted at the highest priority, any other at the default.
pub proof fn law_priorities_follow_severity(sev: Severity)
    ensures
        sev == Severity::Max ==> priority(sev) == "max"@,
        sev == Severity::Info ==> priority(sev) == "default"@,
{
}

/// The chat is alerted always and first, the topic if and only if there is one,
/// and nobody else.
pub proof fn law_the_chat_is_always_alerted(
    channels: Seq<Channel>,
    chat: i64,
    topic: Option<Seq<char>>,
)
    requires
        are_channels(channels, chat, topic),
    ensures
        channels.len() == (if topic is Some {
            2nat
        } else {
            1nat
        }),
        channels[0] == Channel::Telegram(chat),
        topic matches Some(topic) ==> (channels[1] matches Channel::Ntfy(t) && t@ == topic),
{
}

proof fn lemma_causes_of_failures(outcomes: Seq<Option<Seq<char>>>)
    requires
        forall|i: int| 0 <= i < outcomes.len() ==> (#[trigger] outcomes[i]) is Some,
    ensures
        causes(outcomes).len() == outcomes.len(),
        forall|i: int|
            0 <= i < outcomes.len() ==> #[trigger] causes(outcomes)[i] == outcomes[i]->0,
    decreases outcomes.len(),
{
    if outcomes.len() > 0 {
        let front = outcomes.drop_last();
        assert(forall|i: int| 0 <= i < front.len() ==> #[trigger] front[i] == outcomes[i]);
        assert(outcomes[outcomes.len() - 1] is Some);
        lemma_causes_of_failures(front);
        assert forall|i: int| 0 <= i < outcomes.len() implies #[trigger] causes(outcomes)[i]
            == outcomes[i]->0 by {
            if i < front.len() {
                assert(causes(outcomes)[i] == causes(front)[i]);
                assert(front[i] == outcomes[i]);
            }
        }
    }
}

/// Where every channel failed, the report says how many there are and gives the
/// cause of each in turn. Without channels it says that there are none.
pub proof fn law_failures_are_told_in_full(outcomes: Seq<Option<Seq<char>>>, told: Seq<Seq<char>>)
    requires
        told.len() == outcomes.len(),
        forall|i: int| 0 <= i < outcomes.len() ==> #[trigger] outcomes[i] == Some(told[i]),
    ensures
        verdict(outcomes) == Err::<(), Seq<char>>(
            if outcomes.len() == 0 {
                "no notifier channels configured"@
            } else {
                "all "@ + text::decimal(outcomes.len()) + " channels failed: "@ + text::joined(
                    told,
                    "; "@,
                )
            },
        ),
{
    lemma_causes_of_failures(outcomes);
    assert forall|i: int| 0 <= i < outcomes.len() implies #[trigger] causes(outcomes)[i]
        == told[i] by {
        assert(outcomes[i] == Some(told[i]));
    }
    assert(causes(outcomes) =~= told);
}

/// Every channel has its attempt, in turn, whatever the others made of the alert:
/// which one comes next depends on how many have been tried and on nothing else.
pub proof fn law_every_channel_has_its_attempt(
    a: Seq<Option<Seq<char>>>,
    b: Seq<Option<Seq<char>>>,
    channels: nat,
)
    ensures
        a.len() == b.len() ==> next_channel(a, channels) == next_channel(b, channels),
        a.len() < channels ==> next_channel(a, channels) == Some(a.len()),
        a.len() == channels ==> next_channel(a, channels) is None,
{
}

/// A channel's outcome says whether it took the alert, and if not, why.
pub proof fn law_outcomes_say_what_they_hold(e: String)
    ensures
        cause(Ok(())) is None,
        cause(Err(e)) == Some(e@),
{
}

}
