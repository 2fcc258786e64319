//! Instants and spans of time.

use vstd::prelude::*;

verus! {

pub const NANOS_PER_SEC: u128 = 1_000_000_000;

// ---------------------------------------------------------------------------
// Spans
// ---------------------------------------------------------------------------

/// A span of time, exact to the nanosecond.
#[derive(Debug, Clone, Copy, PartialEq, Eq, Structural)]
pub struct Duration {
    pub nanos: u128,
}

/// The longest span that a whole number of `u64` seconds and a fraction of one
/// can make up, in nanoseconds.
pub const LONGEST_NANOS: u128 = 18_446_744_073_709_551_615_999_999_999;

/// What is left of a span once `spent` of it has passed.
pub open spec fn left_of(span: int, spent: int) -> int {
    if span >= spent {
        span - spent
    } else {
        0
    }
}

impl View for Duration {
    type V = int;

    open spec fn view(&self) -> int {
        self.nanos as int
    }
}

impl Duration {
    /// A span of whole seconds.
    pub fn from_secs(secs: u64) -> (r: Duration)
        ensures
            r@ == secs * NANOS_PER_SEC,
            r@ <= LONGEST_NANOS,
    {
        Duration { nanos: secs as u128 * NANOS_PER_SEC }
    }

    /// The whole seconds of the span.
    pub fn as_secs(self) -> (r: u128)
        ensures
            r == self@ / (NANOS_PER_SEC as int),
    {
        self.nanos / NANOS_PER_SEC
    }

    /// The shorter of two spans.
    pub fn min(self, other: Duration) -> (r: Duration)
        ensures
            r == (if self@ <= other@ {
                self
            } else {
                other
            }),
    {
        if self.nanos <= other.nanos {
            self
        } else {
            other
        }
    }

    /// The longer of two spans.
    pub fn max(self, other: Duration) -> (r: Duration)
        ensures
            r == (if self@ >= other@ {
                self
            } else {
                other
            }),
    {
        if self.nanos >= other.nanos {
            self
        } else {
            other
        }
    }

    /// What is left of the span once `spent` of it has passed.
    pub fn saturating_sub(self, spent: Duration) -> (r: Duration)
        ensures
            r@ == left_of(self@, spent@),
    {
        if self.nanos >= spent.nanos {
            Duration { nanos: self.nanos - spent.nanos }
        } else {
            Duration { nanos: 0 }
        }
    }
}

// ---------------------------------------------------------------------------
// Instants
// ---------------------------------------------------------------------------

/// The first second of the calendar, -262143-01-01 00:00:00 UTC.
pub const FIRST_SECOND: i64 = -8_334_601_228_800;

/// The last second of the calendar, 262142-12-31 23:59:59 UTC.
pub const LAST_SECOND: i64 = 8_210_266_876_799;

/// More nanoseconds than lie between any two instants of the calendar.
pub const LONGEST_AGE: i128 = 20_000_000_000_000_000_000_000;

/// How instants are shown: the date and the time to the minute, in UTC.
pub const MINUTE_PATTERN: &'static str = "%Y-%m-%d %H:%M UTC";

/// An instant in UTC, exact to the nanosecond.
///
/// Its view is the number of nanoseconds since the Unix epoch.
#[derive(Debug, Clone, Copy, PartialEq, Eq)]
pub struct Timestamp {
    secs: i64,
    nanos: u32,
}

impl View for Timestamp {
    type V = int;

    closed spec fn view(&self) -> int {
        self.secs * 1_000_000_000 + self.nanos
    }
}

/// The whole seconds since the Unix epoch of an instant given in nanoseconds.
pub open spec fn unix_second(instant: int) -> int {
    instant / 1_000_000_000
}

/// Whether an instant lies in the calendar.
pub open spec fn in_calendar(instant: int) -> bool {
    FIRST_SECOND <= unix_second(instant) <= LAST_SECOND
}

/// How `secs` seconds after the Unix epoch read in UTC under `pattern`.
pub uninterp spec fn utc_text(secs: int, pattern: Seq<char>) -> Seq<char>;

/// The date and time to the minute of an instant.
pub open spec fn minute_text(instant: int) -> Seq<char> {
    utc_text(unix_second(instant), MINUTE_PATTERN@)
}

/// `chrono::DateTime::format`, written out by `to_string`, on the UTC instant
/// that `chrono::DateTime::from_timestamp` makes of `secs`.
///
/// The text depends on the two arguments alone. Seconds outside chrono's
/// calendar have no instant, and patterns other than the one in use may not be
/// printable, so both are left out.
#[verifier::external_body]
fn format_utc(secs: i64, pattern: &str) -> (r: String)
    requires
        FIRST_SECOND <= secs <= LAST_SECOND,
        pattern@ == MINUTE_PATTERN@,
    ensures
        r@ == utc_text(secs as int, pattern@),
{
    chrono::DateTime::<chrono::Utc>::from_timestamp(secs, 0).unwrap().format(pattern).to_string()
}

impl Timestamp {
    #[verifier::type_invariant]
    spec fn valid(self) -> bool {
        &&& FIRST_SECOND <= self.secs <= LAST_SECOND
        &&& self.nanos < 1_000_000_000
    }

    /// The instant `nanos` nanoseconds into the second `secs` after the Unix
    /// epoch, if the calendar reaches that far.
    pub fn from_unix(secs: i64, nanos: u32) -> (r: Option<Timestamp>)
        ensures
            r is Some <==> FIRST_SECOND <= secs <= LAST_SECOND && nanos < 1_000_000_000,
            r matches Some(t) ==> t@ == secs * 1_000_000_000 + nanos,
    {
        if FIRST_SECOND <= secs && secs <= LAST_SECOND && nanos < 1_000_000_000 {
            Some(Timestamp { secs, nanos })
        } else {
            None
        }
    }

    /// The whole seconds since the Unix epoch.
    pub fn unix_secs(self) -> (r: i64)
        ensures
            r == unix_second(self@),
            in_calendar(self@),
    {
        proof {
            use_type_invariant(&self);
        }
        self.secs
    }

    /// The nanoseconds since `earlier`, negative if `earlier` is later.
    pub fn nanos_since(self, earlier: Timestamp) -> (r: i128)
        ensures
            r == self@ - earlier@,
            -LONGEST_AGE < r < LONGEST_AGE,
    {
        proof {
            use_type_invariant(&self);
            use_type_invariant(&earlier);
        }
        (self.secs as i128 - earlier.secs as i128) * 1_000_000_000 + (self.nanos as i128
            - earlier.nanos as i128)
    }

    /// Whether at least `mins` minutes have passed since `earlier`.
    pub fn minutes_passed(self, earlier: Timestamp, mins: i64) -> (r: bool)
        ensures
            r == (self@ - earlier@ >= mins * minute()),
    {
        self.nanos_since(earlier) >= mins as i128 * 60_000_000_000
    }

    /// The date and time to the minute, in UTC.
    pub fn minute_text(self) -> (r: String)
        ensures
            r@ == minute_text(self@),
    {
        let secs = self.unix_secs();
        format_utc(secs, MINUTE_PATTERN)
    }
}

/// One minute in nanoseconds.
pub open spec fn minute() -> int {
    60_000_000_000
}

/// `n / d`, rounded towards zero.
pub open spec fn toward_zero(n: int, d: int) -> int {
    if n >= 0 {
        n / d
    } else {
        -((-n) / d)
    }
}

/// `n / d`, rounded towards zero.
pub fn divide_toward_zero(n: i128, d: i128) -> (r: i128)
    requires
        d > 0,
        n > i128::MIN,
    ensures
        r == toward_zero(n as int, d as int),
{
    if n >= 0 {
        n / d
    } else {
        -((-n) / d)
    }
}

// ---------------------------------------------------------------------------
// What holds of every instant and span
// ---------------------------------------------------------------------------

/// An instant lies within its second, and is shown by that second in UTC, to the
/// minute. A minute is sixty seconds.
pub proof fn law_instants_and_their_seconds(instant: int)
    ensures
        0 <= instant - 1_000_000_000 * unix_second(instant) < 1_000_000_000,
        minute_text(instant) == utc_text(unix_second(instant), "%Y-%m-%d %H:%M UTC"@),
        minute() == 60 * 1_000_000_000,
        NANOS_PER_SEC == 1_000_000_000,
{
}

/// Rounding towards zero leaves a rest that is smaller than the divisor and lies
/// on the same side of zero as the number.
pub proof fn law_rounding_is_towards_zero(n: int, d: int)
    requires
        d > 0,
    ensures
        n >= 0 ==> 0 <= n - d * toward_zero(n, d) < d,
        n <= 0 ==> -d < n - d * toward_zero(n, d) <= 0,
{
    vstd::arithmetic::div_mod::lemma_fundamental_div_mod(n, d);
    vstd::arithmetic::div_mod::lemma_fundamental_div_mod(-n, d);
    vstd::arithmetic::div_mod::lemma_mod_bound(n, d);
    vstd::arithmetic::div_mod::lemma_mod_bound(-n, d);
    vstd::arithmetic::mul::lemma_mul_unary_negation(d, (-n) / d);
}

/// What is left of a span and what was spent of it make up the span, unless more
/// was spent than there was: then nothing is left.
pub proof fn law_what_is_spent_is_gone(span: int, spent: int)
    requires
        span >= 0,
        spent >= 0,
    ensures
        spent <= span ==> left_of(span, spent) + spent == span,
        spent > span ==> left_of(span, spent) == 0,
{
}

}
