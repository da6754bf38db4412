//! Instants of time in UTC, and the differences between them.
use vstd::prelude::*;

verus! {

/// The earliest second that a calendar date is kept for.
pub const EARLIEST_SECOND: i64 = -8334601228800;

/// The latest second that a calendar date is kept for.
pub const LATEST_SECOND: i64 = 8210266876799;

/// Whether `secs` seconds since 1970 and `nanos` nanoseconds name an instant.
/// Only the last second of a minute can hold more than a second's nanoseconds:
/// they stand for a leap second.
pub open spec fn names_instant(secs: int, nanos: int) -> bool {
    &&& EARLIEST_SECOND <= secs <= LATEST_SECOND
    &&& 0 <= nanos < 2_000_000_000
    &&& nanos >= 1_000_000_000 ==> secs % 60 == 59
}

/// An instant: seconds since the beginning of 1970 and nanoseconds.
#[derive(Debug, Clone, Copy, PartialEq, Eq, Structural)]
pub struct Timestamp {
    seconds: i64,
    nanoseconds: u32,
}

impl Timestamp {
    /// Seconds since the beginning of 1970.
    pub closed spec fn secs(self) -> int {
        self.seconds as int
    }

    /// Nanoseconds since the second began.
    pub closed spec fn nanos(self) -> int {
        self.nanoseconds as int
    }

    #[verifier::type_invariant]
    pub closed spec fn well_formed(self) -> bool {
        names_instant(self.secs(), self.nanos())
    }

    /// The instant with these seconds and nanoseconds.
    pub closed spec fn of(secs: int, nanos: int) -> Timestamp {
        Timestamp { seconds: secs as i64, nanoseconds: nanos as u32 }
    }

    /// The instant with these seconds and nanoseconds, where there is one.
    pub fn from_parts(secs: i64, nanos: u32) -> (t: Option<Timestamp>)
        ensures
            t is Some <==> names_instant(secs as int, nanos as int),
            t matches Some(t) ==> t == Timestamp::of(secs as int, nanos as int) && t.secs() == secs
                && t.nanos() == nanos,
    {
        if calendar_holds(secs, nanos) {
            Some(Timestamp { seconds: secs, nanoseconds: nanos })
        } else {
            None
        }
    }

    /// Seconds since the beginning of 1970.
    pub fn seconds(&self) -> (secs: i64)
        ensures
            secs == self.secs(),
            EARLIEST_SECOND <= secs <= LATEST_SECOND,
    {
        proof {
            use_type_invariant(self);
        }
        self.seconds
    }

    /// Nanoseconds since the second began.
    pub fn nanoseconds(&self) -> (nanos: u32)
        ensures
            nanos == self.nanos(),
            names_instant(self.secs(), self.nanos()),
    {
        proof {
            use_type_invariant(self);
        }
        self.nanoseconds
    }

    /// Milliseconds since the beginning of 1970.
    pub open spec fn millis(self) -> int {
        self.secs() * 1000 + self.nanos() / 1_000_000
    }

    /// Milliseconds since the beginning of 1970.
    pub fn milliseconds(&self) -> (millis: i64)
        ensures
            millis == self.millis(),
    {
        proof {
            use_type_invariant(self);
        }
        self.seconds * 1000 + (self.nanoseconds / 1_000_000) as i64
    }

    /// Whether this can be the present instant: it is not before 1970, and in no leap
    /// second.
    pub open spec fn can_be_now(self) -> bool {
        &&& names_instant(self.secs(), self.nanos())
        &&& self.secs() >= 0
        &&& self.nanos() < 1_000_000_000
    }

    /// The present instant.
    pub fn now() -> (t: Timestamp)
        ensures
            t.can_be_now(),
    {
        let (secs, nanos) = present_instant();
        Timestamp { seconds: secs, nanoseconds: nanos }
    }
}

/// Whether `chrono::DateTime::from_timestamp` makes an instant of these seconds
/// and nanoseconds. It does for every second of the years that chrono's calendar
/// holds; more than a second's nanoseconds it takes in the last second of a
/// minute only.
#[verifier::external_body]
fn calendar_holds(secs: i64, nanos: u32) -> (holds: bool)
    ensures
        holds == names_instant(secs as int, nanos as int),
{
    chrono::DateTime::from_timestamp(secs, nanos).is_some()
}

/// The present instant, from `chrono::Utc::now`. The instant itself depends on
/// the clock: what holds of each is that it is not before 1970 and lies in no
/// leap second. (A clock set before 1970 makes chrono panic.)
#[verifier::external_body]
fn present_instant() -> (now: (i64, u32))
    ensures
        names_instant(now.0 as int, now.1 as int),
        now.0 >= 0,
        now.1 < 1_000_000_000,
{
    let now = chrono::Utc::now();
    (now.timestamp(), now.timestamp_subsec_nanos())
}

/// `x` divided by `d`, rounded towards zero.
pub open spec fn truncated(x: int, d: int) -> int {
    if x >= 0 {
        x / d
    } else {
        -((-x) / d)
    }
}

/// The leap second between the two instants that their seconds do not count:
/// one where the instant that stands earlier in its day lies within it.
pub open spec fn uncounted_leap_second(
    later_secs: int,
    later_nanos: int,
    earlier_secs: int,
    earlier_nanos: int,
) -> int {
    if later_secs % 86400 > earlier_secs % 86400 && earlier_nanos >= 1_000_000_000 {
        1
    } else if later_secs % 86400 < earlier_secs % 86400 && later_nanos >= 1_000_000_000 {
        -1
    } else {
        0
    }
}

/// Nanoseconds from `earlier` to `later`; negative where `later` comes first.
pub open spec fn elapsed_nanos(later: Timestamp, earlier: Timestamp) -> int {
    (later.secs() - earlier.secs() + uncounted_leap_second(
        later.secs(),
        later.nanos(),
        earlier.secs(),
        earlier.nanos(),
    )) * 1_000_000_000 + later.nanos() - earlier.nanos()
}

/// Whole seconds from `earlier` to `later`, rounded towards zero.
pub open spec fn elapsed_secs(later: Timestamp, earlier: Timestamp) -> int {
    truncated(elapsed_nanos(later, earlier), 1_000_000_000)
}

/// Whole hours from `earlier` to `later`, rounded towards zero.
pub open spec fn elapsed_hours(later: Timestamp, earlier: Timestamp) -> int {
    truncated(elapsed_secs(later, earlier), 3600)
}

/// Whole days from `earlier` to `later`, rounded towards zero.
pub open spec fn elapsed_days(later: Timestamp, earlier: Timestamp) -> int {
    truncated(elapsed_secs(later, earlier), 86400)
}

/// Whole seconds between two instants: `chrono::DateTime::signed_duration_since`,
/// then `chrono::TimeDelta::num_seconds`. The difference counts a leap second that
/// one of the two lies in; the fraction of a second is dropped.
#[verifier::external_body]
fn seconds_between(later: (i64, u32), earlier: (i64, u32)) -> (secs: i64)
    requires
        names_instant(later.0 as int, later.1 as int),
        names_instant(earlier.0 as int, earlier.1 as int),
    ensures
        secs == truncated(
            (later.0 - earlier.0 + uncounted_leap_second(
                later.0 as int,
                later.1 as int,
                earlier.0 as int,
                earlier.1 as int,
            )) * 1_000_000_000 + later.1 - earlier.1,
            1_000_000_000,
        ),
{
    let later = chrono::DateTime::from_timestamp(later.0, later.1).unwrap();
    let earlier = chrono::DateTime::from_timestamp(earlier.0, earlier.1).unwrap();
    later.signed_duration_since(earlier).num_seconds()
}

fn divide_truncated(x: i64, d: i64) -> (q: i64)
    requires
        x > i64::MIN,
        d > 0,
    ensures
        q == truncated(x as int, d as int),
{
    if x >= 0 {
        x / d
    } else {
        -((-x) / d)
    }
}

/// Whole seconds from `earlier` to `later`.
pub fn seconds_elapsed(later: Timestamp, earlier: Timestamp) -> (secs: i64)
    ensures
        secs == elapsed_secs(later, earlier),
        -20_000_000_000_000 < secs < 20_000_000_000_000,
{
    proof {
        use_type_invariant(&later);
        use_type_invariant(&earlier);
    }
    seconds_between(
        (later.seconds, later.nanoseconds),
        (earlier.seconds, earlier.nanoseconds),
    )
}

/// Whole days from `earlier` to `later`.
pub fn days_elapsed(later: Timestamp, earlier: Timestamp) -> (days: i64)
    ensures
        days == elapsed_days(later, earlier),
{
    divide_truncated(seconds_elapsed(later, earlier), 86400)
}

/// Whole hours from `earlier` to `later`.
pub fn hours_elapsed(later: Timestamp, earlier: Timestamp) -> (hours: i64)
    ensures
        hours == elapsed_hours(later, earlier),
{
    divide_truncated(seconds_elapsed(later, earlier), 3600)
}

/// The patterns that instants are written by.
pub open spec fn is_time_pattern(pattern: Seq<char>) -> bool {
    ||| pattern == "%Y-%m-%d"@
    ||| pattern == "%Y-%m-%d %H:%M"@
    ||| pattern == "%Y-%m-%d %H:%M UTC"@
    ||| pattern == "%Y-%m-%d %H:%M:%S UTC"@
    ||| pattern == "%Y-%m-%dT%H:%M:%SZ"@
}

/// What chrono writes for the instant by a `strftime` pattern.
pub uninterp spec fn time_text(secs: int, nanos: int, pattern: Seq<char>) -> Seq<char>;

/// Writes an instant by a pattern: `chrono::DateTime::format`. What each pattern
/// gives is chrono's to say; the text depends on the instant and the pattern alone.
#[verifier::external_body]
fn write_time(secs: i64, nanos: u32, pattern: &str) -> (text: String)
    requires
        names_instant(secs as int, nanos as int),
        is_time_pattern(pattern@),
    ensures
        text@ == time_text(secs as int, nanos as int, pattern@),
{
    chrono::DateTime::from_timestamp(secs, nanos).unwrap().format(pattern).to_string()
}

impl Timestamp {
    /// The text of this instant by a pattern.
    pub open spec fn text_by(self, pattern: Seq<char>) -> Seq<char> {
        time_text(self.secs(), self.nanos(), pattern)
    }

    /// Writes this instant by one of the patterns that instants are written by.
    pub fn format(&self, pattern: &str) -> (text: String)
        requires
            is_time_pattern(pattern@),
        ensures
            text@ == self.text_by(pattern@),
    {
        proof {
            use_type_invariant(self);
        }
        write_time(self.seconds, self.nanoseconds, pattern)
    }
}

/// Instants outside leap seconds: as `now` moves on, the whole days that are left
/// until `end` do not grow.
pub proof fn days_left_never_grow(end: Timestamp, now: Timestamp, later: Timestamp)
    requires
        end.nanos() < 1_000_000_000,
        now.nanos() < 1_000_000_000,
        later.nanos() < 1_000_000_000,
        elapsed_nanos(later, now) >= 0,
    ensures
        elapsed_days(end, later) <= elapsed_days(end, now),
{
    let a = elapsed_nanos(end, now);
    let b = elapsed_nanos(end, later);
    assert(b <= a);
    assert(elapsed_secs(end, later) <= elapsed_secs(end, now));
}

/// An instant keeps the seconds and nanoseconds that it is made of.
pub proof fn instants_keep_their_parts(secs: int, nanos: int)
    requires
        names_instant(secs, nanos),
    ensures
        Timestamp::of(secs, nanos).secs() == secs,
        Timestamp::of(secs, nanos).nanos() == nanos,
{
}

/// Outside leap seconds, the time that has elapsed is told by the clock alone: one way
/// round it is the opposite of the other, and over two stretches it adds up.
pub proof fn elapsed_time_adds_up(first: Timestamp, second: Timestamp, third: Timestamp)
    requires
        first.nanos() < 1_000_000_000,
        second.nanos() < 1_000_000_000,
        third.nanos() < 1_000_000_000,
    ensures
        elapsed_nanos(third, first) == elapsed_nanos(third, second) + elapsed_nanos(second, first),
        elapsed_nanos(first, second) == -elapsed_nanos(second, first),
        elapsed_secs(first, second) == -elapsed_secs(second, first),
        elapsed_hours(first, second) == -elapsed_hours(second, first),
        elapsed_days(first, second) == -elapsed_days(second, first),
{
}

/// Outside leap seconds, an instant that comes after another by some whole days, and by
/// less than a day more, is that many days later; and so for hours and seconds.
pub proof fn whole_days_are_counted(later: Timestamp, earlier: Timestamp, days: nat, rest: nat)
    requires
        0 <= later.nanos() < 1_000_000_000,
        0 <= earlier.nanos() < 1_000_000_000,
        later.nanos() >= earlier.nanos(),
    ensures
        rest < 86400 && later.secs() == earlier.secs() + 86400 * days + rest ==> elapsed_days(
            later,
            earlier,
        ) == days,
        rest < 3600 && later.secs() == earlier.secs() + 3600 * days + rest ==> elapsed_hours(
            later,
            earlier,
        ) == days,
        later.secs() == earlier.secs() + days ==> elapsed_secs(later, earlier) == days,
{
    if later.secs() >= earlier.secs() {
        let between = later.secs() - earlier.secs();
        assert(elapsed_secs(later, earlier) == between);
    }
}

} // verus!
