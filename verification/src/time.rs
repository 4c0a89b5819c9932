//! Instants as the records carry them.
use chrono::Timelike;
use vstd::prelude::*;

verus! {

/// The first second of the calendar that instants are drawn from.
pub const MIN_SECONDS: i64 = -8_334_601_228_800;

/// The last second of the calendar that instants are drawn from.
pub const MAX_SECONDS: i64 = 8_210_266_876_799;

/// Nanoseconds in a second.
pub const NANOS_PER_SECOND: u32 = 1_000_000_000;

/// Seconds in a day.
pub const SECONDS_PER_DAY: i64 = 86_400;

/// An instant on the UTC time line, to the nanosecond, leap seconds among them.
///
/// An instant is a whole second since the start of 1970 and the nanoseconds since that second began;
/// from a thousand million of these on it lies in a leap second that follows the second. Its view is
/// its place on the time line, see [`place`].
#[derive(Debug, Clone, Copy, PartialEq, Eq, Structural)]
pub struct Timestamp {
    secs: i64,
    nanos: u32,
}

impl View for Timestamp {
    type V = int;

    closed spec fn view(&self) -> int {
        place(self.secs as int, self.nanos as int)
    }
}

/// Whether an instant of the calendar lies `nanos` nanoseconds after the beginning of the second
/// `secs` since the start of 1970.
pub open spec fn on_calendar(secs: int, nanos: int) -> bool {
    MIN_SECONDS <= secs <= MAX_SECONDS && 0 <= nanos < 2_000_000_000
}

/// The place of an instant on the time line, on which every second leaves room for a leap second
/// after it: a later instant has a higher place.
pub open spec fn place(secs: int, nanos: int) -> int {
    secs * 2_000_000_000 + nanos
}

/// The second of the instant at a place, since the start of 1970.
pub open spec fn second_at(place: int) -> int {
    place / 2_000_000_000
}

/// The nanoseconds since the second of the instant at a place began.
pub open spec fn nanos_at(place: int) -> int {
    place % 2_000_000_000
}

/// Whether the instant at a place lies in a leap second.
pub open spec fn in_leap_second(place: int) -> bool {
    nanos_at(place) >= 1_000_000_000
}

/// The leap seconds that a span between two instants has to be lengthened by. Only one that the
/// instant with the smaller time of day lies in counts: for the span when that is its start, against
/// it when that is its end.
pub open spec fn leap_seconds_between(start: int, end: int) -> int {
    let start_time = second_at(start) % 86_400;
    let end_time = second_at(end) % 86_400;
    if start_time < end_time && in_leap_second(start) {
        1
    } else if end_time < start_time && in_leap_second(end) {
        -1
    } else {
        0
    }
}

/// The nanoseconds from the instant at one place to that at another; negative when `end` is the
/// earlier one.
pub open spec fn nanos_between(start: int, end: int) -> int {
    (second_at(end) - second_at(start) + leap_seconds_between(start, end)) * 1_000_000_000
        + nanos_at(end) - nanos_at(start)
}

/// The place `days` days before a place. One in a leap second counts as the same time in the second
/// after it.
pub open spec fn days_earlier(place: int, days: int) -> int {
    place - days * 86_400 * 2_000_000_000 + if days > 0 && in_leap_second(place) {
        1_000_000_000int
    } else {
        0
    }
}

/// Whole milliseconds in a span of nanoseconds, the fraction dropped.
pub open spec fn whole_millis(nanos: int) -> int {
    if nanos >= 0 {
        nanos / 1_000_000
    } else {
        -((-nanos) / 1_000_000)
    }
}

/// Whether the instant `days` days before `t` is still on the calendar.
pub open spec fn reaches_back(t: Timestamp, days: int) -> bool {
    days_earlier(t@, days) >= place(MIN_SECONDS as int, 0)
}

/// The wall clock, as seconds and nanoseconds since the start of 1970.
///
/// Calls `chrono::Utc::now`, which measures from the start of 1970 and gives an instant of the
/// calendar that lies in no leap second. Which instant comes back is left open.
#[verifier::external_body]
fn clock() -> (r: (i64, u32))
    ensures
        on_calendar(r.0 as int, r.1 as int),
        r.0 >= 0,
        r.1 < 1_000_000_000,
{
    let now = chrono::Utc::now();
    (now.timestamp(), now.timestamp_subsec_nanos())
}

/// Whole milliseconds from one instant to another, the fraction dropped.
///
/// Calls `chrono::DateTime::signed_duration_since` and `chrono::TimeDelta::num_milliseconds` on
/// two instants of the calendar. Of a leap second that an instant lies in, `chrono` counts the
/// second that passes up to the other instant when the latter has the greater time of day.
#[verifier::external_body]
fn millis_between(start_secs: i64, start_nanos: u32, end_secs: i64, end_nanos: u32) -> (r: i64)
    requires
        on_calendar(start_secs as int, start_nanos as int),
        on_calendar(end_secs as int, end_nanos as int),
    ensures
        r == whole_millis(
            nanos_between(
                place(start_secs as int, start_nanos as int),
                place(end_secs as int, end_nanos as int),
            ),
        ),
{
    let start = chrono::DateTime::from_timestamp(start_secs, 0).unwrap().naive_utc();
    let start = start.with_nanosecond(start_nanos).unwrap().and_utc();
    let end = chrono::DateTime::from_timestamp(end_secs, 0).unwrap().naive_utc();
    let end = end.with_nanosecond(end_nanos).unwrap().and_utc();
    end.signed_duration_since(start).num_milliseconds()
}

/// The instant a number of days earlier.
///
/// Calls `chrono`'s subtraction of `chrono::Duration::days` from a `DateTime<Utc>`: the time of
/// day stays, the date moves back by whole days. From within a leap second it starts at the same
/// time in the second after it.
#[verifier::external_body]
fn minus_days(secs: i64, nanos: u32, days: u32) -> (r: (i64, u32))
    requires
        on_calendar(secs as int, nanos as int),
        days_earlier(place(secs as int, nanos as int), days as int) >= place(
            MIN_SECONDS as int,
            0,
        ),
    ensures
        on_calendar(r.0 as int, r.1 as int),
        place(r.0 as int, r.1 as int) == days_earlier(
            place(secs as int, nanos as int),
            days as int,
        ),
{
    let at = chrono::DateTime::from_timestamp(secs, 0).unwrap().naive_utc();
    let at = at.with_nanosecond(nanos).unwrap().and_utc();
    let earlier = at - chrono::Duration::days(i64::from(days));
    (earlier.timestamp(), earlier.timestamp_subsec_nanos())
}

impl Timestamp {
    #[verifier::type_invariant]
    spec fn valid(self) -> bool {
        on_calendar(self.secs as int, self.nanos as int)
    }

    /// The instant `nanos` nanoseconds after the beginning of the second `secs` since the start of
    /// 1970, when it is on the calendar.
    pub fn new(secs: i64, nanos: u32) -> (r: Option<Timestamp>)
        ensures
            r is Some <==> on_calendar(secs as int, nanos as int),
            r matches Some(t) ==> t@ == place(secs as int, nanos as int),
    {
        if MIN_SECONDS <= secs && secs <= MAX_SECONDS && nanos < 2 * NANOS_PER_SECOND {
            Some(Timestamp { secs, nanos })
        } else {
            None
        }
    }

    /// The start of 1970.
    pub fn epoch() -> (r: Timestamp)
        ensures
            r@ == 0,
    {
        Timestamp { secs: 0, nanos: 0 }
    }

    /// The present.
    pub fn now() -> (r: Timestamp)
        ensures
            r@ >= 0,
            !in_leap_second(r@),
    {
        let (secs, nanos) = clock();
        Timestamp { secs, nanos }
    }

    /// Whole seconds since the start of 1970.
    pub fn seconds(self) -> (r: i64)
        ensures
            r == second_at(self@),
    {
        proof {
            use_type_invariant(&self);
        }
        self.secs
    }

    /// Nanoseconds since the second began; a thousand million or more in a leap second.
    pub fn subsec_nanos(self) -> (r: u32)
        ensures
            r == nanos_at(self@),
    {
        proof {
            use_type_invariant(&self);
        }
        self.nanos
    }

    /// Tests whether this instant is no later than `other`.
    pub fn at_or_before(self, other: Timestamp) -> (r: bool)
        ensures
            r == (self@ <= other@),
    {
        proof {
            use_type_invariant(&self);
            use_type_invariant(&other);
        }
        self.secs < other.secs || (self.secs == other.secs && self.nanos <= other.nanos)
    }

    /// Whole milliseconds from this instant to `end`; negative when `end` is earlier.
    pub fn millis_until(self, end: Timestamp) -> (r: i64)
        ensures
            r == whole_millis(nanos_between(self@, end@)),
    {
        proof {
            use_type_invariant(&self);
            use_type_invariant(&end);
        }
        millis_between(self.secs, self.nanos, end.secs, end.nanos)
    }

    /// Tests whether the instant `days` days earlier is on the calendar.
    pub fn reaches_days_back(self, days: u32) -> (r: bool)
        ensures
            r == reaches_back(self, days as int),
    {
        proof {
            use_type_invariant(&self);
        }
        let from: i64 = if days > 0 && self.nanos >= NANOS_PER_SECOND {
            self.secs + 1
        } else {
            self.secs
        };
        from - days as i64 * SECONDS_PER_DAY >= MIN_SECONDS
    }

    /// The instant `days` days earlier.
    pub fn days_before(self, days: u32) -> (r: Timestamp)
        requires
            reaches_back(self, days as int),
        ensures
            r@ == days_earlier(self@, days as int),
    {
        proof {
            use_type_invariant(&self);
        }
        let (secs, nanos) = minus_days(self.secs, self.nanos, days);
        Timestamp { secs, nanos }
    }
}

/// Outside of leap seconds, time passes as on a clock: between two instants lie the seconds and the
/// nanoseconds between them, and a day takes twenty-four hours.
pub proof fn law_time_passes_as_on_a_clock(
    secs: int,
    nanos: int,
    end_secs: int,
    end_nanos: int,
    days: int,
)
    requires
        0 <= nanos < 1_000_000_000,
        0 <= end_nanos < 1_000_000_000,
    ensures
        nanos_between(place(secs, nanos), place(end_secs, end_nanos)) == (end_secs - secs)
            * 1_000_000_000 + end_nanos - nanos,
        days_earlier(place(secs, nanos), days) == place(secs - days * 24 * 60 * 60, nanos),
        place(secs, nanos) <= place(end_secs, end_nanos) <==> secs < end_secs || (secs == end_secs
            && nanos <= end_nanos),
{
    let (a, b) = (place(secs, nanos), place(end_secs, end_nanos));
    assert(second_at(a) == secs && nanos_at(a) == nanos);
    assert(second_at(b) == end_secs && nanos_at(b) == end_nanos);
}

/// A span of time counts the milliseconds that passed whole, backwards as forwards.
pub proof fn law_whole_millis_pass(nanos: int)
    ensures
        nanos >= 0 ==> whole_millis(nanos) * 1_000_000 <= nanos < (whole_millis(nanos) + 1)
            * 1_000_000,
        whole_millis(-nanos) == -whole_millis(nanos),
{
}

} // verus!
