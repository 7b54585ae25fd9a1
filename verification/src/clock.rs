//! Points in time and the seconds between them.

use vstd::prelude::*;

verus! {

/// First second that a timestamp can hold, counted from the Unix epoch.
pub const MIN_SECS: i64 = -8_334_601_228_800;

/// Last second that a timestamp can hold, counted from the Unix epoch.
pub const MAX_SECS: i64 = 8_210_266_876_799;

/// Whether seconds and nanoseconds name a point in time that the calendar covers.
pub open spec fn in_calendar(secs: int, nanos: int) -> bool {
    MIN_SECS <= secs <= MAX_SECS && 0 <= nanos < 1_000_000_000
}

/// Nanoseconds since the Unix epoch.
pub open spec fn instant_of(secs: int, nanos: int) -> int {
    secs * 1_000_000_000 + nanos
}

/// Whether the system clock can show an instant: one from the epoch on, within
/// the calendar.
pub open spec fn on_clock(instant: int) -> bool {
    0 <= instant <= instant_of(MAX_SECS as int, 999_999_999)
}

/// Whole seconds in a span of nanoseconds, cut off toward zero.
pub open spec fn whole_seconds(span: int) -> int {
    if span >= 0 {
        span / 1_000_000_000
    } else {
        -((-span) / 1_000_000_000)
    }
}

/// A signed 64-bit number read as an unsigned one: a negative number reads as a
/// very large one.
pub open spec fn unsigned_reading(n: int) -> int {
    if n < 0 {
        n + 0x1_0000_0000_0000_0000
    } else {
        n
    }
}

/// A point in UTC time, to the nanosecond. Its view is the number of
/// nanoseconds since the Unix epoch.
#[derive(Clone, Copy, Debug, PartialEq, Eq, PartialOrd, Ord)]
pub struct Timestamp {
    secs: i64,
    nanos: u32,
}

impl View for Timestamp {
    type V = int;

    closed spec fn view(&self) -> int {
        instant_of(self.secs as int, self.nanos as int)
    }
}

/// The system clock, read by `chrono::Utc::now` and taken apart into seconds
/// since the epoch (`DateTime::timestamp`) and nanoseconds into the second
/// (`DateTime::timestamp_subsec_nanos`). It differs from call to call. What is
/// claimed: the reading lies within chrono's calendar, is not before the epoch
/// and is in no leap second. A clock set before the epoch or beyond the calendar
/// makes `Utc::now` panic.
#[verifier::external_body]
fn read_clock() -> (r: (i64, u32))
    ensures
        in_calendar(r.0 as int, r.1 as int),
        r.0 >= 0,
{
    let now = chrono::Utc::now();
    (now.timestamp(), now.timestamp_subsec_nanos())
}

/// `DateTime::signed_duration_since` and `TimeDelta::num_seconds` on two points
/// given as seconds and nanoseconds (`DateTime::from_timestamp`). What is
/// claimed: the result is the distance in whole seconds, cut off toward zero.
#[verifier::external_body]
fn seconds_between(later_secs: i64, later_nanos: u32, earlier_secs: i64, earlier_nanos: u32) -> (r:
    i64)
    requires
        in_calendar(later_secs as int, later_nanos as int),
        in_calendar(earlier_secs as int, earlier_nanos as int),
    ensures
        r == whole_seconds(
            instant_of(later_secs as int, later_nanos as int) - instant_of(
                earlier_secs as int,
                earlier_nanos as int,
            ),
        ),
{
    let later = chrono::DateTime::from_timestamp(later_secs, later_nanos).unwrap();
    let earlier = chrono::DateTime::from_timestamp(earlier_secs, earlier_nanos).unwrap();
    later.signed_duration_since(earlier).num_seconds()
}

impl Timestamp {
    #[verifier::type_invariant]
    spec fn well_formed(self) -> bool {
        in_calendar(self.secs as int, self.nanos as int)
    }

    /// The present, by the system clock: a point from the Unix epoch on, within
    /// the calendar. Which point it is, and how it lies to an earlier reading, is
    /// up to the clock.
    pub fn now() -> (r: Timestamp)
        ensures
            on_clock(r@),
    {
        let (secs, nanos) = read_clock();
        Timestamp { secs, nanos }
    }

    /// The point `secs` seconds and `nanos` nanoseconds after the Unix epoch;
    /// `None` outside the calendar.
    pub fn from_unix(secs: i64, nanos: u32) -> (r: Option<Timestamp>)
        ensures
            in_calendar(secs as int, nanos as int) ==> r is Some && r->0@ == instant_of(
                secs as int,
                nanos as int,
            ),
            !in_calendar(secs as int, nanos as int) ==> r is None,
    {
        if MIN_SECS <= secs && secs <= MAX_SECS && nanos < 1_000_000_000 {
            Some(Timestamp { secs, nanos })
        } else {
            None
        }
    }

    /// Whole seconds from `earlier` to this point, cut off toward zero.
    pub fn seconds_since(&self, earlier: &Timestamp) -> (r: i64)
        ensures
            r == whole_seconds(self@ - earlier@),
    {
        proof {
            use_type_invariant(self);
            use_type_invariant(earlier);
        }
        seconds_between(self.secs, self.nanos, earlier.secs, earlier.nanos)
    }

    /// Whether at least `secs` seconds have passed since `earlier`. A negative
    /// distance of a second or more counts as a very long one.
    pub fn reached(&self, earlier: &Timestamp, secs: u64) -> (r: bool)
        ensures
            r == has_reached(self@, earlier@, secs),
    {
        as_unsigned(self.seconds_since(earlier)) >= secs
    }
}

/// Whether at least `secs` whole seconds lie between `earlier` and `now`, the
/// distance read as unsigned.
pub open spec fn has_reached(now: int, earlier: int, secs: u64) -> bool {
    unsigned_reading(whole_seconds(now - earlier)) >= secs
}

/// A signed number read as an unsigned one.
pub fn as_unsigned(n: i64) -> (r: u64)
    ensures
        r == unsigned_reading(n as int),
{
    if n >= 0 {
        n as u64
    } else {
        u64::MAX - ((-(n + 1)) as u64)
    }
}

/// While the clock does not run backwards, a deadline that has been reached
/// stays reached.
pub proof fn reached_stays_reached(earlier: int, now: int, later: int, secs: u64)
    requires
        earlier <= now <= later,
        has_reached(now, earlier, secs),
    ensures
        has_reached(later, earlier, secs),
{
    assert((now - earlier) / 1_000_000_000 <= (later - earlier) / 1_000_000_000);
}

/// A deadline of `secs` seconds after `earlier` has been reached exactly when at
/// least so many seconds, to the nanosecond, lie between. Where the clock stands
/// before `earlier`, less than a second counts as nothing, and more as nearly
/// 2 to the power of 64 seconds.
pub proof fn deadlines_are_exact(now: int, earlier: int, secs: u64)
    ensures
        earlier <= now ==> (has_reached(now, earlier, secs) <==> now - earlier >= secs
            * 1_000_000_000),
        0 < earlier - now < 1_000_000_000 ==> (has_reached(now, earlier, secs) <==> secs == 0),
        earlier - now >= 1_000_000_000 ==> (has_reached(now, earlier, secs) <==> secs <= 0x1_0000_0000_0000_0000
            - (earlier - now) / 1_000_000_000),
{
}

/// Whole seconds never exceed the span, fall short of it by less than a second,
/// and have its sign.
pub proof fn whole_seconds_are_cut_toward_zero(span: int)
    ensures
        span >= 0 ==> 0 <= span - whole_seconds(span) * 1_000_000_000 < 1_000_000_000,
        span >= 0 ==> whole_seconds(span) >= 0,
        whole_seconds(-span) == -whole_seconds(span),
{
}

/// A timestamp counts nanoseconds: a second more is a thousand million of them,
/// and the calendar runs from the year -262143 to the end of the year 262142.
pub proof fn instants_count_nanoseconds(secs: int, nanos: int)
    ensures
        instant_of(secs, nanos) == 1_000_000_000 * secs + nanos,
        in_calendar(secs, nanos) <==> -8_334_601_228_800 <= secs <= 8_210_266_876_799 && 0 <= nanos
            <= 999_999_999,
        on_clock(instant_of(secs, nanos)) && 0 <= nanos <= 999_999_999 ==> 0 <= secs
            <= 8_210_266_876_799,
        0 <= secs <= 8_210_266_876_799 && 0 <= nanos <= 999_999_999 ==> on_clock(
            instant_of(secs, nanos),
        ),
{
}

/// A signed 64-bit number and its unsigned reading differ by nothing or by 2 to the
/// power of 64, and the reading is never negative.
pub proof fn unsigned_readings_wrap(n: i64)
    ensures
        0 <= unsigned_reading(n as int) <= u64::MAX,
        unsigned_reading(n as int) == n || unsigned_reading(n as int) == n
            + 0x1_0000_0000_0000_0000,
{
}

/// At a point no earlier than another, so many seconds have passed since it exactly
/// when it is that far behind.
pub proof fn seconds_pass_exactly(
    now: &Timestamp,
    earlier: &Timestamp,
    secs: u64,
    r: bool,
    since: i64,
)
    requires
        call_ensures(Timestamp::reached, (now, earlier, secs), r),
        call_ensures(Timestamp::seconds_since, (now, earlier), since),
        earlier@ <= now@,
    ensures
        r <==> now@ - earlier@ >= secs * 1_000_000_000,
        since * 1_000_000_000 <= now@ - earlier@ < (since + 1) * 1_000_000_000,
{
    deadlines_are_exact(now@, earlier@, secs);
    whole_seconds_are_cut_toward_zero(now@ - earlier@);
}

/// A point is made of its seconds and nanoseconds where there are less than a second of
/// these and the calendar holds it.
pub proof fn points_are_made_of_seconds_and_nanoseconds(secs: i64, nanos: u32, r: Option<Timestamp>)
    requires
        call_ensures(Timestamp::from_unix, (secs, nanos), r),
    ensures
        0 <= secs <= 8_210_266_876_799 && nanos < 1_000_000_000 ==> r is Some,
        nanos >= 1_000_000_000 ==> r is None,
        r is Some ==> r->0@ == secs * 1_000_000_000 + nanos,
{
}

} // verus!
