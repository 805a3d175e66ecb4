//! Instants in UTC.
use vstd::prelude::*;
use chrono::{DateTime, TimeDelta, Utc};

verus! {

/// The first second that a date can be formed of: midnight of January 1st, -262143.
pub const FIRST_SECOND: i64 = -8_334_601_228_800;

/// The last second that a date can be formed of: 23:59:59 of December 31st, 262142.
pub const LAST_SECOND: i64 = 8_210_266_876_799;

/// `secs` since the beginning of 1970 and `nanos` beyond it name an instant. A
/// leap second is written as the second before it, with a billion added to `nanos`.
pub open spec fn is_instant(secs: int, nanos: int) -> bool {
    &&& FIRST_SECOND <= secs <= LAST_SECOND
    &&& 0 <= nanos < 2_000_000_000
    &&& nanos >= 1_000_000_000 ==> secs % 60 == 59
}

/// An instant in UTC.
#[derive(Clone, Copy, Debug, PartialEq, Eq)]
pub struct Timestamp {
    secs: i64,
    nanos: u32,
}

impl View for Timestamp {
    type V = (i64, u32);

    closed spec fn view(&self) -> (i64, u32) {
        (self.secs, self.nanos)
    }
}

/// The clock showed `t`.
pub closed spec fn shown_by_clock(t: Timestamp) -> bool {
    call_ensures(utc_now, (), t@)
}

/// An instant counts as shown only if the clock gave it.
proof fn readings_are_of_the_clock(t: Timestamp)
    ensures
        shown_by_clock(t) <==> call_ensures(utc_now, (), t@),
        shown_by_clock(t) ==> is_instant(t@.0 as int, t@.1 as int),
{
}

/// `t` is an instant that the clock showed: not before 1970, and no leap second.
pub open spec fn from_clock(t: Timestamp) -> bool {
    &&& shown_by_clock(t)
    &&& is_instant(t@.0 as int, t@.1 as int)
    &&& 0 <= t@.0
    &&& t@.1 < 1_000_000_000
}

/// `chrono::Utc::now`, as seconds since the beginning of 1970 and nanoseconds
/// within the second. Nothing is said of which instant it is; it is not before
/// 1970, it can be represented, and it is no leap second.
#[verifier::external_body]
fn utc_now() -> (r: (i64, u32))
    ensures
        is_instant(r.0 as int, r.1 as int),
        0 <= r.0,
        r.1 < 1_000_000_000,
{
    let now = Utc::now();
    (now.timestamp(), now.timestamp_subsec_nanos())
}

/// `chrono::DateTime::<Utc>::checked_add_signed` with a whole number of minutes:
/// the seconds go up by sixty for each, a leap second falls back to the ordinary
/// second it is written as, and there is a result as long as it can be represented.
#[verifier::external_body]
fn utc_after_minutes(secs: i64, nanos: u32, minutes: i64) -> (r: Option<(i64, u32)>)
    requires
        is_instant(secs as int, nanos as int),
        0 < minutes <= 0xffff_ffff,
    ensures
        r is Some <==> secs + 60 * minutes <= LAST_SECOND,
        r matches Some(t) ==> t.0 == secs + 60 * minutes && t.1 == nanos % 1_000_000_000,
{
    let later = DateTime::from_timestamp(secs, nanos)?.checked_add_signed(TimeDelta::minutes(minutes))?;
    Some((later.timestamp(), later.timestamp_subsec_nanos()))
}

/// How status reports show an instant.
pub const REPORT_FORMAT: &'static str = "%Y-%m-%d %H:%M:%S UTC";

/// What `chrono::DateTime::<Utc>::format` makes of an instant, given as seconds
/// and nanoseconds, and a pattern.
pub uninterp spec fn formatted_instant(secs: i64, nanos: u32, pattern: Seq<char>) -> Seq<char>;

/// `chrono::DateTime::<Utc>::format`. The text is fixed by the instant and the
/// pattern alone.
#[verifier::external_body]
fn format_utc(secs: i64, nanos: u32, pattern: &str) -> (r: String)
    requires
        is_instant(secs as int, nanos as int),
        pattern@ == REPORT_FORMAT@,
    ensures
        r@ == formatted_instant(secs, nanos, pattern@),
{
    DateTime::from_timestamp(secs, nanos).unwrap().format(pattern).to_string()
}

impl Timestamp {
    #[verifier::type_invariant]
    spec fn in_range(self) -> bool {
        is_instant(self.secs as int, self.nanos as int)
    }

    /// The instant `secs` after the beginning of 1970 and `nanos` beyond that, if
    /// it can be represented.
    pub fn new(secs: i64, nanos: u32) -> (r: Option<Timestamp>)
        ensures
            r is Some <==> is_instant(secs as int, nanos as int),
            r matches Some(t) ==> t@ == (secs, nanos),
    {
        if secs < FIRST_SECOND || secs > LAST_SECOND || nanos >= 2_000_000_000 {
            return None;
        }
        if nanos >= 1_000_000_000 {
            let from_first: i64 = secs - FIRST_SECOND;
            if from_first % 60 != 59 {
                return None;
            }
        }
        Some(Timestamp { secs, nanos })
    }

    /// The present instant. Which one it is rests on the clock.
    pub fn now() -> (r: Timestamp)
        ensures
            from_clock(r),
    {
        let (secs, nanos): (i64, u32) = utc_now();
        Timestamp { secs, nanos }
    }

    /// Seconds since the beginning of 1970.
    pub fn secs(&self) -> (r: i64)
        ensures
            r == self@.0,
    {
        self.secs
    }

    /// Nanoseconds beyond the second.
    pub fn nanos(&self) -> (r: u32)
        ensures
            r == self@.1,
    {
        self.nanos
    }

    /// The instant that many minutes later, if it can be represented.
    pub fn after_minutes(&self, minutes: u32) -> (r: Option<Timestamp>)
        requires
            minutes > 0,
        ensures
            r is Some <==> self@.0 + 60 * minutes <= LAST_SECOND,
            r matches Some(t) ==> t@.0 == self@.0 + 60 * minutes && t@.1 == self@.1
                % 1_000_000_000,
    {
        proof {
            use_type_invariant(self);
        }
        match utc_after_minutes(self.secs, self.nanos, minutes as i64) {
            Some((secs, nanos)) => Some(Timestamp { secs, nanos }),
            None => None,
        }
    }

    /// The instant as status reports show it.
    pub fn report_text(&self) -> (r: String)
        ensures
            r@ == formatted_instant(self@.0, self@.1, REPORT_FORMAT@),
    {
        proof {
            use_type_invariant(self);
        }
        format_utc(self.secs, self.nanos, REPORT_FORMAT)
    }
}

/// Instants reach from the first second of the year -262143 to the last of the year
/// 262142. Nanoseconds beyond a billion belong to a leap second, which only the last
/// second of a minute can be followed by. An instant that the clock showed is one of
/// them.
pub proof fn range_of_instants(secs: int, nanos: int, t: Timestamp)
    ensures
        is_instant(secs, nanos) <==> {
            &&& -8_334_601_228_800 <= secs <= 8_210_266_876_799
            &&& 0 <= nanos
            &&& nanos < 1_000_000_000 || (nanos < 2_000_000_000 && secs % 60 == 59)
        },
        from_clock(t) <==> shown_by_clock(t),
        from_clock(t) ==> is_instant(t@.0 as int, t@.1 as int) && 0 <= t@.0 && t@.1
            < 1_000_000_000,
        REPORT_FORMAT@ == "%Y-%m-%d %H:%M:%S UTC"@,
{
    readings_are_of_the_clock(t);
}

} // verus!
