//! Points in time with a fixed UTC offset, held as plain integers.
//! Parsing and formatting go through `chrono`.
use vstd::prelude::*;
use chrono::{DateTime, FixedOffset, NaiveDate, SecondsFormat, Utc, Local};

verus! {

/// Earliest seconds since the epoch a timestamp may have: one day after the first instant
/// `chrono` can hold (`-262143-01-01T00:00:00Z`), so that the time shown at any offset of less
/// than a day is still a date `chrono` can write (`to_rfc3339_opts` panics on a local time
/// outside its range).
pub const MIN_SECS: i64 = -8_334_601_228_800;

/// Latest seconds since the epoch a timestamp may have: one day before the last instant
/// `chrono` can hold (`262142-12-31T23:59:59Z`), for the same reason. Every timestamp is written
/// as RFC 3339 on the site's pages, at its own offset; without this margin a time on chrono's
/// first or last day would make that write panic. Such a time is refused instead:
/// [`Timestamp::parse_rfc3339`] and [`Timestamp::from_parts`] give none for it.
pub const MAX_SECS: i64 = 8_210_266_790_399;

/// The parts `chrono::DateTime::from_timestamp` accepts, within the bounds above: the
/// sub-second part runs up to two seconds only inside a leap second, that is when the second
/// of the minute (in UTC) is the 59th; offsets are strictly less than a day in magnitude.
pub open spec fn parts_valid(secs: int, nanos: int, offset: int) -> bool {
    &&& MIN_SECS <= secs <= MAX_SECS
    &&& 0 <= nanos < 2_000_000_000
    &&& nanos >= 1_000_000_000 ==> secs % 60 == 59
    &&& -86_400 < offset < 86_400
}

/// Mathematical content of a [`Timestamp`].
pub struct TimeV {
    pub secs: int,
    pub nanos: int,
    pub offset: int,
}

impl TimeV {
    /// What orders two instants as `chrono` orders them: the seconds first, then the
    /// sub-second part (which passes one second only inside a leap second).
    pub open spec fn instant(self) -> int {
        self.secs * 2_000_000_000 + self.nanos
    }
}

/// The `TimeV` for parts, when they are valid.
pub open spec fn time_from_parts(secs: int, nanos: int, offset: int) -> Option<TimeV> {
    if parts_valid(secs, nanos, offset) {
        Some(TimeV { secs, nanos, offset })
    } else {
        None
    }
}

/// The second of the minute (in UTC) of seconds since the epoch within the bounds.
fn second_of_minute(secs: i64) -> (r: u64)
    requires
        MIN_SECS <= secs <= MAX_SECS,
    ensures
        r == secs % 60,
{
    let shifted = (secs - MIN_SECS) as u64;
    proof {
        vstd::arithmetic::div_mod::lemma_mod_multiples_vanish(138_910_020_480, secs as int, 60);
        assert(60 * 138_910_020_480 + secs == secs - MIN_SECS);
    }
    shifted % 60
}

/// An instant (seconds and nanoseconds since the Unix epoch, UTC) with the UTC offset
/// it is shown in.
#[derive(Debug, Clone, Copy)]
pub struct Timestamp {
    secs: i64,
    nanos: u32,
    offset: i32,
}

impl View for Timestamp {
    type V = TimeV;

    closed spec fn view(&self) -> TimeV {
        TimeV { secs: self.secs as int, nanos: self.nanos as int, offset: self.offset as int }
    }
}

impl Timestamp {
    #[verifier::type_invariant]
    spec fn inv(self) -> bool {
        parts_valid(self.secs as int, self.nanos as int, self.offset as int)
    }

    /// The timestamp written as RFC 3339 at its own offset, as `chrono` writes it.
    pub fn to_rfc3339(&self) -> (r: String)
        ensures
            r@ == rfc3339_text(self@),
    {
        format_rfc3339(self)
    }

    /// The timestamp with these parts, when they are valid.
    pub fn from_parts(secs: i64, nanos: u32, offset: i32) -> (r: Option<Timestamp>)
        ensures
            r matches Some(t) ==> time_from_parts(secs as int, nanos as int, offset as int)
                == Some(t@),
            r is None ==> time_from_parts(secs as int, nanos as int, offset as int) is None,
    {
        if MIN_SECS <= secs && secs <= MAX_SECS && nanos < 2_000_000_000 && -86_400 < offset
            && offset < 86_400 && (nanos < 1_000_000_000 || second_of_minute(secs) == 59) {
            Some(Timestamp { secs, nanos, offset })
        } else {
            None
        }
    }

    /// The timestamp with these valid parts.
    pub fn from_valid_parts(secs: i64, nanos: u32, offset: i32) -> (r: Timestamp)
        requires
            parts_valid(secs as int, nanos as int, offset as int),
        ensures
            r@ == (TimeV { secs: secs as int, nanos: nanos as int, offset: offset as int }),
    {
        Timestamp { secs, nanos, offset }
    }

    pub fn secs(&self) -> (r: i64)
        ensures
            r == self@.secs,
    {
        self.secs
    }

    pub fn nanos(&self) -> (r: u32)
        ensures
            r == self@.nanos,
    {
        self.nanos
    }

    pub fn offset(&self) -> (r: i32)
        ensures
            r == self@.offset,
    {
        self.offset
    }

    /// `self` is a strictly later instant than `other` (offsets play no part).
    pub fn is_after(&self, other: &Timestamp) -> (r: bool)
        ensures
            r == (self@.instant() > other@.instant()),
    {
        proof {
            use_type_invariant(self);
            use_type_invariant(other);
        }
        self.secs > other.secs || (self.secs == other.secs && self.nanos > other.nanos)
    }

    /// `self` and `other` are the same instant (offsets play no part), as `==` on
    /// `chrono::DateTime` compares them.
    pub fn same_instant(&self, other: &Timestamp) -> (r: bool)
        ensures
            r == (self@.instant() == other@.instant()),
    {
        proof {
            use_type_invariant(self);
            use_type_invariant(other);
        }
        self.secs == other.secs && self.nanos == other.nanos
    }

    /// Parses an RFC 3339 date-time.
    pub fn parse_rfc3339(text: &str) -> (r: Option<Timestamp>)
        ensures
            r matches Some(t) ==> rfc3339_parsed(text@) matches Some(p) && time_from_parts(
                p.0 as int,
                p.1 as int,
                p.2 as int,
            ) == Some(t@),
            r is None ==> (rfc3339_parsed(text@) matches Some(p) ==> time_from_parts(
                p.0 as int,
                p.1 as int,
                p.2 as int,
            ) is None),
    {
        match chrono_parse_rfc3339(text) {
            Some((s, n, o)) => Timestamp::from_parts(s, n, o),
            None => None,
        }
    }
}

/// What `chrono::DateTime::parse_from_rfc3339` gives for a text: seconds since the epoch,
/// sub-second nanoseconds and offset in seconds east of UTC.
pub uninterp spec fn rfc3339_parsed(text: Seq<char>) -> Option<(i64, u32, i32)>;

/// What `chrono::NaiveDate::parse_from_str(text, "%Y-%m-%d")` gives, as the seconds since the
/// epoch of that day's midnight, UTC.
pub uninterp spec fn ymd_midnight_parsed(text: Seq<char>) -> Option<i64>;

/// `chrono::DateTime::to_rfc3339` of the instant shown at its offset.
pub uninterp spec fn rfc3339_text(t: TimeV) -> Seq<char>;

/// `chrono::DateTime::to_rfc3339_opts(SecondsFormat::Secs, false)` of the instant.
pub uninterp spec fn rfc3339_secs_text(t: TimeV) -> Seq<char>;

/// `chrono::DateTime::format("%Y-%m-%d")` of the instant at its offset.
pub uninterp spec fn ymd_text(t: TimeV) -> Seq<char>;

/// Calls `chrono::DateTime::parse_from_rfc3339`; the result is that value's seconds,
/// sub-second nanoseconds and offset. The contract names the result only.
#[verifier::external_body]
pub(crate) fn chrono_parse_rfc3339(text: &str) -> (r: Option<(i64, u32, i32)>)
    ensures
        r == rfc3339_parsed(text@),
{
    DateTime::parse_from_rfc3339(text).ok().map(
        |d| (d.timestamp(), d.timestamp_subsec_nanos(), d.offset().local_minus_utc()),
    )
}

/// Calls `chrono::NaiveDate::parse_from_str` with `"%Y-%m-%d"`; the result is the epoch seconds
/// of that date at 00:00:00 UTC. The contract names the result only.
#[verifier::external_body]
pub(crate) fn chrono_parse_ymd_midnight(text: &str) -> (r: Option<i64>)
    ensures
        r == ymd_midnight_parsed(text@),
{
    NaiveDate::parse_from_str(text, "%Y-%m-%d").ok().and_then(
        |d| d.and_hms_opt(0, 0, 0).map(|dt| dt.and_utc().timestamp()),
    )
}

/// Calls `chrono::DateTime::to_rfc3339` on the timestamp; the contract names the result only.
#[verifier::external_body]
pub(crate) fn format_rfc3339(t: &Timestamp) -> (r: String)
    ensures
        r@ == rfc3339_text(t@),
{
    let offset = FixedOffset::east_opt(t.offset).unwrap();
    DateTime::from_timestamp(t.secs, t.nanos).unwrap().with_timezone(&offset).to_rfc3339()
}

/// Calls `chrono::DateTime::to_rfc3339_opts(SecondsFormat::Secs, false)`; the contract names
/// the result only.
#[verifier::external_body]
pub(crate) fn format_rfc3339_seconds(t: &Timestamp) -> (r: String)
    ensures
        r@ == rfc3339_secs_text(t@),
{
    let offset = FixedOffset::east_opt(t.offset).unwrap();
    DateTime::from_timestamp(t.secs, t.nanos).unwrap().with_timezone(&offset).to_rfc3339_opts(
        SecondsFormat::Secs,
        false,
    )
}

/// Calls `chrono::DateTime::format("%Y-%m-%d")`; the contract names the result only.
#[verifier::external_body]
pub(crate) fn format_ymd(t: &Timestamp) -> (r: String)
    ensures
        r@ == ymd_text(t@),
{
    let offset = FixedOffset::east_opt(t.offset).unwrap();
    DateTime::from_timestamp(t.secs, t.nanos).unwrap().with_timezone(&offset).format(
        "%Y-%m-%d",
    ).to_string()
}

/// Calls `chrono` to show the instant in the machine's local time zone as `"%-d %B %Y"`.
/// What it returns depends on that time zone, so nothing is stated of it.
#[verifier::external_body]
pub(crate) fn human_time(t: &Timestamp) -> String {
    let offset = FixedOffset::east_opt(t.offset).unwrap();
    DateTime::from_timestamp(t.secs, t.nanos).unwrap().with_timezone(&offset).with_timezone(
        &Local,
    ).format("%-d %B %Y").to_string()
}

/// Calls `chrono::Utc::now`; the current time, read from the clock, at offset zero.
/// Only the offset is stated.
#[verifier::external_body]
pub(crate) fn now_utc() -> (r: Timestamp)
    ensures
        r@.offset == 0,
{
    let now = Utc::now();
    Timestamp { secs: now.timestamp(), nanos: now.timestamp_subsec_nanos(), offset: 0 }
}

} // verus!
