//! Points in time, kept as nanoseconds from the start of 1970 in UTC.

use vstd::prelude::*;
use vstd::string::*;

use crate::text;

verus! {

pub const NANOS_PER_SECOND: i128 = 1_000_000_000;

pub const NANOS_PER_HOUR: i128 = 3_600_000_000_000;

pub const NANOS_PER_DAY: i128 = 86_400_000_000_000;

/// The start of the year -9999.
pub const FIRST_NANO: i128 = -377_705_116_800_000_000_000;

/// The last nanosecond of the year 9999.
pub const LAST_NANO: i128 = 253_402_300_799_999_999_999;

/// A date and a time of day.
#[derive(Debug, Clone, Copy, PartialEq, Eq, Structural)]
pub struct Timestamp {
    pub nanos: i128,
}

/// The number stands for a date between the years -9999 and 9999.
pub open spec fn in_range(nanos: int) -> bool {
    FIRST_NANO <= nanos <= LAST_NANO
}

/// The local date and time that an RFC 3339 text gives, and the seconds of
/// its offset.
pub uninterp spec fn rfc3339_parts(s: Seq<char>) -> Option<(i128, i32)>;

/// `time::OffsetDateTime::parse` with `Rfc3339`: claims that the outcome
/// depends on the text alone and that the local date is one of those that the
/// crate holds.
#[verifier::external_body]
fn parse_rfc3339_parts(s: &str) -> (r: Option<(i128, i32)>)
    ensures
        r == rfc3339_parts(s@),
        r matches Some((n, _)) ==> in_range(n as int),
{
    let parsed =
        time::OffsetDateTime::parse(s, &time::format_description::well_known::Rfc3339).ok();
    parsed.map(|t| {
        let local = time::PrimitiveDateTime::new(t.date(), t.time());
        (local.assume_utc().unix_timestamp_nanos(), t.offset().whole_seconds())
    })
}

/// The date and time that an RFC 3339 text gives, its offset left out.
pub open spec fn rfc3339_value(s: Seq<char>) -> Option<i128> {
    match rfc3339_parts(s) {
        Some((nanos, _)) => Some(nanos),
        None => None,
    }
}

/// Reads an RFC 3339 text; its offset is left out.
pub(crate) fn read_rfc3339(s: &str) -> (r: Option<i128>)
    ensures
        r == rfc3339_value(s@),
        r matches Some(n) ==> in_range(n as int),
{
    match parse_rfc3339_parts(s) {
        Some((nanos, _)) => Some(nanos),
        None => None,
    }
}

/// The RFC 3339 text of a point in time in UTC, where it has one.
pub uninterp spec fn rfc3339_text(nanos: i128) -> Option<Seq<char>>;

/// `time::OffsetDateTime::format` with `Rfc3339`: claims that the text
/// depends on the point in time alone.
#[verifier::external_body]
pub(crate) fn write_rfc3339(nanos: i128) -> (r: Option<String>)
    ensures
        text::opt_view(r) == rfc3339_text(nanos),
{
    let t = time::OffsetDateTime::from_unix_timestamp_nanos(nanos).ok()?;
    t.format(&time::format_description::well_known::Rfc3339).ok()
}

/// The text of a point in time by a format description, where it has one.
pub uninterp spec fn described(nanos: i128, description: Seq<char>) -> Option<Seq<char>>;

/// `time::PrimitiveDateTime::format` with a format description: claims that
/// the text depends on the point in time and the description alone.
#[verifier::external_body]
pub(crate) fn describe(nanos: i128, description: &str) -> (r: Option<String>)
    ensures
        text::opt_view(r) == described(nanos, description@),
{
    let t = time::OffsetDateTime::from_unix_timestamp_nanos(nanos).ok()?;
    let items = time::format_description::parse_borrowed::<1>(description).ok()?;
    time::PrimitiveDateTime::new(t.date(), t.time()).format(&items).ok()
}

/// The display text of a point in time in UTC, where it has one.
pub uninterp spec fn display_text(nanos: i128) -> Option<Seq<char>>;

/// The `Display` of `time::OffsetDateTime`: claims that the text depends on
/// the point in time alone.
#[verifier::external_body]
pub(crate) fn display(nanos: i128) -> (r: Option<String>)
    ensures
        text::opt_view(r) == display_text(nanos),
{
    let t = time::OffsetDateTime::from_unix_timestamp_nanos(nanos).ok()?;
    Some(t.to_string())
}

/// `time::OffsetDateTime::now_utc`: claims only that the reading is one of
/// the dates that the crate holds.
#[verifier::external_body]
fn clock() -> (r: i128)
    ensures
        in_range(r as int),
{
    time::OffsetDateTime::now_utc().unix_timestamp_nanos()
}

impl Timestamp {
    /// The date is one of those between the years -9999 and 9999.
    pub open spec fn valid(self) -> bool {
        in_range(self.nanos as int)
    }

    /// The current time.
    pub fn now() -> (r: Timestamp)
        ensures
            r.valid(),
    {
        Timestamp { nanos: clock() }
    }

    /// Whether so many days later is still a date.
    pub fn has_after_days(self, days: i64) -> (r: bool)
        requires
            self.valid(),
        ensures
            r == in_range(self.nanos + days * NANOS_PER_DAY),
    {
        let later: i128 = self.nanos + days as i128 * NANOS_PER_DAY;
        FIRST_NANO <= later && later <= LAST_NANO
    }

    /// The same time of day so many days later.
    pub fn after_days(self, days: i64) -> (r: Timestamp)
        requires
            self.valid(),
            in_range(self.nanos + days * NANOS_PER_DAY),
        ensures
            r.nanos == self.nanos + days * NANOS_PER_DAY,
            r.valid(),
    {
        Timestamp { nanos: self.nanos + days as i128 * NANOS_PER_DAY }
    }

    /// The start of the hour.
    pub fn hour_start(self) -> (r: Timestamp)
        requires
            self.valid(),
        ensures
            r.nanos == self.nanos - self.nanos as int % NANOS_PER_HOUR as int,
            r.valid(),
    {
        let rest: i128 = self.nanos % NANOS_PER_HOUR;
        let into: i128 = if rest < 0 {
            rest + NANOS_PER_HOUR
        } else {
            rest
        };
        Timestamp { nanos: self.nanos - into }
    }
}

/// The whole seconds in a span of nanoseconds, cut towards zero.
pub open spec fn whole_seconds(nanos: int) -> int {
    if nanos >= 0 {
        nanos / NANOS_PER_SECOND as int
    } else {
        -((-nanos) / NANOS_PER_SECOND as int)
    }
}

/// The whole seconds from `last` to `now`.
pub fn seconds_between(last: Timestamp, now: Timestamp) -> (r: i64)
    requires
        last.valid(),
        now.valid(),
    ensures
        r == whole_seconds(now.nanos - last.nanos),
{
    let span: i128 = now.nanos - last.nanos;
    let seconds: i128 = if span >= 0 {
        span / NANOS_PER_SECOND
    } else {
        -((-span) / NANOS_PER_SECOND)
    };
    seconds as i64
}

// ---------------------------------------------------------------- laws

/// The whole seconds of a span are as many as fit into it, on either side of
/// zero.
pub proof fn lemma_seconds_that_fit(nanos: int)
    ensures
        nanos >= 0 ==> whole_seconds(nanos) * 1_000_000_000 <= nanos < (whole_seconds(nanos) + 1)
            * 1_000_000_000,
        whole_seconds(-nanos) == -whole_seconds(nanos),
{
}

/// The dates that there are reach from the start of the year -9999 to the end
/// of the year 9999, counted from 1970 in seconds.
pub proof fn lemma_range_of_dates(nanos: int)
    ensures
        in_range(nanos) <==> -377_705_116_800 * 1_000_000_000 <= nanos < 253_402_300_800
            * 1_000_000_000,
{
}

/// A day has 24 hours of 3600 seconds.
pub proof fn lemma_units()
    ensures
        NANOS_PER_SECOND == 1_000_000_000,
        NANOS_PER_HOUR == 3600 * NANOS_PER_SECOND,
        NANOS_PER_DAY == 24 * NANOS_PER_HOUR,
{
}

/// The offset of a text does not move the date and time that it names.
pub proof fn lemma_offset_is_left_out(s: Seq<char>, nanos: i128, offset: i32)
    requires
        rfc3339_parts(s) == Some((nanos, offset)),
    ensures
        rfc3339_value(s) == Some(nanos),
{
}

} // verus!
