//! What the clock and the time zone of the machine say.
//!
//! Two things cannot be computed from the arguments of a call: the present
//! moment, and the distance of the local clocks from UTC, which follows the
//! time zone that the machine is set to. The library asks `chrono` for both
//! and decides on whatever comes back. What a calendar makes of a moment
//! depends on the moment alone; there the library asks `chrono` too, and its
//! contracts speak of the answers by name.
//!
//! `chrono` ends the program where the clock shows a time before 1970, and
//! where the rules of the time zone that the machine is set to cannot be
//! applied to a moment. Neither depends on what is handed to a call.

use vstd::prelude::*;
use chrono::Datelike;
use chrono::TimeZone;
use crate::calendar::Civil;
use crate::calendar::Date;
use crate::time::Duration;
use crate::time::Instant;
use crate::time::MAX_TIMESTAMP;
use crate::time::MIN_TIMESTAMP;
use crate::time::NANOS_PER_SECOND;

verus! {

/// The moment in UTC that a wall-clock time of the local calendar maps to.
#[derive(Clone, Copy, Debug, PartialEq, Eq, Hash)]
pub enum LocalMapping {
    /// The local clocks never show the time: they skip it.
    Never,
    /// The time is shown once, at `nanos` nanoseconds after `secs` whole
    /// seconds since 1 January 1970, 00:00:00 UTC.
    Once { secs: i64, nanos: u32 },
    /// The local clocks show the time twice.
    Twice,
}

/// How far the local clocks are ahead of UTC when they show a wall-clock
/// time.
#[derive(Clone, Copy, Debug, PartialEq, Eq, Hash)]
pub enum LocalOffset {
    /// The local clocks never show the time: they skip it.
    Never,
    /// The time is shown once, and the local clocks are then the given
    /// number of seconds ahead of UTC; behind it, where the number is
    /// negative.
    Once(i32),
    /// The local clocks show the time twice.
    Twice,
}

/// Whether clocks can be `offset` seconds ahead of UTC: less than a day,
/// ahead or behind.
pub open spec fn zone_offset(offset: int) -> bool {
    -86_400 < offset < 86_400
}

impl LocalOffset {
    /// Whether the clocks are less than a day ahead of UTC or behind it.
    pub open spec fn within_a_day(self) -> bool {
        self matches LocalOffset::Once(ahead) ==> zone_offset(ahead as int)
    }
}

/// The seconds since 1 January 1970, 00:00:00, of a date and a time of day
/// as `chrono` counts them, leaving time zones aside; `None` where `chrono`
/// has no such date or no such time of day.
pub uninterp spec fn wall_clock_seconds(
    year: i32,
    month: u32,
    day: u32,
    hour: u32,
    minute: u32,
    second: u32,
) -> Option<i64>;

/// The year, the month and the day of month that `chrono` finds for the
/// moment `secs` seconds after 1 January 1970, 00:00:00, leaving time zones
/// aside; `None` where `chrono` has no such moment.
pub uninterp spec fn date_of_seconds(secs: i64) -> Option<(i32, u32, u32)>;

/// The text that `chrono` writes for a moment as clocks show it that are
/// `offset` seconds ahead of UTC: the date, the time of day and the distance
/// from UTC. The text is empty where `chrono` has no such moment or no such
/// distance.
pub uninterp spec fn text_at_offset(secs: i64, nanos: u32, offset: i32) -> Seq<char>;

/// Reads the clock with `chrono::Utc::now` and splits the moment with
/// `DateTime::timestamp` and `DateTime::timestamp_subsec_nanos`.
///
/// The seconds lie in the span of `chrono`'s `DateTime<Utc>`, since the
/// value is one, and the nanoseconds are those of a `std::time::Duration`,
/// which stay below one second.
#[verifier::external_body]
fn utc_now() -> (r: (i64, u32))
    ensures
        MIN_TIMESTAMP <= r.0 <= MAX_TIMESTAMP,
        r.1 < NANOS_PER_SECOND,
{
    let t = chrono::Utc::now();
    (t.timestamp(), t.timestamp_subsec_nanos())
}

/// Counts the seconds of a date and a time of day with
/// `NaiveDate::from_ymd_opt`, `NaiveDate::and_hms_opt`,
/// `NaiveDateTime::and_utc` and `DateTime::timestamp`. The answer depends
/// on the six numbers alone; nothing more is claimed of it.
#[verifier::external_body]
fn chrono_wall_clock(year: i32, month: u32, day: u32, hour: u32, minute: u32, second: u32) -> (r:
    Option<i64>)
    ensures
        r == wall_clock_seconds(year, month, day, hour, minute, second),
{
    match chrono::NaiveDate::from_ymd_opt(year, month, day) {
        Some(date) => match date.and_hms_opt(hour, minute, second) {
            Some(time) => Some(time.and_utc().timestamp()),
            None => None,
        },
        None => None,
    }
}

/// Asks `TimeZone::offset_from_local_datetime` of `chrono::Local` how far
/// the local clocks are ahead of UTC when they show a wall-clock time, and
/// takes the seconds with `FixedOffset::local_minus_utc`. A date or a time
/// of day that `NaiveDate::from_ymd_opt` or `NaiveDate::and_hms_opt` refuses
/// counts as a time that is never shown.
///
/// The outcome follows the time zone of the machine. All that is claimed
/// of it is what holds of every `FixedOffset`: it is less than a day, since
/// `FixedOffset::east_opt` makes no other.
#[verifier::external_body]
fn local_offset_for(year: i32, month: u32, day: u32, hour: u32, minute: u32, second: u32) -> (r:
    LocalOffset)
    ensures
        r.within_a_day(),
{
    let naive = match chrono::NaiveDate::from_ymd_opt(year, month, day) {
        Some(date) => date.and_hms_opt(hour, minute, second),
        None => None,
    };
    match naive {
        None => LocalOffset::Never,
        Some(naive) => match chrono::Local.offset_from_local_datetime(&naive) {
            chrono::LocalResult::None => LocalOffset::Never,
            chrono::LocalResult::Single(offset) => LocalOffset::Once(offset.local_minus_utc()),
            chrono::LocalResult::Ambiguous(_, _) => LocalOffset::Twice,
        },
    }
}

/// Asks `TimeZone::offset_from_utc_datetime` of `chrono::Local` how far the
/// local clocks are ahead of UTC at a moment, which is made with
/// `DateTime::from_timestamp`, and takes the seconds with
/// `FixedOffset::local_minus_utc`.
///
/// `DateTime::from_timestamp` has a moment for every second of the span of
/// `chrono`'s `DateTime<Utc>` and every count of nanoseconds below one
/// second, so there is an answer for these. The number follows the time
/// zone of the machine. All that is claimed of it is what holds of every
/// `FixedOffset`: it is less than a day, since `FixedOffset::east_opt` makes
/// no other.
#[verifier::external_body]
fn local_offset_at(secs: i64, nanos: u32) -> (r: Option<i32>)
    ensures
        MIN_TIMESTAMP <= secs <= MAX_TIMESTAMP && nanos < NANOS_PER_SECOND ==> r is Some,
        r matches Some(ahead) ==> zone_offset(ahead as int),
{
    match chrono::DateTime::from_timestamp(secs, nanos) {
        Some(t) => Some(chrono::Local.offset_from_utc_datetime(&t.naive_utc()).local_minus_utc()),
        None => None,
    }
}

/// Finds the date of a moment with `DateTime::from_timestamp` and
/// `DateTime::date_naive`, and takes it apart with `Datelike::year`,
/// `month` and `day`. The answer depends on the seconds alone; nothing more
/// is claimed of it.
#[verifier::external_body]
fn chrono_date(secs: i64) -> (r: Option<(i32, u32, u32)>)
    ensures
        r == date_of_seconds(secs),
{
    match chrono::DateTime::from_timestamp(secs, 0) {
        Some(t) => Some((t.date_naive().year(), t.date_naive().month(), t.date_naive().day())),
        None => None,
    }
}

/// Writes a moment as clocks show it that are `offset` seconds ahead of
/// UTC: `DateTime::from_timestamp` makes the moment, `FixedOffset::east_opt`
/// the distance, `DateTime::with_timezone` puts the two together and
/// `Display` writes the text. The text is empty where one of the first two
/// gives nothing. It depends on the three numbers alone; nothing more is
/// claimed of it.
#[verifier::external_body]
fn chrono_text(secs: i64, nanos: u32, offset: i32) -> (r: String)
    ensures
        r@ == text_at_offset(secs, nanos, offset),
{
    match (chrono::DateTime::from_timestamp(secs, nanos), chrono::FixedOffset::east_opt(offset)) {
        (Some(t), Some(zone)) => t.with_timezone(&zone).to_string(),
        _ => String::new(),
    }
}

/// The seconds of a time of day on a day of the calendar as `chrono` counts
/// them, leaving time zones aside.
pub open spec fn wall_clock(day: Civil, hour: u32, minute: u32, second: u32) -> Option<i64> {
    wall_clock_seconds(day.year as i32, day.month as u32, day.day as u32, hour, minute, second)
}

/// The moment in UTC of a wall-clock time, given its seconds as counted
/// without a time zone and what the time zone says of it: where the time is
/// shown once, the local clocks are ahead by the given seconds, and the
/// moment in UTC is earlier by as much.
pub open spec fn mapping_of(seconds: Option<i64>, offset: LocalOffset) -> LocalMapping {
    match seconds {
        None => LocalMapping::Never,
        Some(local) => match offset {
            LocalOffset::Never => LocalMapping::Never,
            LocalOffset::Twice => LocalMapping::Twice,
            LocalOffset::Once(ahead) => if i64::MIN <= local - ahead <= i64::MAX {
                LocalMapping::Once { secs: (local - ahead) as i64, nanos: 0 }
            } else {
                LocalMapping::Never
            },
        },
    }
}

/// The date that clocks show at the moment `t` which are `offset` seconds
/// ahead of UTC: the date that `chrono` finds for the moment that lies as
/// many seconds after `t`. There is none where that moment or the date lies
/// outside what the library handles.
pub open spec fn date_shown(t: int, offset: int) -> Option<Civil> {
    let shifted = t + offset * NANOS_PER_SECOND;
    if crate::time::min_nanos() <= shifted <= crate::time::max_nanos() {
        match date_of_seconds((shifted / (NANOS_PER_SECOND as int)) as i64) {
            Some((year, month, day)) => {
                let date = Civil { year: year as int, month: month as int, day: day as int };
                if date.valid() {
                    Some(date)
                } else {
                    None
                }
            },
            None => None,
        }
    } else {
        None
    }
}

/// The text of the moment `t` as clocks show it that are `offset` seconds
/// ahead of UTC.
pub open spec fn text_shown(t: int, offset: i32) -> Seq<char> {
    text_at_offset(
        (t / (NANOS_PER_SECOND as int)) as i64,
        (t % (NANOS_PER_SECOND as int)) as u32,
        offset,
    )
}

/// What an optional date stands for.
pub open spec fn date_view(date: Option<Date>) -> Option<Civil> {
    match date {
        Some(d) => Some(d@),
        None => None,
    }
}

/// The present moment.
pub fn now() -> (t: Instant)
    ensures
        t.valid(),
{
    let (secs, nanos) = utc_now();
    Instant::at(secs, nanos)
}

/// The moment in UTC of a wall-clock time, given its seconds as counted
/// without a time zone and what the time zone says of it.
pub fn mapping(seconds: Option<i64>, offset: LocalOffset) -> (r: LocalMapping)
    ensures
        r == mapping_of(seconds, offset),
{
    match (seconds, offset) {
        (Some(local), LocalOffset::Once(ahead)) => {
            let secs: i128 = local as i128 - ahead as i128;
            if secs < i64::MIN as i128 || secs > i64::MAX as i128 {
                LocalMapping::Never
            } else {
                LocalMapping::Once { secs: secs as i64, nanos: 0 }
            }
        },
        (Some(_), LocalOffset::Twice) => LocalMapping::Twice,
        _ => LocalMapping::Never,
    }
}

/// The moment in UTC at which the local clocks show the given time of the
/// given day: the seconds of that time, less the seconds by which the local
/// clocks are then ahead of UTC. The time zone of the machine decides whether
/// the time is shown once, and how far the clocks are ahead.
pub fn local_moment(date: &Date, hour: u32, minute: u32, second: u32) -> (r: LocalMapping)
    requires
        date.valid(),
    ensures
        exists|offset: LocalOffset|
            offset.within_a_day() && r == #[trigger] mapping_of(
                wall_clock(date@, hour, minute, second),
                offset,
            ),
{
    let seconds = chrono_wall_clock(date.year(), date.month(), date.day(), hour, minute, second);
    let offset = local_offset_for(date.year(), date.month(), date.day(), hour, minute, second);
    let r = mapping(seconds, offset);
    assert(offset.within_a_day() && r == mapping_of(
        wall_clock(date@, hour, minute, second),
        offset,
    ));
    r
}

/// The date that clocks show at the moment `t` which are `offset` seconds
/// ahead of UTC; `None` where it lies outside the days that the library
/// handles.
pub fn date_at(t: Instant, offset: i32) -> (r: Option<Date>)
    requires
        t.valid(),
    ensures
        date_view(r) == date_shown(t@, offset as int),
        r matches Some(d) ==> d.valid(),
{
    let ahead = Duration::from_nanos((offset as i128) * NANOS_PER_SECOND);
    match t.checked_add(ahead) {
        Some(shifted) => match chrono_date(shifted.timestamp()) {
            Some((year, month, day)) => Date::new(year, month, day),
            None => None,
        },
        None => None,
    }
}

/// The date that the local calendar shows at the moment `t`: the date that
/// clocks show which are as far ahead of UTC as the time zone of the machine
/// says. It is `None` where it lies outside the days that the library
/// handles.
pub fn local_date(t: Instant) -> (r: Option<Date>)
    requires
        t.valid(),
    ensures
        exists|offset: i32|
            zone_offset(offset as int) && date_view(r) == #[trigger] date_shown(t@, offset as int),
        r matches Some(d) ==> d.valid(),
{
    let offset = local_offset_at(t.timestamp(), t.subsec_nanos()).unwrap();
    let r = date_at(t, offset);
    assert(zone_offset(offset as int) && date_view(r) == date_shown(t@, offset as int));
    r
}

/// The present date of the local calendar: the date that the local clocks
/// show at the moment of the call. It is `None` where it lies outside the
/// days that the library handles.
pub fn today() -> (r: Option<Date>)
    ensures
        exists|now: Instant, offset: i32|
            now.valid() && zone_offset(offset as int) && date_view(r) == #[trigger] date_shown(
                now@,
                offset as int,
            ),
        r matches Some(d) ==> d.valid(),
{
    let now = now();
    let r = local_date(now);
    proof {
        let offset = choose|offset: i32|
            zone_offset(offset as int) && date_view(r) == #[trigger] date_shown(
                now@,
                offset as int,
            );
        assert(zone_offset(offset as int) && date_view(r) == date_shown(now@, offset as int));
    }
    r
}

/// The moment `t` as clocks show it that are `offset` seconds ahead of
/// UTC, with the date, the time of day and the distance from UTC.
pub fn text_at(t: Instant, offset: i32) -> (r: String)
    requires
        t.valid(),
    ensures
        r@ == text_shown(t@, offset),
{
    chrono_text(t.timestamp(), t.subsec_nanos(), offset)
}

/// The moment `t` as the local clocks show it, with the date, the time of
/// day and the distance from UTC: the text for clocks that are as far ahead
/// of UTC as the time zone of the machine says.
pub fn local_text(t: Instant) -> (r: String)
    requires
        t.valid(),
    ensures
        exists|offset: i32| zone_offset(offset as int) && r@ == #[trigger] text_shown(t@, offset),
{
    let offset = local_offset_at(t.timestamp(), t.subsec_nanos()).unwrap();
    let r = text_at(t, offset);
    assert(zone_offset(offset as int) && r@ == text_shown(t@, offset));
    r
}

} // verus!
