//! Points in time and spans between them, counted in nanoseconds.
//!
//! An [`Instant`] is a moment on the UTC time line, held as the number of
//! nanoseconds since 1 January 1970, 00:00:00 UTC, leap seconds not counted.
//! A [`Duration`] is a signed distance between two moments.

use vstd::prelude::*;
use crate::text::chars_of;

verus! {

/// Nanoseconds in one second.
pub const NANOS_PER_SECOND: i128 = 1_000_000_000;

/// The earliest second an [`Instant`] can hold: 1 January of the year
/// -262143, 00:00:00 UTC.
pub const MIN_TIMESTAMP: i64 = -8_334_601_228_800;

/// The latest second an [`Instant`] can hold: 31 December of the year
/// 262142, 23:59:59 UTC.
pub const MAX_TIMESTAMP: i64 = 8_210_266_876_799;

/// The smallest nanosecond count of a valid [`Instant`].
pub open spec fn min_nanos() -> int {
    MIN_TIMESTAMP * NANOS_PER_SECOND
}

/// The largest nanosecond count of a valid [`Instant`].
pub open spec fn max_nanos() -> int {
    MAX_TIMESTAMP * NANOS_PER_SECOND + (NANOS_PER_SECOND - 1)
}

/// A signed span of time in nanoseconds.
#[derive(Clone, Copy, Debug, PartialEq, Eq, Structural, PartialOrd, Ord, Hash)]
pub struct Duration {
    nanos: i128,
}

impl View for Duration {
    type V = int;

    /// The span in nanoseconds.
    closed spec fn view(&self) -> int {
        self.nanos as int
    }
}

impl Duration {
    /// A span fits in 128 bits.
    pub proof fn lemma_fits(d: Duration)
        ensures
            i128::MIN <= d@ <= i128::MAX,
    {
    }

    /// A span of `nanos` nanoseconds.
    pub fn from_nanos(nanos: i128) -> (d: Duration)
        ensures
            d@ == nanos,
    {
        Duration { nanos }
    }

    /// A span of `secs` whole seconds.
    pub fn seconds(secs: i64) -> (d: Duration)
        ensures
            d@ == secs * NANOS_PER_SECOND,
    {
        Duration { nanos: (secs as i128) * NANOS_PER_SECOND }
    }

    /// A span of `minutes` whole minutes.
    pub fn minutes(minutes: i64) -> (d: Duration)
        ensures
            d@ == minutes * 60 * NANOS_PER_SECOND,
    {
        Duration { nanos: (minutes as i128) * 60 * NANOS_PER_SECOND }
    }

    /// The empty span.
    pub fn zero() -> (d: Duration)
        ensures
            d@ == 0,
    {
        Duration { nanos: 0 }
    }

    /// The span in nanoseconds.
    pub fn nanos(&self) -> (n: i128)
        ensures
            n == self@,
    {
        self.nanos
    }

    /// The whole seconds in `nanos` nanoseconds, rounded towards zero.
    pub open spec fn whole_seconds(nanos: int) -> int {
        if nanos >= 0 {
            nanos / (NANOS_PER_SECOND as int)
        } else {
            -((-nanos) / (NANOS_PER_SECOND as int))
        }
    }

    /// The number of whole seconds in the span, rounded towards zero.
    pub fn num_seconds(&self) -> (s: i128)
        ensures
            s == Self::whole_seconds(self@),
            i128::MIN < s,
    {
        self.nanos / NANOS_PER_SECOND
    }

    /// The sum of two spans, or `None` where it does not fit in 128 bits.
    pub fn checked_add(&self, other: Duration) -> (sum: Option<Duration>)
        ensures
            match sum {
                Some(d) => d@ == self@ + other@,
                None => self@ + other@ < i128::MIN || self@ + other@ > i128::MAX,
            },
    {
        if other.nanos >= 0 {
            if self.nanos > i128::MAX - other.nanos {
                None
            } else {
                Some(Duration { nanos: self.nanos + other.nanos })
            }
        } else {
            if self.nanos < i128::MIN - other.nanos {
                None
            } else {
                Some(Duration { nanos: self.nanos + other.nanos })
            }
        }
    }
}

/// Whether `c` is one of the ten digits.
pub open spec fn is_digit(c: char) -> bool {
    '0' <= c <= '9'
}

/// Whether a text has the form of a written moment: eight digits for year,
/// month and day, the letter `T`, six digits for hour, minute and second,
/// and the letter `Z`.
pub open spec fn literal_shaped(text: Seq<char>) -> bool {
    &&& text.len() == 16
    &&& forall|i: int| 0 <= i < 8 ==> is_digit(#[trigger] text[i])
    &&& text[8] == 'T'
    &&& forall|i: int| 9 <= i < 15 ==> is_digit(#[trigger] text[i])
    &&& text[15] == 'Z'
}

/// The moment that `chrono` reads from a text in the format
/// `%Y%m%dT%H%M%SZ`, as whole seconds since the epoch and nanoseconds
/// since the last whole second; `None` where `chrono` refuses the text.
pub uninterp spec fn timestamp_of(text: Seq<char>) -> Option<(i64, u32)>;

/// The moment that a text stands for: it must have the form of a written
/// moment, name a date and a time of day that exist, and lie in the span
/// that the library handles.
pub open spec fn literal_value(text: Seq<char>) -> Option<int> {
    if literal_shaped(text) {
        match timestamp_of(text) {
            Some((secs, nanos)) => if MIN_TIMESTAMP <= secs <= MAX_TIMESTAMP && nanos
                < NANOS_PER_SECOND {
                Some(secs * NANOS_PER_SECOND + nanos)
            } else {
                None
            },
            None => None,
        }
    } else {
        None
    }
}

/// Reads a moment with `chrono::NaiveDateTime::parse_from_str` in the
/// format `%Y%m%dT%H%M%SZ`, takes it as UTC with `NaiveDateTime::and_utc`
/// and splits it with `DateTime::timestamp` and
/// `DateTime::timestamp_subsec_nanos`. The answer depends on the text
/// alone; nothing more is claimed of it.
#[verifier::external_body]
fn chrono_timestamp(text: &str) -> (r: Option<(i64, u32)>)
    ensures
        r == timestamp_of(text@),
{
    match chrono::NaiveDateTime::parse_from_str(text, "%Y%m%dT%H%M%SZ") {
        Ok(t) => Some((t.and_utc().timestamp(), t.and_utc().timestamp_subsec_nanos())),
        Err(_) => None,
    }
}

/// Whether `c` is one of the ten digits.
pub fn digit(c: char) -> (r: bool)
    ensures
        r == is_digit(c),
{
    '0' <= c && c <= '9'
}

/// Whether the characters have the form of a written moment.
pub fn shaped_like_literal(chars: &Vec<char>) -> (r: bool)
    ensures
        r == literal_shaped(chars@),
{
    if chars.len() != 16 {
        return false;
    }
    let mut i: usize = 0;
    while i < 16
        invariant
            chars@.len() == 16,
            i <= 16,
            forall|k: int| 0 <= k < i && k != 8 && k != 15 ==> is_digit(#[trigger] chars@[k]),
            i > 8 ==> chars@[8] == 'T',
            i > 15 ==> chars@[15] == 'Z',
        decreases 16 - i,
    {
        let c = chars[i];
        if i == 8 {
            if c != 'T' {
                return false;
            }
        } else if i == 15 {
            if c != 'Z' {
                return false;
            }
        } else if !digit(c) {
            return false;
        }
        i = i + 1;
    }
    true
}

/// The count of an optional moment.
pub open spec fn instant_view(t: Option<Instant>) -> Option<int> {
    match t {
        Some(t) => Some(t@),
        None => None,
    }
}

/// A moment on the UTC time line.
#[derive(Clone, Copy, Debug, PartialEq, Eq, Structural, PartialOrd, Ord, Hash)]
pub struct Instant {
    nanos: i128,
}

impl View for Instant {
    type V = int;

    /// Nanoseconds since 1 January 1970, 00:00:00 UTC.
    closed spec fn view(&self) -> int {
        self.nanos as int
    }
}

impl Instant {
    /// Whether the moment lies in the span of time that the library handles.
    pub open spec fn valid(&self) -> bool {
        min_nanos() <= self@ <= max_nanos()
    }

    /// Two instants with the same count are the same instant.
    pub proof fn lemma_view_injective(a: Instant, b: Instant)
        requires
            a@ == b@,
        ensures
            a == b,
    {
    }

    /// The moment `nanos` nanoseconds after `secs` whole seconds since the
    /// epoch; `None` where `secs` lies outside the handled span or `nanos`
    /// is not below one second.
    pub fn from_timestamp(secs: i64, nanos: u32) -> (r: Option<Instant>)
        ensures
            r is Some <==> MIN_TIMESTAMP <= secs <= MAX_TIMESTAMP && nanos < NANOS_PER_SECOND,
            r matches Some(t) ==> t.valid() && t@ == secs * NANOS_PER_SECOND + nanos,
    {
        if secs < MIN_TIMESTAMP || secs > MAX_TIMESTAMP || nanos >= 1_000_000_000 {
            None
        } else {
            Some(Instant { nanos: (secs as i128) * NANOS_PER_SECOND + (nanos as i128) })
        }
    }

    /// The moment that a text of the form `YYYYMMDDThhmmssZ` stands for;
    /// `None` where the text has another form, names a date or a time of
    /// day that does not exist, or lies outside the handled span.
    pub fn parse(text: &str) -> (r: Option<Instant>)
        ensures
            instant_view(r) == literal_value(text@),
            r matches Some(t) ==> t.valid(),
    {
        let chars = chars_of(text);
        if !shaped_like_literal(&chars) {
            return None;
        }
        match chrono_timestamp(text) {
            Some((secs, nanos)) => Instant::from_timestamp(secs, nanos),
            None => None,
        }
    }

    /// The moment with the given count of nanoseconds since the epoch;
    /// `None` where it lies outside the handled span.
    pub fn from_nanos(nanos: i128) -> (r: Option<Instant>)
        ensures
            r is Some <==> min_nanos() <= nanos <= max_nanos(),
            r matches Some(t) ==> t.valid() && t@ == nanos,
    {
        if nanos < (MIN_TIMESTAMP as i128) * NANOS_PER_SECOND || nanos > (MAX_TIMESTAMP as i128)
            * NANOS_PER_SECOND + (NANOS_PER_SECOND - 1) {
            None
        } else {
            Some(Instant { nanos })
        }
    }

    /// The moment `nanos` nanoseconds after `secs` whole seconds since the
    /// epoch, which lies in the handled span.
    pub(crate) fn at(secs: i64, nanos: u32) -> (t: Instant)
        requires
            MIN_TIMESTAMP <= secs <= MAX_TIMESTAMP,
            nanos < NANOS_PER_SECOND,
        ensures
            t.valid(),
            t@ == secs * NANOS_PER_SECOND + nanos,
    {
        Instant { nanos: (secs as i128) * NANOS_PER_SECOND + (nanos as i128) }
    }

    /// The moment with the given count of nanoseconds since the epoch,
    /// which lies in the handled span.
    pub(crate) fn within(nanos: i128) -> (t: Instant)
        requires
            min_nanos() <= nanos <= max_nanos(),
        ensures
            t.valid(),
            t@ == nanos,
    {
        Instant { nanos }
    }

    /// Nanoseconds since the epoch.
    pub fn nanos(&self) -> (n: i128)
        ensures
            n == self@,
    {
        self.nanos
    }

    /// Whole seconds since the epoch, rounded down.
    pub fn timestamp(&self) -> (s: i64)
        requires
            self.valid(),
        ensures
            s == self@ / (NANOS_PER_SECOND as int),
            MIN_TIMESTAMP <= s <= MAX_TIMESTAMP,
    {
        let n = self.nanos;
        if n >= 0 {
            (n / NANOS_PER_SECOND) as i64
        } else {
            let up: i128 = (-n + (NANOS_PER_SECOND - 1)) / NANOS_PER_SECOND;
            (-up) as i64
        }
    }

    /// Nanoseconds since the last whole second.
    pub fn subsec_nanos(&self) -> (n: u32)
        requires
            self.valid(),
        ensures
            n == self@ % (NANOS_PER_SECOND as int),
            n < NANOS_PER_SECOND,
    {
        let s = self.timestamp();
        (self.nanos - (s as i128) * NANOS_PER_SECOND) as u32
    }

    /// The moment `d` after this one (before it, for a negative `d`);
    /// `None` where that lies outside the handled span.
    pub fn checked_add(&self, d: Duration) -> (r: Option<Instant>)
        requires
            self.valid(),
        ensures
            r is Some <==> min_nanos() <= self@ + d@ <= max_nanos(),
            r matches Some(t) ==> t.valid() && t@ == self@ + d@,
    {
        let lo: i128 = (MIN_TIMESTAMP as i128) * NANOS_PER_SECOND;
        let hi: i128 = (MAX_TIMESTAMP as i128) * NANOS_PER_SECOND + (NANOS_PER_SECOND - 1);
        let step = d.nanos();
        if step < lo - self.nanos || step > hi - self.nanos {
            None
        } else {
            Some(Instant { nanos: self.nanos + step })
        }
    }

    /// The span from `earlier` to this moment; negative where this moment
    /// comes first.
    pub fn since(&self, earlier: Instant) -> (d: Duration)
        requires
            self.valid(),
            earlier.valid(),
        ensures
            d@ == self@ - earlier@,
    {
        Duration::from_nanos(self.nanos - earlier.nanos)
    }
}

} // verus!
