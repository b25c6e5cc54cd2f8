//! Intervals of time and their algebra.
//!
//! A [`Range`] begins at a moment and ends at a later one, or is open: it
//! has begun and not ended yet. A range that ends lasts at least one second.

use vstd::prelude::*;
use crate::calendar::weekday_of;
use crate::calendar::Civil;
use crate::calendar::Date;
use crate::clock::mapping_of;
use crate::clock::text_shown;
use crate::clock::wall_clock;
use crate::clock::zone_offset;
use crate::clock::LocalMapping;
use crate::clock::LocalOffset;
use crate::error::Error;
use crate::error::Invalid;
use crate::parser::lemma_written_range_is_read;
use crate::parser::parse_range;
use crate::parser::range_of;
use crate::parser::range_separator;
use crate::parser::RangeSyntax;
use crate::parser::Written;
use crate::text::push_two_digits;
use crate::text::two_digits;
use crate::time::literal_value;
use crate::time::Duration;
use crate::time::Instant;
use crate::time::MAX_TIMESTAMP;
use crate::time::MIN_TIMESTAMP;
use crate::time::NANOS_PER_SECOND;

verus! {

/// Nanoseconds in one day.
pub const NANOS_PER_DAY: i128 = 86_400_000_000_000;

/// What a [`Range`] stands for: the nanosecond counts of its two ends.
pub ghost struct Interval {
    pub from: int,
    pub to: Option<int>,
}

/// The later of two moments.
pub open spec fn later(a: int, b: int) -> int {
    if a < b {
        b
    } else {
        a
    }
}

/// The earlier of two ends, where no end stands for "never".
pub open spec fn earlier_end(a: Option<int>, b: Option<int>) -> Option<int> {
    match (a, b) {
        (None, _) => b,
        (_, None) => a,
        (Some(x), Some(y)) => Some(if x < y { x } else { y }),
    }
}

impl Interval {
    /// Whether the interval is open: it has no end.
    pub open spec fn is_open(self) -> bool {
        self.to is None
    }

    /// The rule of every interval: one that ends lasts at least a second.
    pub open spec fn long_enough(self) -> bool {
        self.to matches Some(to) ==> self.from + NANOS_PER_SECOND <= to
    }

    /// Whether both ends lie in the span of time that the library handles.
    pub open spec fn in_span(self) -> bool {
        &&& crate::time::min_nanos() <= self.from <= crate::time::max_nanos()
        &&& self.to matches Some(to) ==> crate::time::min_nanos() <= to <= crate::time::max_nanos()
    }

    /// The end of the interval, with `now` for the end of an open one.
    pub open spec fn end_at(self, now: int) -> int {
        match self.to {
            Some(to) => to,
            None => now,
        }
    }

    /// The time from the beginning to the end, with `now` for the end of
    /// an open interval.
    pub open spec fn duration_at(self, now: int) -> int {
        self.end_at(now) - self.from
    }

    /// What two intervals have in common: the time from the later
    /// beginning to the earlier end, or nothing where that is less than a
    /// second.
    pub open spec fn intersection(self, other: Interval) -> Option<Interval> {
        let common = Interval {
            from: later(self.from, other.from),
            to: earlier_end(self.to, other.to),
        };
        if common.long_enough() {
            Some(common)
        } else {
            None
        }
    }

    /// The moment in the middle of the interval, rounded down to the
    /// nanosecond.
    pub open spec fn midpoint_at(self, now: int) -> int {
        self.from + self.duration_at(now) / 2
    }

    /// The two parts into which `at` cuts the interval, or nothing where
    /// one of them would last less than a second.
    pub open spec fn split_at(self, at: int) -> Option<(Interval, Interval)> {
        let first = Interval { from: self.from, to: Some(at) };
        let second = Interval { from: at, to: self.to };
        if first.long_enough() && second.long_enough() {
            Some((first, second))
        } else {
            None
        }
    }

    /// The two parts into which `at` cuts the interval at the moment `now`,
    /// which stands for the end of an open interval: the parts of
    /// [`Interval::split_at`] where `at` lies in the interval, from its
    /// beginning to its end, and nothing where it lies outside.
    pub open spec fn split_within(self, at: int, now: int) -> Option<(Interval, Interval)> {
        if self.from <= at <= self.end_at(now) {
            self.split_at(at)
        } else {
            None
        }
    }

    /// The moments that lie whole days after the beginning and not after
    /// `end`.
    pub open spec fn days_until(self, end: int) -> Seq<int> {
        if self.from > end {
            Seq::empty()
        } else {
            Seq::new(
                ((end - self.from) / (NANOS_PER_DAY as int) + 1) as nat,
                |k: int| self.from + k * NANOS_PER_DAY,
            )
        }
    }
}

/// A span of time named after the present day.
#[derive(Clone, Copy, Debug, PartialEq, Eq, Structural, Hash)]
pub enum Period {
    /// The present day.
    Today,
    /// The day before the present day.
    Yesterday,
    /// The week of the present day, from Monday to Sunday.
    Week,
    /// The week of the day seven days ago.
    LastWeek,
    /// The month of the present day.
    Month,
    /// The month before that of the present day.
    LastMonth,
}

/// The count of the moment that a wall-clock time was mapped to, or the
/// reason for which it has none.
pub open spec fn mapped_moment(m: LocalMapping) -> Result<int, Invalid> {
    match m {
        LocalMapping::Once { secs, nanos } => if MIN_TIMESTAMP <= secs <= MAX_TIMESTAMP && nanos
            < NANOS_PER_SECOND {
            Ok(secs * NANOS_PER_SECOND + nanos)
        } else {
            Err(Invalid::OutOfRange)
        },
        _ => Err(Invalid::LocalTime),
    }
}

/// The interval between two mapped wall-clock times, or the reason for
/// which there is none. The beginning is looked at first.
pub open spec fn interval_between(start: LocalMapping, end: LocalMapping) -> Result<
    Interval,
    Invalid,
> {
    match mapped_moment(start) {
        Err(reason) => Err(reason),
        Ok(from) => match mapped_moment(end) {
            Err(reason) => Err(reason),
            Ok(to) => {
                let interval = Interval { from, to: Some(to) };
                if interval.long_enough() {
                    Ok(interval)
                } else {
                    Err(Invalid::TooShort)
                }
            },
        },
    }
}

/// Whether `r` is the answer of [`Range::from_local`] to the two mapped
/// wall-clock times.
pub open spec fn built_from(
    start: LocalMapping,
    end: LocalMapping,
    r: Result<Range, Error>,
) -> bool {
    match r {
        Ok(range) => range.valid() && interval_between(start, end) == Ok::<Interval, Invalid>(
            range@,
        ),
        Err(e) => interval_between(start, end) matches Err(reason) && e == Error::Validation(
            reason,
        ),
    }
}

/// Whether `r` is the range from the first second of the day `first` to
/// the last second of the day `last`, as the local clocks show them: the
/// answer of [`Range::from_local`] to the moments of 00:00:00 on the one day
/// and of 23:59:59 on the other, whatever the time zone of the machine says
/// of the two times.
pub open spec fn between_days(first: Civil, last: Civil, r: Result<Range, Error>) -> bool {
    exists|start: LocalOffset, end: LocalOffset|
        start.within_a_day() && end.within_a_day() && #[trigger] built_from(
            mapping_of(wall_clock(first, 0, 0, 0), start),
            mapping_of(wall_clock(last, 23, 59, 59), end),
            r,
        )
}

/// Whether `r` refuses a day that lies outside the days that the library
/// handles.
pub open spec fn out_of_range(r: Result<Range, Error>) -> bool {
    r matches Err(e) && e == Error::Validation(Invalid::OutOfRange)
}

/// Whether `r` is an answer to the question for the week of `day`: a
/// refusal where the Monday or the Sunday cannot be held, and else the range
/// from the first second of the Monday to the last second of the Sunday.
pub open spec fn week_answer(day: Civil, r: Result<Range, Error>) -> bool {
    match weekday_of(day.year as i32, day.month as u32, day.day as u32) {
        Some(w) => if day.week_of(w as nat).0.valid() && day.week_of(w as nat).1.valid() {
            between_days(day.week_of(w as nat).0, day.week_of(w as nat).1, r)
        } else {
            out_of_range(r)
        },
        None => out_of_range(r),
    }
}

impl Period {
    /// The day whose day, week or month the period names, where `today`
    /// is the present day.
    pub open spec fn day_for(self, today: Civil) -> Civil {
        match self {
            Period::Today | Period::Week | Period::Month => today,
            Period::Yesterday => today.pred(),
            Period::LastWeek => today.minus_days(7),
            Period::LastMonth => today.minus_days(15 * today.jumps_to_previous_month()),
        }
    }

    /// Whether `r` is an answer to the question for the period on the day
    /// `today`: a refusal where the day that the period starts from cannot
    /// be held, and else the range of that day, of its week or of its month.
    pub open spec fn answer(self, today: Civil, r: Result<Range, Error>) -> bool {
        let day = self.day_for(today);
        if !day.valid() {
            out_of_range(r)
        } else {
            match self {
                Period::Today | Period::Yesterday => between_days(day, day, r),
                Period::Week | Period::LastWeek => week_answer(day, r),
                Period::Month | Period::LastMonth => between_days(
                    day.first_of_month(),
                    day.last_of_month(),
                    r,
                ),
            }
        }
    }

    /// Whether `r` is an answer to the question for the period on some day
    /// that the library handles, or a refusal because the present day is
    /// none.
    pub open spec fn answer_some_day(self, r: Result<Range, Error>) -> bool {
        out_of_range(r) || exists|today: Date| today.valid() && #[trigger] self.answer(today@, r)
    }
}

/// A range between two days ends, and a refusal of one says that a value
/// is not valid.
pub proof fn lemma_between_days(first: Civil, last: Civil, r: Result<Range, Error>)
    requires
        between_days(first, last, r) || out_of_range(r),
    ensures
        r matches Ok(range) ==> range.valid() && !range@.is_open(),
        r matches Err(e) ==> e is Validation,
{
}

/// Whether `text` shows the interval to a reader at the moment `now`: its
/// two ends as clocks show them that are some seconds ahead of UTC, `...`
/// for the end of an open interval, and its length.
pub open spec fn shown_at(interval: Interval, now: int, text: Seq<char>) -> bool {
    match interval.to {
        Some(to) => exists|first: i32, second: i32|
            zone_offset(first as int) && zone_offset(second as int) && text == #[trigger] rendered(
                text_shown(interval.from, first),
                Some(text_shown(to, second)),
                interval.duration_at(now),
            ),
        None => exists|first: i32|
            zone_offset(first as int) && text == #[trigger] rendered(
                text_shown(interval.from, first),
                None,
                interval.duration_at(now),
            ),
    }
}

/// A span of time as hours, minutes and seconds with colons between them,
/// each in two places or more. The hours are not limited to a day, and
/// fractions of a second are left out. Of a negative span each of the
/// three numbers that is not zero has a minus sign.
pub open spec fn pretty(nanos: int) -> Seq<char> {
    let secs = Duration::whole_seconds(nanos);
    if secs >= 0 {
        two_digits(secs / 3600) + seq![':'] + two_digits((secs / 60) % 60) + seq![':']
            + two_digits(secs % 60)
    } else {
        two_digits(-((-secs) / 3600)) + seq![':'] + two_digits(-(((-secs) / 60) % 60)) + seq![':']
            + two_digits(-((-secs) % 60))
    }
}

/// The text of a range, given the texts of its two ends and its length:
/// the beginning, ` - `, the end or `...` for an open range, and the length
/// in square brackets.
pub open spec fn rendered(from: Seq<char>, to: Option<Seq<char>>, nanos: int) -> Seq<char> {
    from + seq![' ', '-', ' '] + match to {
        Some(text) => text,
        None => seq!['.', '.', '.'],
    } + seq![' ', '['] + pretty(nanos) + seq![']']
}

/// A span of time with a beginning and, unless it is open, an end.
#[derive(Clone, Copy, Debug, PartialEq, Eq, Hash)]
pub struct Range {
    from: Instant,
    to: Option<Instant>,
}

impl View for Range {
    type V = Interval;

    closed spec fn view(&self) -> Interval {
        Interval {
            from: self.from@,
            to: match self.to {
                Some(t) => Some(t@),
                None => None,
            },
        }
    }
}

/// The counts of an optional moment.
pub open spec fn end_view(to: Option<Instant>) -> Option<int> {
    match to {
        Some(t) => Some(t@),
        None => None,
    }
}

/// What an optional range stands for.
pub open spec fn range_view(r: Option<Range>) -> Option<Interval> {
    match r {
        Some(r) => Some(r@),
        None => None,
    }
}

/// The counts of a list of moments.
pub open spec fn instants_view(moments: Seq<Instant>) -> Seq<int> {
    Seq::new(moments.len(), |k: int| moments[k]@)
}

/// What the two parts of a split range stand for; nothing where the split
/// was refused.
pub open spec fn split_view(r: Result<(Range, Range), Error>) -> Option<(Interval, Interval)> {
    match r {
        Ok((first, second)) => Some((first@, second@)),
        Err(_) => None,
    }
}

/// Whether `r` is what reading the text `text` as a range gives at the
/// moment `now`. A text that writes the moments of the range is read in one
/// way: an open range that has not begun a second before `now` is refused as
/// not begun, any other is the range that the text writes. A text that names
/// a period is read as the range that [`Range::from_period`] finds for the
/// period, as [`Period::answer_some_day`] says it; where that finds none, the
/// text is refused with an error that names it. Any other text is refused
/// with an error that names it.
pub open spec fn read_as(text: Seq<char>, now: int, r: Result<Range, Error>) -> bool {
    match range_of(text) {
        Some(Written::Literal(interval)) => if interval.is_open() && interval.from
            + NANOS_PER_SECOND > now {
            r matches Err(e) && e == Error::Validation(Invalid::NotBegun)
        } else {
            r matches Ok(range) && range.valid() && range@ == interval
        },
        Some(Written::Named(period)) => {
            &&& match r {
                Ok(range) => range.valid() && !range@.is_open(),
                Err(e) => e.is_parse_of(None, text),
            }
            &&& exists|found: Result<Range, Error>|
                #[trigger] period.answer_some_day(found) && match found {
                    Ok(range) => r == Ok::<Range, Error>(range),
                    Err(_) => r matches Err(e) && e.is_parse_of(None, text),
                }
        },
        None => r matches Err(e) && e.is_parse_of(None, text),
    }
}

impl Range {
    /// Whether the range keeps the rules of the type: its ends lie in the
    /// span that the library handles, and if it ends, it lasts at least a
    /// second.
    pub open spec fn valid(&self) -> bool {
        self@.in_span() && self@.long_enough()
    }

    /// Two ranges that stand for the same interval are the same range.
    pub proof fn lemma_view_injective(a: Range, b: Range)
        requires
            a@ == b@,
        ensures
            a == b,
    {
        Instant::lemma_view_injective(a.from, b.from);
        if a.to is Some {
            Instant::lemma_view_injective(a.to->0, b.to->0);
        }
    }

    /// The range from `from` to `to`, open where `to` is `None`. It is
    /// refused where it would last less than one second.
    pub fn new(from: Instant, to: Option<Instant>) -> (r: Result<Range, Error>)
        requires
            from.valid(),
            to matches Some(t) ==> t.valid(),
        ensures
            r is Ok <==> (Interval { from: from@, to: end_view(to) }).long_enough(),
            r matches Ok(range) ==> range.valid() && range@ == (Interval {
                from: from@,
                to: end_view(to),
            }),
            r matches Err(e) ==> e == Error::Validation(Invalid::TooShort),
    {
        match to {
            None => Ok(Range { from, to }),
            Some(t) => {
                if from.nanos() + NANOS_PER_SECOND <= t.nanos() {
                    Ok(Range { from, to })
                } else {
                    Err(Error::Validation(Invalid::TooShort))
                }
            },
        }
    }

    /// The moment at which the range begins.
    pub fn start(&self) -> (t: Instant)
        requires
            self.valid(),
        ensures
            t.valid(),
            t@ == self@.from,
    {
        self.from
    }

    /// The moment at which the range ends, `None` for an open range.
    pub fn end(&self) -> (t: Option<Instant>)
        requires
            self.valid(),
        ensures
            end_view(t) == self@.to,
            t matches Some(e) ==> e.valid(),
    {
        self.to
    }

    /// Whether the range is open: it has no end.
    pub fn is_open(&self) -> (open: bool)
        ensures
            open == self@.is_open(),
    {
        self.to.is_none()
    }

    /// What the range has in common with `other`, if that lasts a second
    /// or more.
    pub fn intersection(&self, other: &Range) -> (r: Option<Range>)
        requires
            self.valid(),
            other.valid(),
        ensures
            range_view(r) == self@.intersection(other@),
            r matches Some(common) ==> common.valid(),
    {
        let from = if self.from.nanos() < other.from.nanos() {
            other.from
        } else {
            self.from
        };
        match (self.to, other.to) {
            (None, None) => Self::checked(from, None),
            (None, Some(_)) => Self::checked(from, other.to),
            (Some(_), None) => Self::checked(from, self.to),
            (Some(to_a), Some(to_b)) => {
                if other.from.nanos() > to_a.nanos() || self.from.nanos() > to_b.nanos() {
                    return None;
                }
                let to = if to_a.nanos() > to_b.nanos() {
                    other.to
                } else {
                    self.to
                };
                Self::checked(from, to)
            },
        }
    }

    /// The range from `from` to `to`, or nothing where it is refused.
    fn checked(from: Instant, to: Option<Instant>) -> (r: Option<Range>)
        requires
            from.valid(),
            to matches Some(t) ==> t.valid(),
        ensures
            r is Some <==> (Interval { from: from@, to: end_view(to) }).long_enough(),
            r matches Some(range) ==> range.valid() && range@ == (Interval {
                from: from@,
                to: end_view(to),
            }),
    {
        match Range::new(from, to) {
            Ok(r) => Some(r),
            Err(_) => None,
        }
    }

    /// The end of the range, with `now` for the end of an open range.
    pub fn end_at(&self, now: Instant) -> (t: Instant)
        requires
            self.valid(),
            now.valid(),
        ensures
            t.valid(),
            t@ == self@.end_at(now@),
    {
        match self.to {
            Some(t) => t,
            None => now,
        }
    }

    /// How long the range lasts, with `now` for the end of an open range.
    /// The result is negative for an open range that begins after `now`.
    pub fn duration_as_of(&self, now: Instant) -> (d: Duration)
        requires
            self.valid(),
            now.valid(),
        ensures
            d@ == self@.duration_at(now@),
    {
        self.end_at(now).since(self.from)
    }

    /// The moments that lie whole days after the beginning of the range
    /// and not after its end, with `now` for the end of an open range.
    pub fn days_as_of(&self, now: Instant) -> (days: Vec<Instant>)
        requires
            self.valid(),
            now.valid(),
        ensures
            instants_view(days@) == self@.days_until(self@.end_at(now@)),
            forall|k: int| 0 <= k < days@.len() ==> (#[trigger] days@[k]).valid(),
            self@.from <= self@.end_at(now@) ==> days@.len() >= 1,
    {
        let end: i128 = self.end_at(now).nanos();
        let start: i128 = self.from.nanos();
        let mut days: Vec<Instant> = Vec::new();
        let mut current: i128 = start;
        let ghost all = self@.days_until(end as int);
        while current <= end
            invariant
                self.valid(),
                start == self@.from,
                crate::time::min_nanos() <= start,
                end <= crate::time::max_nanos(),
                all == self@.days_until(end as int),
                current == start + days@.len() * NANOS_PER_DAY,
                days@.len() > 0 ==> current - NANOS_PER_DAY <= end,
                forall|k: int|
                    0 <= k < days@.len() ==> (#[trigger] days@[k]).valid() && days@[k]@ == start + k
                        * NANOS_PER_DAY,
            decreases end - current + NANOS_PER_DAY,
        {
            days.push(Instant::within(current));
            current = current + NANOS_PER_DAY;
        }
        assert(instants_view(days@) =~= all);
        days
    }

    /// The moment that a wall-clock time was mapped to. A time that the
    /// local clocks skip or show twice has none.
    fn moment(m: LocalMapping) -> (r: Result<Instant, Error>)
        ensures
            match r {
                Ok(t) => t.valid() && mapped_moment(m) == Ok::<int, Invalid>(t@),
                Err(e) => mapped_moment(m) matches Err(reason) && e == Error::Validation(reason),
            },
    {
        match m {
            LocalMapping::Once { secs, nanos } => match Instant::from_timestamp(secs, nanos) {
                Some(t) => Ok(t),
                None => Err(Error::Validation(Invalid::OutOfRange)),
            },
            _ => Err(Error::Validation(Invalid::LocalTime)),
        }
    }

    /// The range between two wall-clock times of the local calendar, given
    /// what they were mapped to. It is refused where one of the two has no
    /// single moment in UTC.
    pub fn from_local(start: LocalMapping, end: LocalMapping) -> (r: Result<Range, Error>)
        ensures
            built_from(start, end, r),
    {
        let from = Self::moment(start)?;
        let to = Self::moment(end)?;
        Range::new(from, Some(to))
    }

    /// The range from the first second of the day `first` to the last
    /// second of the day `last`, as the local clocks show them.
    pub fn local_days(first: &Date, last: &Date) -> (r: Result<Range, Error>)
        requires
            first.valid(),
            last.valid(),
        ensures
            between_days(first@, last@, r),
            r matches Ok(range) ==> range.valid() && !range@.is_open(),
            r matches Err(e) ==> e is Validation,
    {
        let start = crate::clock::local_moment(first, 0, 0, 0);
        let end = crate::clock::local_moment(last, 23, 59, 59);
        let r = Self::from_local(start, end);
        proof {
            let at_start = choose|offset: LocalOffset|
                offset.within_a_day() && start == #[trigger] mapping_of(
                    wall_clock(first@, 0, 0, 0),
                    offset,
                );
            let at_end = choose|offset: LocalOffset|
                offset.within_a_day() && end == #[trigger] mapping_of(
                    wall_clock(last@, 23, 59, 59),
                    offset,
                );
            assert(at_start.within_a_day() && at_end.within_a_day() && built_from(
                mapping_of(wall_clock(first@, 0, 0, 0), at_start),
                mapping_of(wall_clock(last@, 23, 59, 59), at_end),
                r,
            ));
        }
        r
    }

    /// The range of the given day of the local calendar, from 00:00:00 to
    /// 23:59:59.
    pub fn day(day: &Date) -> (r: Result<Range, Error>)
        requires
            day.valid(),
        ensures
            between_days(day@, day@, r),
            r matches Ok(range) ==> range.valid() && !range@.is_open(),
            r matches Err(e) ==> e is Validation,
    {
        Self::local_days(day, day)
    }

    /// The range of the week of the given day, from Monday, 00:00:00, to
    /// Sunday, 23:59:59.
    pub fn week(day: &Date) -> (r: Result<Range, Error>)
        requires
            day.valid(),
        ensures
            week_answer(day@, r),
            r matches Ok(range) ==> range.valid() && !range@.is_open(),
            r matches Err(e) ==> e is Validation,
    {
        match day.week() {
            Some((monday, sunday)) => Self::local_days(&monday, &sunday),
            None => Err(Error::Validation(Invalid::OutOfRange)),
        }
    }

    /// The range of the month of the given day, from its first day,
    /// 00:00:00, to its last, 23:59:59.
    pub fn month(day: &Date) -> (r: Result<Range, Error>)
        requires
            day.valid(),
        ensures
            between_days(day@.first_of_month(), day@.last_of_month(), r),
            r matches Ok(range) ==> range.valid() && !range@.is_open(),
            r matches Err(e) ==> e is Validation,
    {
        Self::local_days(&day.first_of_month(), &day.last_of_month())
    }

    /// The range that `period` names on the day `today`: the day, the week
    /// or the month of the day that [`Period::day_for`] gives.
    pub fn of_period(period: Period, today: &Date) -> (r: Result<Range, Error>)
        requires
            today.valid(),
        ensures
            period.answer(today@, r),
            r matches Ok(range) ==> range.valid() && !range@.is_open(),
            r matches Err(e) ==> e is Validation,
    {
        let day = match period {
            Period::Today | Period::Week | Period::Month => Some(*today),
            Period::Yesterday => today.pred(),
            Period::LastWeek => today.minus_days(7),
            Period::LastMonth => today.in_previous_month(),
        };
        match day {
            None => Err(Error::Validation(Invalid::OutOfRange)),
            Some(day) => match period {
                Period::Today | Period::Yesterday => Self::day(&day),
                Period::Week | Period::LastWeek => Self::week(&day),
                Period::Month | Period::LastMonth => Self::month(&day),
            },
        }
    }

    /// The range that `period` names on the present day of the local
    /// calendar.
    pub fn from_period(period: Period) -> (r: Result<Range, Error>)
        ensures
            period.answer_some_day(r),
            r matches Ok(range) ==> range.valid() && !range@.is_open(),
            r matches Err(e) ==> e is Validation,
    {
        match crate::clock::today() {
            Some(today) => {
                let r = Self::of_period(period, &today);
                assert(period.answer(today@, r));
                r
            },
            None => Err(Error::Validation(Invalid::OutOfRange)),
        }
    }

    /// The range of the present day.
    pub fn today() -> (r: Result<Range, Error>)
        ensures
            Period::Today.answer_some_day(r),
            r matches Ok(range) ==> range.valid() && !range@.is_open(),
            r matches Err(e) ==> e is Validation,
    {
        Self::from_period(Period::Today)
    }

    /// The range of the day before the present day.
    pub fn yesterday() -> (r: Result<Range, Error>)
        ensures
            Period::Yesterday.answer_some_day(r),
            r matches Ok(range) ==> range.valid() && !range@.is_open(),
            r matches Err(e) ==> e is Validation,
    {
        Self::from_period(Period::Yesterday)
    }

    /// The range of the present week.
    pub fn current_week() -> (r: Result<Range, Error>)
        ensures
            Period::Week.answer_some_day(r),
            r matches Ok(range) ==> range.valid() && !range@.is_open(),
            r matches Err(e) ==> e is Validation,
    {
        Self::from_period(Period::Week)
    }

    /// The range of the week of the day seven days ago.
    pub fn last_week() -> (r: Result<Range, Error>)
        ensures
            Period::LastWeek.answer_some_day(r),
            r matches Ok(range) ==> range.valid() && !range@.is_open(),
            r matches Err(e) ==> e is Validation,
    {
        Self::from_period(Period::LastWeek)
    }

    /// The range of the present month.
    pub fn current_month() -> (r: Result<Range, Error>)
        ensures
            Period::Month.answer_some_day(r),
            r matches Ok(range) ==> range.valid() && !range@.is_open(),
            r matches Err(e) ==> e is Validation,
    {
        Self::from_period(Period::Month)
    }

    /// The range of the month before the present one, which is found by
    /// going back fifteen days at a time until the month changes.
    pub fn last_month() -> (r: Result<Range, Error>)
        ensures
            Period::LastMonth.answer_some_day(r),
            r matches Ok(range) ==> range.valid() && !range@.is_open(),
            r matches Err(e) ==> e is Validation,
    {
        Self::from_period(Period::LastMonth)
    }

    /// Reads a range from a text that holds nothing else, with `now` for
    /// the present moment. There are three ways to write a range: two
    /// moments with ` - ` between them; one moment, for an open range; and a
    /// colon with the name of a period. An open range must have begun a
    /// second before `now` or earlier. A period is looked up in the calendar;
    /// where that fails the text is refused.
    pub fn parse_as_of(text: &str, now: Instant) -> (r: Result<Range, Error>)
        requires
            now.valid(),
        ensures
            read_as(text@, now@, r),
    {
        let length = text.unicode_len();
        match parse_range(text) {
            Some((RangeSyntax::Literal(range), end)) if end == length => {
                if range.is_open() && range.start().nanos() + NANOS_PER_SECOND > now.nanos() {
                    Err(Error::Validation(Invalid::NotBegun))
                } else {
                    Ok(range)
                }
            },
            Some((RangeSyntax::Named(period), end)) if end == length => {
                let found = Range::from_period(period);
                let r = match found {
                    Ok(range) => Ok(range),
                    Err(_) => Err(Error::parse(text)),
                };
                assert(period.answer_some_day(found) && match found {
                    Ok(range) => r == Ok::<Range, Error>(range),
                    Err(_) => r matches Err(e) && e.is_parse_of(None, text@),
                });
                r
            },
            _ => Err(Error::parse(text)),
        }
    }

    /// Reads a range from a text that holds nothing else, as
    /// [`Range::parse_as_of`] does at the moment of the call.
    pub fn parse(text: &str) -> (r: Result<Range, Error>)
        ensures
            exists|now: Instant| now.valid() && #[trigger] read_as(text@, now@, r),
    {
        let now = crate::clock::now();
        let r = Self::parse_as_of(text, now);
        assert(read_as(text@, now@, r));
        r
    }

    /// The span `d` as hours, minutes and seconds: `HH:MM:SS`.
    pub fn pretty_duration(d: &Duration) -> (text: String)
        ensures
            text@ == pretty(d@),
    {
        proof {
            reveal_strlit(":");
        }
        let secs: i128 = d.num_seconds();
        let mut text = String::new();
        if secs >= 0 {
            push_two_digits(&mut text, secs / 3600);
            text.append(":");
            push_two_digits(&mut text, (secs / 60) % 60);
            text.append(":");
            push_two_digits(&mut text, secs % 60);
        } else {
            let s: i128 = -secs;
            push_two_digits(&mut text, -(s / 3600));
            text.append(":");
            push_two_digits(&mut text, -((s / 60) % 60));
            text.append(":");
            push_two_digits(&mut text, -(s % 60));
        }
        assert(text@ =~= pretty(d@));
        text
    }

    /// The text of a range, given the texts of its two ends, `None` for
    /// the end of an open range, and its length.
    pub fn render(from: &str, to: Option<&str>, length: &Duration) -> (text: String)
        ensures
            text@ == rendered(
                from@,
                match to {
                    Some(t) => Some(t@),
                    None => None,
                },
                length@,
            ),
    {
        proof {
            reveal_strlit(" - ");
            reveal_strlit("...");
            reveal_strlit(" [");
            reveal_strlit("]");
        }
        let mut text = String::new();
        text.append(from);
        text.append(" - ");
        match to {
            Some(t) => {
                text.append(t);
            },
            None => {
                text.append("...");
            },
        }
        text.append(" [");
        let length_text = Self::pretty_duration(length);
        text.append(length_text.as_str());
        text.append("]");
        assert(text@ =~= rendered(
            from@,
            match to {
                Some(t) => Some(t@),
                None => None,
            },
            length@,
        ));
        text
    }

    /// The range as a text for a reader: its two ends as the local clocks
    /// show them, `...` for the end of an open range, and its length, with
    /// `now` for the end of an open range.
    pub fn to_text_as_of(&self, now: Instant) -> (text: String)
        requires
            self.valid(),
            now.valid(),
        ensures
            shown_at(self@, now@, text@),
    {
        let from = crate::clock::local_text(self.from);
        let length = self.duration_as_of(now);
        let ghost first = choose|offset: i32|
            zone_offset(offset as int) && from@ == #[trigger] text_shown(self@.from, offset);
        match self.to {
            Some(t) => {
                let to = crate::clock::local_text(t);
                let ghost second = choose|offset: i32|
                    zone_offset(offset as int) && to@ == #[trigger] text_shown(t@, offset);
                let text = Self::render(from.as_str(), Some(to.as_str()), &length);
                assert(zone_offset(first as int) && zone_offset(second as int) && text@
                    == rendered(
                    text_shown(self@.from, first),
                    Some(text_shown(t@, second)),
                    self@.duration_at(now@),
                ));
                text
            },
            None => {
                let text = Self::render(from.as_str(), None, &length);
                assert(zone_offset(first as int) && text@ == rendered(
                    text_shown(self@.from, first),
                    None,
                    self@.duration_at(now@),
                ));
                text
            },
        }
    }

    /// The range as a text for a reader, as [`Range::to_text_as_of`] writes
    /// it at the moment of the call.
    pub fn to_text(&self) -> (text: String)
        requires
            self.valid(),
        ensures
            exists|now: Instant| now.valid() && #[trigger] shown_at(self@, now@, text@),
    {
        let now = crate::clock::now();
        let text = self.to_text_as_of(now);
        assert(shown_at(self@, now@, text@));
        text
    }

    /// How long the range lasts; an open range is taken to end at the
    /// moment of the call.
    pub fn duration(&self) -> (d: Duration)
        requires
            self.valid(),
        ensures
            exists|now: Instant| now.valid() && d@ == #[trigger] self@.duration_at(now@),
    {
        let now = crate::clock::now();
        let d = self.duration_as_of(now);
        assert(d@ == self@.duration_at(now@));
        d
    }

    /// The moments that lie whole days after the beginning of the range
    /// and not after its end; an open range is taken to end at the moment
    /// of the call.
    pub fn days(&self) -> (days: Vec<Instant>)
        requires
            self.valid(),
        ensures
            exists|now: Instant|
                now.valid() && instants_view(days@) == #[trigger] self@.days_until(
                    self@.end_at(now@),
                ),
            forall|k: int| 0 <= k < days@.len() ==> (#[trigger] days@[k]).valid(),
    {
        let now = crate::clock::now();
        let days = self.days_as_of(now);
        assert(instants_view(days@) == self@.days_until(self@.end_at(now@)));
        days
    }

    /// The two halves of the range; an open range is taken to end at the
    /// moment of the call.
    pub fn split(&self) -> (r: Result<(Range, Range), Error>)
        requires
            self.valid(),
        ensures
            exists|now: Instant|
                now.valid() && split_view(r) == #[trigger] self@.split_at(self@.midpoint_at(now@)),
            r matches Ok((first, second)) ==> first.valid() && second.valid(),
            r matches Err(e) ==> e == Error::Validation(Invalid::TooShort),
    {
        let now = crate::clock::now();
        let r = self.split_as_of(now);
        assert(split_view(r) == self@.split_at(self@.midpoint_at(now@)));
        r
    }

    /// The two ranges into which the moment `at` cuts the range, wherever
    /// `at` lies: from the beginning to `at`, and from `at` to the end. It is
    /// refused where one of the two would last less than a second.
    fn parts(&self, at: Instant) -> (r: Result<(Range, Range), Error>)
        requires
            self.valid(),
            at.valid(),
        ensures
            split_view(r) == self@.split_at(at@),
            r matches Ok((first, second)) ==> first.valid() && second.valid(),
            r matches Err(e) ==> e == Error::Validation(Invalid::TooShort),
    {
        let first = Range::new(self.from, Some(at))?;
        let second = Range::new(at, self.to)?;
        Ok((first, second))
    }

    /// The two ranges into which the moment `at` cuts the range: from the
    /// beginning to `at`, and from `at` to the end, which is open where the
    /// range is. The moment `now` stands for the end of an open range. The
    /// cut is refused where `at` lies outside the range, before its
    /// beginning or after its end, and where one of the two parts would
    /// last less than a second.
    pub fn split_at_as_of(&self, at: Instant, now: Instant) -> (r: Result<(Range, Range), Error>)
        requires
            self.valid(),
            at.valid(),
            now.valid(),
        ensures
            split_view(r) == self@.split_within(at@, now@),
            r matches Ok((first, second)) ==> first.valid() && second.valid(),
            r matches Err(e) ==> e == Error::Validation(Invalid::TooShort),
    {
        let end = self.end_at(now);
        if at.nanos() < self.from.nanos() || at.nanos() > end.nanos() {
            return Err(Error::Validation(Invalid::TooShort));
        }
        self.parts(at)
    }

    /// The two ranges into which the moment `at` cuts the range, as
    /// [`Range::split_at_as_of`] gives them; an open range is taken to end at
    /// the moment of the call.
    pub fn split_at(&self, at: Instant) -> (r: Result<(Range, Range), Error>)
        requires
            self.valid(),
            at.valid(),
        ensures
            exists|now: Instant|
                now.valid() && split_view(r) == #[trigger] self@.split_within(at@, now@),
            r matches Ok((first, second)) ==> first.valid() && second.valid(),
            r matches Err(e) ==> e == Error::Validation(Invalid::TooShort),
    {
        let now = crate::clock::now();
        let r = self.split_at_as_of(at, now);
        assert(split_view(r) == self@.split_within(at@, now@));
        r
    }

    /// The two halves of the range, cut at [`Interval::midpoint_at`], with
    /// `now` for the end of an open range.
    pub fn split_as_of(&self, now: Instant) -> (r: Result<(Range, Range), Error>)
        requires
            self.valid(),
            now.valid(),
        ensures
            split_view(r) == self@.split_at(self@.midpoint_at(now@)),
            split_view(r) == self@.split_within(self@.midpoint_at(now@), now@),
            r matches Ok((first, second)) ==> first.valid() && second.valid(),
            r matches Err(e) ==> e == Error::Validation(Invalid::TooShort),
    {
        let length: i128 = self.duration_as_of(now).nanos();
        if length < 0 {
            return Err(Error::Validation(Invalid::TooShort));
        }
        let half: i128 = length / 2;
        match self.from.checked_add(Duration::from_nanos(half)) {
            Some(middle) => self.parts(middle),
            None => Err(Error::Validation(Invalid::TooShort)),
        }
    }
}

/// A cut of a range that ends does not depend on the present moment.
pub proof fn lemma_split_of_closed_range(r: Range, at: int, now: int)
    requires
        r.valid(),
        !r@.is_open(),
    ensures
        r@.split_within(at, now) == r@.split_at(at),
{
}

/// An open range cannot be cut at a moment that has not come yet, nor at
/// one before its beginning; at any other moment it can be cut where the
/// first part lasts a second.
pub proof fn lemma_split_of_open_range(r: Range, at: int, now: int)
    requires
        r@.is_open(),
    ensures
        at > now ==> r@.split_within(at, now) is None,
        r@.split_within(at, now) is Some <==> r@.from + NANOS_PER_SECOND <= at <= now,
{
}

/// Intersection does not depend on the order of the two ranges.
pub proof fn lemma_intersection_commutes(a: Range, b: Range)
    ensures
        a@.intersection(b@) == b@.intersection(a@),
{
}

/// Reading gives back what was written. Let a range end, and let `first`
/// and `second` be texts of its two moments. Then the text made of `first`,
/// ` - ` and `second` is read as that range, whatever the moment `now` of the
/// reading: `r` stands for what [`Range::parse_as_of`] returns.
pub proof fn lemma_reading_gives_back(
    range: Range,
    first: Seq<char>,
    second: Seq<char>,
    now: int,
    r: Result<Range, Error>,
)
    requires
        range.valid(),
        literal_value(first) == Some(range@.from),
        literal_value(second) is Some,
        literal_value(second) == range@.to,
        read_as(first + range_separator() + second, now, r),
    ensures
        r == Ok::<Range, Error>(range),
{
    lemma_written_range_is_read(first, second);
    Range::lemma_view_injective(r->Ok_0, range);
}

/// Intersection gives the same range, or nothing, in either order of the
/// two ranges: `ab` and `ba` stand for what [`Range::intersection`] returns
/// for the two orders.
pub proof fn lemma_intersections_agree(a: Range, b: Range, ab: Option<Range>, ba: Option<Range>)
    requires
        range_view(ab) == a@.intersection(b@),
        range_view(ba) == b@.intersection(a@),
    ensures
        ab == ba,
{
    if ab is Some {
        Range::lemma_view_injective(ab->0, ba->0);
    }
}

/// Two ranges of which one ends at the moment at which the other begins
/// have nothing in common.
pub proof fn lemma_abutting_ranges_do_not_intersect(a: Range, b: Range)
    requires
        a.valid(),
        b.valid(),
        a@.to == Some(b@.from),
    ensures
        a@.intersection(b@) is None,
        b@.intersection(a@) is None,
{
}

/// What an open range has in common with itself is the range itself.
pub proof fn lemma_open_range_meets_itself(a: Range)
    requires
        a@.is_open(),
    ensures
        a@.intersection(a@) == Some(a@),
{
}

/// What two open ranges have in common is the open range that begins at
/// the later of the two beginnings.
pub proof fn lemma_open_ranges_intersect(a: Range, b: Range)
    requires
        a@.is_open(),
        b@.is_open(),
    ensures
        a@.intersection(b@) == Some(Interval { from: later(a@.from, b@.from), to: None }),
{
}

/// The two parts of a split range put together give the range again: the
/// first begins where the range begins, the second ends where the range
/// ends, and the first ends where the second begins.
pub proof fn lemma_split_recomposes(r: Range, at: int, first: Interval, second: Interval)
    requires
        r@.split_at(at) == Some((first, second)),
    ensures
        first.from == r@.from,
        first.to == Some(second.from),
        second.to == r@.to,
        second.from == at,
{
}

/// A range can be cut in halves where it lasts two seconds or more, and
/// only there; `now` stands for the end of an open range.
pub proof fn lemma_halves_need_two_seconds(r: Range, now: int)
    requires
        r.valid(),
    ensures
        r@.split_at(r@.midpoint_at(now)) is Some <==> r@.duration_at(now) >= 2 * NANOS_PER_SECOND,
{
}

/// The two parts of a range that was cut at a moment within it put
/// together give the range again.
pub proof fn lemma_cut_recomposes(r: Range, at: int, now: int, first: Interval, second: Interval)
    requires
        r@.split_within(at, now) == Some((first, second)),
    ensures
        first.from == r@.from,
        first.to == Some(second.from),
        second.to == r@.to,
        second.from == at,
{
}

/// A moment that cuts a range in two lies inside it, at least a second
/// after its beginning and, where it ends, at least a second before its end.
pub proof fn lemma_split_point_lies_inside(r: Range, at: int)
    requires
        r@.split_at(at) is Some,
    ensures
        r@.from + NANOS_PER_SECOND <= at,
        r@.to matches Some(to) ==> at + NANOS_PER_SECOND <= to,
{
}

impl std::str::FromStr for Range {
    type Err = Error;

    /// Reads a range as [`Range::parse`] does.
    fn from_str(text: &str) -> (r: Result<Range, Error>)
        ensures
            exists|now: Instant| now.valid() && #[trigger] read_as(text@, now@, r),
    {
        Range::parse(text)
    }
}

} // verus!
