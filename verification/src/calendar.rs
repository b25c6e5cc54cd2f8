//! Calendar dates of the proleptic Gregorian calendar.
//!
//! A [`Date`] names a day by year, month and day of month. The years are
//! numbered astronomically: the year 0 comes before the year 1.

use vstd::prelude::*;
use chrono::Datelike;

verus! {

/// The first year that a [`Date`] can lie in.
pub const MIN_YEAR: i32 = -262_143;

/// The last year that a [`Date`] can lie in.
pub const MAX_YEAR: i32 = 262_142;

/// Whether `year` has a 29 February.
pub open spec fn is_leap_year(year: int) -> bool {
    year % 4 == 0 && (year % 100 != 0 || year % 400 == 0)
}

/// The number of days of the given month; 0 where `month` is no month.
pub open spec fn days_in_month(year: int, month: int) -> int {
    if month == 2 {
        if is_leap_year(year) {
            29
        } else {
            28
        }
    } else if month == 4 || month == 6 || month == 9 || month == 11 {
        30
    } else if 1 <= month <= 12 {
        31
    } else {
        0
    }
}

/// A calendar date as three numbers: what a [`Date`] stands for.
pub ghost struct Civil {
    pub year: int,
    pub month: int,
    pub day: int,
}

impl Civil {
    /// Whether the three numbers name a day of the calendar, whatever the
    /// year.
    pub open spec fn on_calendar(self) -> bool {
        &&& 1 <= self.month <= 12
        &&& 1 <= self.day <= days_in_month(self.year, self.month)
    }

    /// Whether the three numbers name a day that a [`Date`] can hold.
    pub open spec fn valid(self) -> bool {
        &&& MIN_YEAR <= self.year <= MAX_YEAR
        &&& self.on_calendar()
    }

    /// The day before.
    pub open spec fn pred(self) -> Civil {
        if self.day > 1 {
            Civil { day: self.day - 1, ..self }
        } else if self.month > 1 {
            Civil {
                year: self.year,
                month: self.month - 1,
                day: days_in_month(self.year, self.month - 1),
            }
        } else {
            Civil { year: self.year - 1, month: 12, day: 31 }
        }
    }

    /// The day after.
    pub open spec fn succ(self) -> Civil {
        if self.day < days_in_month(self.year, self.month) {
            Civil { day: self.day + 1, ..self }
        } else if self.month < 12 {
            Civil { year: self.year, month: self.month + 1, day: 1 }
        } else {
            Civil { year: self.year + 1, month: 1, day: 1 }
        }
    }

    /// The day `n` days before.
    pub open spec fn minus_days(self, n: nat) -> Civil
        decreases n,
    {
        if n == 0 {
            self
        } else {
            self.pred().minus_days((n - 1) as nat)
        }
    }

    /// The day `n` days after.
    pub open spec fn plus_days(self, n: nat) -> Civil
        decreases n,
    {
        if n == 0 {
            self
        } else {
            self.succ().plus_days((n - 1) as nat)
        }
    }

    /// The first day of the month that the date lies in.
    pub open spec fn first_of_month(self) -> Civil {
        Civil { day: 1, ..self }
    }

    /// The last day of the month that the date lies in.
    pub open spec fn last_of_month(self) -> Civil {
        Civil { day: days_in_month(self.year, self.month), ..self }
    }

    /// Whether `other` lies in the month before the one of this date.
    pub open spec fn month_precedes(self, other: Civil) -> bool {
        if self.month > 1 {
            other.year == self.year && other.month == self.month - 1
        } else {
            other.year == self.year - 1 && other.month == 12
        }
    }

    /// The number of jumps of fifteen days that lead from this date back
    /// into the month before.
    pub open spec fn jumps_to_previous_month(self) -> nat {
        if self.day <= 15 {
            1
        } else if self.day <= 30 {
            2
        } else {
            3
        }
    }
}

/// Going back fewer days than the day of month stays within the month.
pub proof fn lemma_minus_days_within_month(c: Civil, n: nat)
    requires
        c.on_calendar(),
        n < c.day,
    ensures
        c.minus_days(n) == (Civil { day: c.day - n, ..c }),
    decreases n,
{
    if n > 0 {
        lemma_minus_days_within_month(c.pred(), (n - 1) as nat);
    }
}

/// Going back `a` days and then `b` days is going back `a + b` days.
pub proof fn lemma_minus_days_sum(c: Civil, a: nat, b: nat)
    ensures
        c.minus_days(a).minus_days(b) == c.minus_days(a + b),
    decreases a,
{
    if a > 0 {
        lemma_minus_days_sum(c.pred(), (a - 1) as nat, b);
    }
}

/// The day before a day of the calendar is a day of the calendar, and not
/// in a later year.
pub proof fn lemma_pred_on_calendar(c: Civil)
    requires
        c.on_calendar(),
    ensures
        c.pred().on_calendar(),
        c.year - 1 <= c.pred().year <= c.year,
{
}

/// The day after a day of the calendar is a day of the calendar, and not
/// in an earlier year.
pub proof fn lemma_succ_on_calendar(c: Civil)
    requires
        c.on_calendar(),
    ensures
        c.succ().on_calendar(),
        c.year <= c.succ().year <= c.year + 1,
{
}

/// Going back never reaches a later year: once before the first year, the
/// walk stays there.
pub proof fn lemma_minus_days_on_calendar(c: Civil, n: nat)
    requires
        c.on_calendar(),
    ensures
        c.minus_days(n).on_calendar(),
        c.minus_days(n).year <= c.year,
    decreases n,
{
    if n > 0 {
        lemma_pred_on_calendar(c);
        lemma_minus_days_on_calendar(c.pred(), (n - 1) as nat);
    }
}

/// Going forward never reaches an earlier year.
pub proof fn lemma_plus_days_on_calendar(c: Civil, n: nat)
    requires
        c.on_calendar(),
    ensures
        c.plus_days(n).on_calendar(),
        c.plus_days(n).year >= c.year,
    decreases n,
{
    if n > 0 {
        lemma_succ_on_calendar(c);
        lemma_plus_days_on_calendar(c.succ(), (n - 1) as nat);
    }
}

/// Going back one day more is going back one more day.
pub proof fn lemma_minus_days_step(c: Civil, n: nat)
    ensures
        c.minus_days(n + 1) == c.minus_days(n).pred(),
    decreases n,
{
    if n > 0 {
        lemma_minus_days_step(c.pred(), (n - 1) as nat);
    } else {
        assert(c.minus_days(1) == c.pred().minus_days(0));
    }
}

/// Going forward one day more is going forward one more day.
pub proof fn lemma_plus_days_step(c: Civil, n: nat)
    ensures
        c.plus_days(n + 1) == c.plus_days(n).succ(),
    decreases n,
{
    if n > 0 {
        lemma_plus_days_step(c.succ(), (n - 1) as nat);
    } else {
        assert(c.plus_days(1) == c.succ().plus_days(0));
    }
}

/// The day of the week of a date as `chrono` counts it, from 0 for Monday
/// to 6 for Sunday; `None` where `chrono` has no such date.
pub uninterp spec fn weekday_of(year: i32, month: u32, day: u32) -> Option<u32>;

/// Asks `chrono` for the day of the week: `NaiveDate::from_ymd_opt` makes
/// the date, `Datelike::weekday` and `Weekday::num_days_from_monday` give
/// the number. The answer depends on the three numbers alone, and
/// `chrono`'s table of the numbers ends at 6 for Sunday.
#[verifier::external_body]
fn chrono_weekday(year: i32, month: u32, day: u32) -> (r: Option<u32>)
    ensures
        r == weekday_of(year, month, day),
        r matches Some(w) ==> w < 7,
{
    match chrono::NaiveDate::from_ymd_opt(year, month, day) {
        Some(date) => Some(date.weekday().num_days_from_monday()),
        None => None,
    }
}

impl Civil {
    /// The Monday and the Sunday of the week of a date that lies
    /// `days_from_monday` days after a Monday.
    pub open spec fn week_of(self, days_from_monday: nat) -> (Civil, Civil) {
        (self.minus_days(days_from_monday), self.minus_days(days_from_monday).plus_days(6))
    }
}

/// A day of the calendar.
#[derive(Clone, Copy, Debug, PartialEq, Eq, Structural, Hash)]
pub struct Date {
    year: i32,
    month: u8,
    day: u8,
}

impl View for Date {
    type V = Civil;

    closed spec fn view(&self) -> Civil {
        Civil { year: self.year as int, month: self.month as int, day: self.day as int }
    }
}

/// Whether `year` has a 29 February.
pub fn leap_year(year: i32) -> (leap: bool)
    ensures
        leap == is_leap_year(year as int),
{
    year % 4 == 0 && (year % 100 != 0 || year % 400 == 0)
}

/// The number of days of the given month; 0 where `month` is no month.
pub fn month_length(year: i32, month: u8) -> (n: u8)
    ensures
        n == days_in_month(year as int, month as int),
{
    if month == 2 {
        if leap_year(year) {
            29
        } else {
            28
        }
    } else if month == 4 || month == 6 || month == 9 || month == 11 {
        30
    } else if 1 <= month && month <= 12 {
        31
    } else {
        0
    }
}

impl Date {
    /// Whether the date is a day that the library handles.
    pub open spec fn valid(&self) -> bool {
        self@.valid()
    }

    /// The date with the given year, month and day of month, or `None`
    /// where the calendar has no such day.
    pub fn new(year: i32, month: u32, day: u32) -> (r: Option<Date>)
        ensures
            r is Some <==> (Civil { year: year as int, month: month as int, day: day as int })
                .valid(),
            r matches Some(d) ==> d@ == (Civil {
                year: year as int,
                month: month as int,
                day: day as int,
            }),
    {
        if year < MIN_YEAR || year > MAX_YEAR || month < 1 || month > 12 || day < 1 || day > 31 {
            return None;
        }
        let m: u8 = month as u8;
        let d: u8 = day as u8;
        if d > month_length(year, m) {
            None
        } else {
            Some(Date { year, month: m, day: d })
        }
    }

    /// The year.
    pub fn year(&self) -> (y: i32)
        ensures
            y == self@.year,
    {
        self.year
    }

    /// The month, from 1 for January.
    pub fn month(&self) -> (m: u32)
        ensures
            m == self@.month,
    {
        self.month as u32
    }

    /// The day of the month, from 1.
    pub fn day(&self) -> (d: u32)
        ensures
            d == self@.day,
    {
        self.day as u32
    }

    /// The day before; `None` before the first day that the library handles.
    pub fn pred(&self) -> (r: Option<Date>)
        requires
            self.valid(),
        ensures
            r is Some <==> self@.pred().valid(),
            r matches Some(d) ==> d@ == self@.pred(),
    {
        if self.day > 1 {
            Some(Date { year: self.year, month: self.month, day: self.day - 1 })
        } else if self.month > 1 {
            let m: u8 = self.month - 1;
            Some(Date { year: self.year, month: m, day: month_length(self.year, m) })
        } else if self.year > MIN_YEAR {
            Some(Date { year: self.year - 1, month: 12, day: 31 })
        } else {
            None
        }
    }

    /// The day after; `None` after the last day that the library handles.
    pub fn succ(&self) -> (r: Option<Date>)
        requires
            self.valid(),
        ensures
            r is Some <==> self@.succ().valid(),
            r matches Some(d) ==> d@ == self@.succ(),
    {
        if self.day < month_length(self.year, self.month) {
            Some(Date { year: self.year, month: self.month, day: self.day + 1 })
        } else if self.month < 12 {
            Some(Date { year: self.year, month: self.month + 1, day: 1 })
        } else if self.year < MAX_YEAR {
            Some(Date { year: self.year + 1, month: 1, day: 1 })
        } else {
            None
        }
    }

    /// The day `n` days before; `None` where that lies before the first
    /// day that the library handles.
    pub fn minus_days(&self, n: u32) -> (r: Option<Date>)
        requires
            self.valid(),
        ensures
            r is Some <==> self@.minus_days(n as nat).valid(),
            r matches Some(d) ==> d@ == self@.minus_days(n as nat),
    {
        let mut current = *self;
        let mut i: u32 = 0;
        while i < n
            invariant
                i <= n,
                current.valid(),
                current@ == self@.minus_days(i as nat),
                self@.on_calendar(),
            decreases n - i,
        {
            proof {
                lemma_minus_days_step(self@, i as nat);
            }
            match current.pred() {
                Some(d) => {
                    current = d;
                },
                None => {
                    proof {
                        let gone = self@.minus_days((i + 1) as nat);
                        lemma_minus_days_sum(self@, (i + 1) as nat, (n - i - 1) as nat);
                        lemma_minus_days_on_calendar(self@, (i + 1) as nat);
                        lemma_minus_days_on_calendar(gone, (n - i - 1) as nat);
                    }
                    return None;
                },
            }
            i = i + 1;
        }
        Some(current)
    }

    /// The day `n` days after; `None` where that lies after the last day
    /// that the library handles.
    pub fn plus_days(&self, n: u32) -> (r: Option<Date>)
        requires
            self.valid(),
        ensures
            r is Some <==> self@.plus_days(n as nat).valid(),
            r matches Some(d) ==> d@ == self@.plus_days(n as nat),
    {
        let mut current = *self;
        let mut i: u32 = 0;
        while i < n
            invariant
                i <= n,
                current.valid(),
                current@ == self@.plus_days(i as nat),
                self@.on_calendar(),
            decreases n - i,
        {
            proof {
                lemma_plus_days_step(self@, i as nat);
            }
            match current.succ() {
                Some(d) => {
                    current = d;
                },
                None => {
                    proof {
                        let gone = self@.plus_days((i + 1) as nat);
                        lemma_plus_days_sum(self@, (i + 1) as nat, (n - i - 1) as nat);
                        lemma_plus_days_on_calendar(self@, (i + 1) as nat);
                        lemma_plus_days_on_calendar(gone, (n - i - 1) as nat);
                    }
                    return None;
                },
            }
            i = i + 1;
        }
        Some(current)
    }

    /// The first day of the month that the date lies in.
    pub fn first_of_month(&self) -> (r: Date)
        requires
            self.valid(),
        ensures
            r.valid(),
            r@ == self@.first_of_month(),
    {
        Date { year: self.year, month: self.month, day: 1 }
    }

    /// The last day of the month that the date lies in.
    pub fn last_of_month(&self) -> (r: Date)
        requires
            self.valid(),
        ensures
            r.valid(),
            r@ == self@.last_of_month(),
    {
        Date { year: self.year, month: self.month, day: month_length(self.year, self.month) }
    }

    /// The number of days since the last Monday, 0 on a Monday; `None`
    /// where `chrono` does not know the date.
    pub fn days_from_monday(&self) -> (r: Option<u32>)
        ensures
            r == weekday_of(self@.year as i32, self@.month as u32, self@.day as u32),
            r matches Some(w) ==> w < 7,
    {
        chrono_weekday(self.year, self.month as u32, self.day as u32)
    }

    /// The Monday and the Sunday of the week of this date, given that the
    /// date lies `days_from_monday` days after a Monday; `None` where one of
    /// the two lies outside the days that the library handles.
    pub fn week_of(&self, days_from_monday: u32) -> (r: Option<(Date, Date)>)
        requires
            self.valid(),
        ensures
            r is Some <==> self@.week_of(days_from_monday as nat).0.valid() && self@.week_of(
                days_from_monday as nat,
            ).1.valid(),
            r matches Some((monday, sunday)) ==> {
                &&& monday.valid()
                &&& sunday.valid()
                &&& (monday@, sunday@) == self@.week_of(days_from_monday as nat)
            },
    {
        match self.minus_days(days_from_monday) {
            Some(monday) => match monday.plus_days(6) {
                Some(sunday) => Some((monday, sunday)),
                None => None,
            },
            None => None,
        }
    }

    /// The Monday and the Sunday of the week of this date; `None` where
    /// `chrono` does not know the date or one of the two lies outside the
    /// days that the library handles.
    pub fn week(&self) -> (r: Option<(Date, Date)>)
        requires
            self.valid(),
        ensures
            match weekday_of(self@.year as i32, self@.month as u32, self@.day as u32) {
                Some(w) => {
                    &&& r is Some <==> self@.week_of(w as nat).0.valid() && self@.week_of(
                        w as nat,
                    ).1.valid()
                    &&& r matches Some((monday, sunday)) ==> {
                        &&& monday.valid()
                        &&& sunday.valid()
                        &&& (monday@, sunday@) == self@.week_of(w as nat)
                    }
                },
                None => r is None,
            },
    {
        match self.days_from_monday() {
            Some(w) => self.week_of(w),
            None => None,
        }
    }

    /// A day of the month before, found by going back fifteen days at a
    /// time until the month changes; `None` where that month lies before
    /// the first day that the library handles.
    pub fn in_previous_month(&self) -> (r: Option<Date>)
        requires
            self.valid(),
        ensures
            r is Some <==> self@.minus_days(15 * self@.jumps_to_previous_month()).valid(),
            r matches Some(d) ==> {
                &&& d@ == self@.minus_days(15 * self@.jumps_to_previous_month())
                &&& self@.month_precedes(d@)
            },
    {
        let mut current = *self;
        let mut jumps: u32 = 0;
        while current.year == self.year && current.month == self.month
            invariant
                self.valid(),
                current.valid(),
                jumps <= 3,
                current@ == self@.minus_days((15 * jumps) as nat),
                current@.year == self@.year && current@.month == self@.month ==> {
                    &&& current@.day == self@.day - 15 * jumps
                    &&& jumps < self@.jumps_to_previous_month()
                },
                !(current@.year == self@.year && current@.month == self@.month) ==> {
                    &&& jumps == self@.jumps_to_previous_month()
                    &&& self@.month_precedes(current@)
                },
            decreases 3 - jumps,
        {
            proof {
                lemma_minus_days_sum(self@, (15 * jumps) as nat, 15);
                lemma_back_fifteen(current@);
            }
            match current.minus_days(15) {
                Some(d) => {
                    current = d;
                },
                None => {
                    proof {
                        lemma_leaving_range_is_last_jump(self@, jumps as nat);
                    }
                    return None;
                },
            }
            jumps = jumps + 1;
        }
        Some(current)
    }
}

/// Going forward `a` days and then `b` days is going forward `a + b` days.
pub proof fn lemma_plus_days_sum(c: Civil, a: nat, b: nat)
    ensures
        c.plus_days(a).plus_days(b) == c.plus_days(a + b),
    decreases a,
{
    if a > 0 {
        lemma_plus_days_sum(c.succ(), (a - 1) as nat, b);
    }
}

/// Fifteen days before a date lies in the same month where the day of
/// month is above fifteen, and in the month before where it is not.
pub proof fn lemma_back_fifteen(c: Civil)
    requires
        c.on_calendar(),
    ensures
        c.day > 15 ==> c.minus_days(15) == (Civil { day: c.day - 15, ..c }),
        c.day <= 15 ==> c.month_precedes(c.minus_days(15)),
        c.day <= 15 ==> c.minus_days(15).day >= 13,
{
    if c.day > 15 {
        lemma_minus_days_within_month(c, 15);
    } else {
        let back = (c.day - 1) as nat;
        lemma_minus_days_within_month(c, back);
        let first = c.minus_days(back);
        assert(first == Civil { day: 1, ..c });
        let last = first.pred();
        let rest = (15 - c.day) as nat;
        assert(c.minus_days(back + 1) == last) by {
            lemma_minus_days_step(c, back);
        }
        assert(last.on_calendar());
        assert(last.day >= 28);
        lemma_minus_days_within_month(last, rest);
        lemma_minus_days_sum(c, back + 1, rest);
    }
}

/// Where a jump of fifteen days from within the month leaves the days that
/// the library handles, it is the jump that leaves the month.
proof fn lemma_leaving_range_is_last_jump(c: Civil, jumps: nat)
    requires
        c.valid(),
        jumps <= 3,
        c.minus_days(15 * jumps).valid(),
        c.minus_days(15 * jumps).year == c.year,
        c.minus_days(15 * jumps).month == c.month,
        c.minus_days(15 * jumps).day == c.day - 15 * jumps,
        jumps < c.jumps_to_previous_month(),
        !c.minus_days(15 * jumps).minus_days(15).valid(),
    ensures
        jumps + 1 == c.jumps_to_previous_month(),
        !c.minus_days(15 * c.jumps_to_previous_month()).valid(),
{
    let current = c.minus_days(15 * jumps);
    lemma_back_fifteen(current);
    lemma_minus_days_sum(c, 15 * jumps, 15);
}

} // verus!
