//! Calendar dates and day arithmetic.
//!
//! Dates are plain `(year, month, day)` triples in the proleptic Gregorian
//! calendar, restricted to years 1 through 9999 — the range the journal's
//! ten-character day headers can represent.

use vstd::prelude::*;

verus! {

/// A calendar date, valid when `valid()` holds.
#[derive(Clone, Copy, Debug, PartialEq, Eq, Structural, Hash)]
pub struct Date {
    pub year: u32,
    pub month: u32,
    pub day: u32,
}

pub open spec fn is_leap_year(y: int) -> bool {
    (y % 4 == 0 && y % 100 != 0) || y % 400 == 0
}

pub open spec fn spec_days_in_month(y: int, m: int) -> int {
    if m == 2 {
        if is_leap_year(y) {
            29
        } else {
            28
        }
    } else if m == 4 || m == 6 || m == 9 || m == 11 {
        30
    } else {
        31
    }
}

/// Total order on dates as a single integer key.
pub open spec fn date_key(d: Date) -> int {
    d.year * 10000 + d.month * 100 + d.day
}

impl Date {
    pub open spec fn valid(self) -> bool {
        &&& 1 <= self.year <= 9999
        &&& 1 <= self.month <= 12
        &&& 1 <= self.day <= spec_days_in_month(self.year as int, self.month as int)
    }
}

pub fn leap_year(y: u32) -> (r: bool)
    ensures
        r == is_leap_year(y as int),
{
    (y % 4 == 0 && y % 100 != 0) || y % 400 == 0
}

pub fn days_in_month(y: u32, m: u32) -> (r: u32)
    requires
        1 <= m <= 12,
    ensures
        r == spec_days_in_month(y as int, m as int),
{
    if m == 2 {
        if leap_year(y) {
            29
        } else {
            28
        }
    } else if m == 4 || m == 6 || m == 9 || m == 11 {
        30
    } else {
        31
    }
}

impl Date {
    /// Builds a date from its parts, or `None` when they name no real day.
    pub fn from_ymd(year: u32, month: u32, day: u32) -> (r: Option<Date>)
        ensures
            (Date { year, month, day }).valid() ==> r == Some(Date { year, month, day }),
            !(Date { year, month, day }).valid() ==> r is None,
            r is Some ==> r->0.valid() && r->0 == (Date { year, month, day }),
    {
        if 1 <= year && year <= 9999 && 1 <= month && month <= 12 && 1 <= day && day
            <= days_in_month(year, month) {
            Some(Date { year, month, day })
        } else {
            None
        }
    }

    /// The last day of this date's month.
    pub fn last_day_of_month(self) -> (r: u32)
        requires
            self.valid(),
        ensures
            r == spec_days_in_month(self.year as int, self.month as int),
    {
        days_in_month(self.year, self.month)
    }
}

/// `a` is strictly before `b`.
pub fn date_lt(a: Date, b: Date) -> (r: bool)
    requires
        a.valid(),
        b.valid(),
    ensures
        r == (date_key(a) < date_key(b)),
{
    a.year * 10000 + a.month * 100 + a.day < b.year * 10000 + b.month * 100 + b.day
}

/// `a` is on or before `b`.
pub fn date_le(a: Date, b: Date) -> (r: bool)
    requires
        a.valid(),
        b.valid(),
    ensures
        r == (date_key(a) <= date_key(b)),
{
    a.year * 10000 + a.month * 100 + a.day <= b.year * 10000 + b.month * 100 + b.day
}

/// The day after `d`, or `None` past the supported year range.
pub open spec fn spec_next_day(d: Date) -> Option<Date> {
    if d.day < spec_days_in_month(d.year as int, d.month as int) {
        Some(Date { year: d.year, month: d.month, day: (d.day + 1) as u32 })
    } else if d.month < 12 {
        Some(Date { year: d.year, month: (d.month + 1) as u32, day: 1 })
    } else if d.year < 9999 {
        Some(Date { year: (d.year + 1) as u32, month: 1, day: 1 })
    } else {
        None
    }
}

/// The day before `d`, or `None` before the supported year range.
pub open spec fn spec_prev_day(d: Date) -> Option<Date> {
    if d.day > 1 {
        Some(Date { year: d.year, month: d.month, day: (d.day - 1) as u32 })
    } else if d.month > 1 {
        Some(
            Date {
                year: d.year,
                month: (d.month - 1) as u32,
                day: spec_days_in_month(d.year as int, d.month as int - 1) as u32,
            },
        )
    } else if d.year > 1 {
        Some(Date { year: (d.year - 1) as u32, month: 12, day: 31 })
    } else {
        None
    }
}

pub fn next_day(d: Date) -> (r: Option<Date>)
    requires
        d.valid(),
    ensures
        r == spec_next_day(d),
        r is Some ==> r->0.valid(),
{
    if d.day < days_in_month(d.year, d.month) {
        Some(Date { year: d.year, month: d.month, day: d.day + 1 })
    } else if d.month < 12 {
        Some(Date { year: d.year, month: d.month + 1, day: 1 })
    } else if d.year < 9999 {
        Some(Date { year: d.year + 1, month: 1, day: 1 })
    } else {
        None
    }
}

pub fn prev_day(d: Date) -> (r: Option<Date>)
    requires
        d.valid(),
    ensures
        r == spec_prev_day(d),
        r is Some ==> r->0.valid(),
{
    if d.day > 1 {
        Some(Date { year: d.year, month: d.month, day: d.day - 1 })
    } else if d.month > 1 {
        Some(Date { year: d.year, month: d.month - 1, day: days_in_month(d.year, d.month - 1) })
    } else if d.year > 1 {
        Some(Date { year: d.year - 1, month: 12, day: 31 })
    } else {
        None
    }
}

/// `d` advanced by `n` days, `None` once the year range runs out.
pub open spec fn spec_add_days(d: Date, n: nat) -> Option<Date>
    decreases n,
{
    if n == 0 {
        Some(d)
    } else {
        match spec_next_day(d) {
            Some(e) => spec_add_days(e, (n - 1) as nat),
            None => None,
        }
    }
}

/// `d` moved back by `n` days, `None` once the year range runs out.
pub open spec fn spec_sub_days(d: Date, n: nat) -> Option<Date>
    decreases n,
{
    if n == 0 {
        Some(d)
    } else {
        match spec_prev_day(d) {
            Some(e) => spec_sub_days(e, (n - 1) as nat),
            None => None,
        }
    }
}

pub fn add_days(d: Date, n: u64) -> (r: Option<Date>)
    requires
        d.valid(),
    ensures
        r == spec_add_days(d, n as nat),
        r is Some ==> r->0.valid(),
{
    let mut cur = d;
    let mut i: u64 = 0;
    while i < n
        invariant
            d.valid(),
            cur.valid(),
            i <= n,
            spec_add_days(d, n as nat) == spec_add_days(cur, (n - i) as nat),
        decreases n - i,
    {
        match next_day(cur) {
            Some(e) => {
                cur = e;
                i = i + 1;
            },
            None => {
                return None;
            },
        }
    }
    Some(cur)
}

pub fn sub_days(d: Date, n: u64) -> (r: Option<Date>)
    requires
        d.valid(),
    ensures
        r == spec_sub_days(d, n as nat),
        r is Some ==> r->0.valid(),
{
    let mut cur = d;
    let mut i: u64 = 0;
    while i < n
        invariant
            d.valid(),
            cur.valid(),
            i <= n,
            spec_sub_days(d, n as nat) == spec_sub_days(cur, (n - i) as nat),
        decreases n - i,
    {
        match prev_day(cur) {
            Some(e) => {
                cur = e;
                i = i + 1;
            },
            None => {
                return None;
            },
        }
    }
    Some(cur)
}

/// Days of the week, counted from Monday as in the weekday arithmetic below.
#[derive(Clone, Copy, Debug, PartialEq, Eq, Structural, Hash)]
pub enum Weekday {
    Mon,
    Tue,
    Wed,
    Thu,
    Fri,
    Sat,
    Sun,
}

/// Index of a weekday, Monday = 0 through Sunday = 6.
pub open spec fn weekday_number(w: Weekday) -> int {
    match w {
        Weekday::Mon => 0,
        Weekday::Tue => 1,
        Weekday::Wed => 2,
        Weekday::Thu => 3,
        Weekday::Fri => 4,
        Weekday::Sat => 5,
        Weekday::Sun => 6,
    }
}

pub fn num_days_from_monday(w: Weekday) -> (r: u32)
    ensures
        r == weekday_number(w),
{
    match w {
        Weekday::Mon => 0,
        Weekday::Tue => 1,
        Weekday::Wed => 2,
        Weekday::Thu => 3,
        Weekday::Fri => 4,
        Weekday::Sat => 5,
        Weekday::Sun => 6,
    }
}

/// Zeller's congruence, shifted so that Monday is 0 and Sunday is 6.
pub open spec fn spec_weekday_index(d: Date) -> int {
    let y = if d.month <= 2 {
        d.year - 1
    } else {
        d.year as int
    };
    let m = if d.month <= 2 {
        d.month + 12
    } else {
        d.month as int
    };
    let k = y % 100;
    let j = y / 100;
    let h = (d.day + (13 * (m + 1)) / 5 + k + k / 4 + j / 4 + 5 * j) % 7;
    (h + 5) % 7
}

pub open spec fn weekday_from_index(i: int) -> Weekday {
    if i == 0 {
        Weekday::Mon
    } else if i == 1 {
        Weekday::Tue
    } else if i == 2 {
        Weekday::Wed
    } else if i == 3 {
        Weekday::Thu
    } else if i == 4 {
        Weekday::Fri
    } else if i == 5 {
        Weekday::Sat
    } else {
        Weekday::Sun
    }
}

pub open spec fn spec_weekday(d: Date) -> Weekday {
    weekday_from_index(spec_weekday_index(d))
}

/// The weekday `d` falls on.
pub fn weekday(d: Date) -> (r: Weekday)
    requires
        d.valid(),
    ensures
        r == spec_weekday(d),
{
    let y: u32 = if d.month <= 2 {
        d.year - 1
    } else {
        d.year
    };
    let m: u32 = if d.month <= 2 {
        d.month + 12
    } else {
        d.month
    };
    let k: u32 = y % 100;
    let j: u32 = y / 100;
    let h: u32 = (d.day + (13 * (m + 1)) / 5 + k + k / 4 + j / 4 + 5 * j) % 7;
    let idx: u32 = (h + 5) % 7;
    if idx == 0 {
        Weekday::Mon
    } else if idx == 1 {
        Weekday::Tue
    } else if idx == 2 {
        Weekday::Wed
    } else if idx == 3 {
        Weekday::Thu
    } else if idx == 4 {
        Weekday::Fri
    } else if idx == 5 {
        Weekday::Sat
    } else {
        Weekday::Sun
    }
}

} // verus!
