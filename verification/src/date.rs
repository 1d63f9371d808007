//! Naive calendar timestamps (no timezone) in the proleptic Gregorian
//! calendar, restricted to years 0 through 9999, together with the
//! calendar-correct arithmetic the time-phrase recognizer needs.

use vstd::prelude::*;

verus! {

/// Largest year the library supports; arithmetic that would leave this
/// range reports failure instead of wrapping.
pub const MAX_YEAR: u32 = 9999;

/// A naive date and time-of-day: no timezone, second precision.
#[derive(Clone, Copy, PartialEq, Eq, Structural, Debug)]
pub struct DateTime {
    pub year: u32,
    pub month: u8,
    pub day: u8,
    pub hour: u8,
    pub minute: u8,
    pub second: u8,
}

pub open spec fn is_leap_year(y: int) -> bool {
    (y % 4 == 0 && y % 100 != 0) || y % 400 == 0
}

pub open spec fn days_in_month(y: int, m: int) -> int {
    if m == 2 {
        if is_leap_year(y) {
            29
        } else {
            28
        }
    } else if m == 4 || m == 6 || m == 9 || m == 11 {
        30
    } else {
        31
    }
}

pub open spec fn days_in_year(y: int) -> int {
    if is_leap_year(y) {
        366
    } else {
        365
    }
}

/// Number of days in all years before `y`, counted from year 0.
pub open spec fn days_before_year(y: int) -> int
    decreases y,
{
    if y <= 0 {
        0
    } else {
        days_before_year(y - 1) + days_in_year(y - 1)
    }
}

/// Number of days in the months of year `y` that precede month `m`.
pub open spec fn days_before_month(y: int, m: int) -> int
    decreases m,
{
    if m <= 1 {
        0
    } else {
        days_before_month(y, m - 1) + days_in_month(y, m - 1)
    }
}

/// Day number of a calendar date, with year 0, January 1st as day 0.
pub open spec fn day_index(y: int, m: int, d: int) -> int {
    days_before_year(y) + days_before_month(y, m) + (d - 1)
}

impl DateTime {
    /// Well-formedness: fields form a real calendar date within the
    /// supported year range, and a real time of day.
    pub open spec fn wf(self) -> bool {
        self.year <= MAX_YEAR && 1 <= self.month <= 12 && 1 <= self.day <= days_in_month(
            self.year as int,
            self.month as int,
        ) && self.hour < 24 && self.minute < 60 && self.second < 60
    }

    /// Seconds of this timestamp since year 0, January 1st, midnight.
    pub open spec fn ts(self) -> int {
        day_index(self.year as int, self.month as int, self.day as int) * 86400
            + self.hour as int * 3600 + self.minute as int * 60 + self.second as int
    }

    /// Builds a timestamp from its fields; `None` exactly when the fields
    /// do not name a real date or time of day in the supported range.
    pub fn new(year: u32, month: u8, day: u8, hour: u8, minute: u8, second: u8) -> (r: Option<
        DateTime,
    >)
        ensures
            match r {
                Some(dt) => dt.wf() && dt == (DateTime { year, month, day, hour, minute, second }),
                None => !(DateTime { year, month, day, hour, minute, second }).wf(),
            },
    {
        let dt = DateTime { year, month, day, hour, minute, second };
        if year <= MAX_YEAR && 1 <= month && month <= 12 && 1 <= day && day <= days_in_month_exec(
            year,
            month,
        ) && hour < 24 && minute < 60 && second < 60 {
            Some(dt)
        } else {
            None
        }
    }
}

/// The calendar date one day later; `None` when it would leave the
/// supported year range.
pub open spec fn spec_next_day(dt: DateTime) -> Option<DateTime> {
    if dt.day < days_in_month(dt.year as int, dt.month as int) {
        Some(DateTime { day: (dt.day + 1) as u8, ..dt })
    } else if dt.month < 12 {
        Some(DateTime { month: (dt.month + 1) as u8, day: 1, ..dt })
    } else if dt.year < MAX_YEAR {
        Some(DateTime { year: (dt.year + 1) as u32, month: 1, day: 1, ..dt })
    } else {
        None
    }
}

/// The calendar date `n` days later, advancing one day at a time.
pub open spec fn spec_add_days(dt: DateTime, n: nat) -> Option<DateTime>
    decreases n,
{
    if n == 0 {
        Some(dt)
    } else {
        match spec_next_day(dt) {
            None => None,
            Some(d2) => spec_add_days(d2, (n - 1) as nat),
        }
    }
}

/// Same calendar position in year `y2`; `None` when the day does not
/// exist there (February 29th) or `y2` is out of range.
pub open spec fn spec_with_year(dt: DateTime, y2: int) -> Option<DateTime> {
    if 0 <= y2 <= MAX_YEAR && dt.day <= days_in_month(y2, dt.month as int) {
        Some(DateTime { year: y2 as u32, ..dt })
    } else {
        None
    }
}

/// Same day-of-month in month `m2` of the same year; `None` when the day
/// does not exist there.
pub open spec fn spec_with_month(dt: DateTime, m2: int) -> Option<DateTime> {
    if 1 <= m2 <= 12 && dt.day <= days_in_month(dt.year as int, m2) {
        Some(DateTime { month: m2 as u8, ..dt })
    } else {
        None
    }
}

/// Day-of-month set to `d`; `None` when month `dt.month` has no day `d`.
pub open spec fn spec_with_day(dt: DateTime, d: int) -> Option<DateTime> {
    if 1 <= d <= days_in_month(dt.year as int, dt.month as int) {
        Some(DateTime { day: d as u8, ..dt })
    } else {
        None
    }
}

/// Time-of-day moved `n` seconds forward (date carries as needed).
pub open spec fn spec_add_secs(dt: DateTime, n: nat) -> Option<DateTime> {
    let total = dt.hour as int * 3600 + dt.minute as int * 60 + dt.second as int + n;
    let days = total / 86400;
    let rem = total % 86400;
    let dt2 = DateTime {
        hour: (rem / 3600) as u8,
        minute: ((rem / 60) % 60) as u8,
        second: (rem % 60) as u8,
        ..dt
    };
    spec_add_days(dt2, days as nat)
}

/// Weekday as days since Monday (Monday 0 through Sunday 6). Day 0 of
/// the calendar (year 0, January 1st) is a Saturday.
pub open spec fn weekday_from_monday(dt: DateTime) -> int {
    (day_index(dt.year as int, dt.month as int, dt.day as int) + 5) % 7
}

/// Whether `y` is a leap year of the Gregorian calendar.
pub fn is_leap_year_exec(y: u32) -> (r: bool)
    ensures
        r == is_leap_year(y as int),
{
    (y % 4 == 0 && y % 100 != 0) || y % 400 == 0
}

/// Length of month `m` (1-based) in year `y`.
pub fn days_in_month_exec(y: u32, m: u8) -> (r: u8)
    ensures
        r == days_in_month(y as int, m as int),
{
    if m == 2 {
        if is_leap_year_exec(y) {
            29
        } else {
            28
        }
    } else if m == 4 || m == 6 || m == 9 || m == 11 {
        30
    } else {
        31
    }
}

/// The twelve months of a year sum to the year's length.
pub proof fn lemma_year_length(y: int)
    ensures
        days_before_month(y, 12) + days_in_month(y, 12) == days_in_year(y),
{
    reveal_with_fuel(days_before_month, 13);
}

/// Stepping to the next day advances the day number by exactly one and
/// keeps the time of day; it only fails on the last supported day.
pub proof fn lemma_next_day(dt: DateTime)
    requires
        dt.wf(),
    ensures
        match spec_next_day(dt) {
            Some(d2) => d2.wf() && day_index(d2.year as int, d2.month as int, d2.day as int)
                == day_index(dt.year as int, dt.month as int, dt.day as int) + 1 && d2.hour
                == dt.hour && d2.minute == dt.minute && d2.second == dt.second,
            None => dt.year == MAX_YEAR && dt.month == 12 && dt.day == 31,
        },
{
    if dt.day < days_in_month(dt.year as int, dt.month as int) {
    } else if dt.month < 12 {
        assert(days_before_month(dt.year as int, dt.month as int + 1) == days_before_month(
            dt.year as int,
            dt.month as int,
        ) + days_in_month(dt.year as int, dt.month as int));
    } else if dt.year < MAX_YEAR {
        lemma_year_length(dt.year as int);
        assert(days_before_year(dt.year as int + 1) == days_before_year(dt.year as int)
            + days_in_year(dt.year as int));
    }
}

/// Adding `n` days advances the day number by exactly `n` and keeps the
/// time of day.
pub proof fn lemma_add_days(dt: DateTime, n: nat)
    requires
        dt.wf(),
    ensures
        match spec_add_days(dt, n) {
            Some(r) => r.wf() && day_index(r.year as int, r.month as int, r.day as int)
                == day_index(dt.year as int, dt.month as int, dt.day as int) + n && r.hour
                == dt.hour && r.minute == dt.minute && r.second == dt.second,
            None => true,
        },
    decreases n,
{
    if n > 0 {
        lemma_next_day(dt);
        match spec_next_day(dt) {
            Some(d2) => {
                lemma_add_days(d2, (n - 1) as nat);
            },
            None => {},
        }
    }
}

/// Adding `n` days advances the timestamp by exactly `n * 86400`.
pub proof fn lemma_add_days_ts(dt: DateTime, n: nat)
    requires
        dt.wf(),
        spec_add_days(dt, n) is Some,
    ensures
        spec_add_days(dt, n)->Some_0.ts() == dt.ts() + n * 86400,
{
    lemma_add_days(dt, n);
    let r = spec_add_days(dt, n)->Some_0;
    let di = day_index(dt.year as int, dt.month as int, dt.day as int);
    assert(r.ts() == (di + n) * 86400 + dt.hour as int * 3600 + dt.minute as int * 60
        + dt.second as int);
    assert((di + n) * 86400 == di * 86400 + n * 86400) by (nonlinear_arith);
}

/// Adding `n` seconds advances the timestamp by exactly `n`.
pub proof fn lemma_add_secs(dt: DateTime, n: nat)
    requires
        dt.wf(),
    ensures
        match spec_add_secs(dt, n) {
            Some(r) => r.wf() && r.ts() == dt.ts() + n,
            None => true,
        },
{
    let tod = dt.hour as int * 3600 + dt.minute as int * 60 + dt.second as int;
    let total = tod + n;
    let days = total / 86400;
    let rem = total % 86400;
    vstd::arithmetic::div_mod::lemma_fundamental_div_mod(total, 86400);
    vstd::arithmetic::div_mod::lemma_mod_bound(total, 86400);
    vstd::arithmetic::div_mod::lemma_div_pos_is_pos(total, 86400);
    let dt2 = DateTime {
        hour: (rem / 3600) as u8,
        minute: ((rem / 60) % 60) as u8,
        second: (rem % 60) as u8,
        ..dt
    };
    assert(rem / 3600 <= 86399int / 3600) by {
        vstd::arithmetic::div_mod::lemma_div_is_ordered(rem, 86399int, 3600int);
    }
    vstd::arithmetic::div_mod::lemma_div_pos_is_pos(rem, 3600);
    vstd::arithmetic::div_mod::lemma_mod_bound(rem / 60, 60);
    vstd::arithmetic::div_mod::lemma_mod_bound(rem, 60);
    vstd::arithmetic::div_mod::lemma_div_pos_is_pos(rem, 60);
    assert(dt2.wf());
    // The three derived fields reassemble to exactly `rem` seconds.
    assert(3600 * (rem / 3600) + rem % 3600 == rem) by {
        vstd::arithmetic::div_mod::lemma_fundamental_div_mod(rem, 3600);
    }
    assert(rem % 3600 == 60 * ((rem / 60) % 60) + rem % 60) by {
        assert(rem % (60int * 60int) == 60 * ((rem / 60) % 60) + rem % 60) by {
            vstd::arithmetic::div_mod::lemma_breakdown(rem, 60int, 60int);
        }
    }
    assert(dt2.ts() == day_index(dt.year as int, dt.month as int, dt.day as int) * 86400 + rem);
    match spec_add_days(dt2, days as nat) {
        Some(r) => {
            lemma_add_days(dt2, days as nat);
            lemma_add_days_ts(dt2, days as nat);
            assert(r.ts() == dt2.ts() + days * 86400);
            assert(days * 86400 == 86400 * days) by (nonlinear_arith);
            assert(r.ts() == dt.ts() + n);
        },
        None => {},
    }
}

impl DateTime {
    /// The calendar date one day later; `None` when it would leave the
    /// supported year range.
    pub fn next_day(&self) -> (r: Option<DateTime>)
        ensures
            r == spec_next_day(*self),
    {
        if self.day < days_in_month_exec(self.year, self.month) {
            Some(DateTime { day: self.day + 1, ..*self })
        } else if self.month < 12 {
            Some(DateTime { month: self.month + 1, day: 1, ..*self })
        } else if self.year < MAX_YEAR {
            Some(DateTime { year: self.year + 1, month: 1, day: 1, ..*self })
        } else {
            None
        }
    }

    /// The calendar date `n` days later; `None` when it would leave the
    /// supported year range.
    pub fn add_days(&self, n: u64) -> (r: Option<DateTime>)
        ensures
            r == spec_add_days(*self, n as nat),
    {
        let mut cur: DateTime = *self;
        let mut i: u64 = 0;
        while i < n
            invariant
                i <= n,
                spec_add_days(*self, n as nat) == spec_add_days(cur, (n - i) as nat),
            decreases n - i,
        {
            match cur.next_day() {
                None => {
                    assert(spec_add_days(cur, (n - i) as nat) is None);
                    return None;
                },
                Some(d2) => {
                    assert(spec_add_days(cur, (n - i) as nat) == spec_add_days(
                        d2,
                        (n - i - 1) as nat,
                    ));
                    cur = d2;
                    i = i + 1;
                },
            }
        }
        Some(cur)
    }

    /// The timestamp `n` seconds later; `None` when it would leave the
    /// supported year range.
    pub fn add_secs(&self, n: u64) -> (r: Option<DateTime>)
        requires
            self.wf(),
        ensures
            r == spec_add_secs(*self, n as nat),
    {
        let tod: u64 = self.hour as u64 * 3600 + self.minute as u64 * 60 + self.second as u64;
        let total: u128 = tod as u128 + n as u128;
        let days: u64 = (total / 86400) as u64;
        let rem: u32 = (total % 86400) as u32;
        proof {
            vstd::arithmetic::div_mod::lemma_mod_bound(total as int, 86400int);
            vstd::arithmetic::div_mod::lemma_div_pos_is_pos(total as int, 86400int);
            vstd::arithmetic::div_mod::lemma_div_is_ordered(
                total as int,
                0xffff_ffff_ffff_ffffu64 as int + 86400,
                86400int,
            );
            assert(rem as int / 3600 <= 86399int / 3600) by {
                vstd::arithmetic::div_mod::lemma_div_is_ordered(rem as int, 86399int, 3600int);
            }
            vstd::arithmetic::div_mod::lemma_mod_bound(rem as int / 60, 60int);
            vstd::arithmetic::div_mod::lemma_mod_bound(rem as int, 60int);
        }
        let dt2 = DateTime {
            hour: (rem / 3600) as u8,
            minute: ((rem / 60) % 60) as u8,
            second: (rem % 60) as u8,
            ..*self
        };
        dt2.add_days(days)
    }

    /// Same calendar position in year `y2`; `None` when the day does not
    /// exist there or `y2` is out of range.
    pub fn with_year(&self, y2: u32) -> (r: Option<DateTime>)
        ensures
            r == spec_with_year(*self, y2 as int),
    {
        if y2 <= MAX_YEAR && self.day <= days_in_month_exec(y2, self.month) {
            Some(DateTime { year: y2, ..*self })
        } else {
            None
        }
    }

    /// Same day-of-month in month `m2` of the same year; `None` when the
    /// day does not exist there.
    pub fn with_month(&self, m2: u8) -> (r: Option<DateTime>)
        ensures
            r == spec_with_month(*self, m2 as int),
    {
        if 1 <= m2 && m2 <= 12 && self.day <= days_in_month_exec(self.year, m2) {
            Some(DateTime { month: m2, ..*self })
        } else {
            None
        }
    }

    /// Day-of-month set to `d`; `None` when this month has no day `d`.
    pub fn with_day(&self, d: u8) -> (r: Option<DateTime>)
        ensures
            r == spec_with_day(*self, d as int),
    {
        if 1 <= d && d <= days_in_month_exec(self.year, self.month) {
            Some(DateTime { day: d, ..*self })
        } else {
            None
        }
    }

    /// Day number of this date, with year 0, January 1st as day 0.
    pub fn day_number(&self) -> (r: u64)
        requires
            self.wf(),
        ensures
            r == day_index(self.year as int, self.month as int, self.day as int),
            r <= 3_700_000,
    {
        let mut acc: u64 = 0;
        let mut y: u32 = 0;
        while y < self.year
            invariant
                y <= self.year,
                self.year <= MAX_YEAR,
                acc == days_before_year(y as int),
                acc <= 366 * (y as u64),
            decreases self.year - y,
        {
            acc = acc + if is_leap_year_exec(y) {
                366
            } else {
                365
            };
            y = y + 1;
        }
        let mut m: u8 = 1;
        while m < self.month
            invariant
                1 <= m <= self.month,
                self.month <= 12,
                acc == days_before_year(self.year as int) + days_before_month(
                    self.year as int,
                    m as int,
                ),
                acc <= 366 * 10_000 + 31 * (m as u64),
            decreases self.month - m,
        {
            acc = acc + days_in_month_exec(self.year, m) as u64;
            m = m + 1;
        }
        acc + (self.day - 1) as u64
    }

    /// Weekday of this date as days since Monday (Monday 0, Sunday 6).
    pub fn weekday(&self) -> (r: u8)
        requires
            self.wf(),
        ensures
            r == weekday_from_monday(*self),
            r < 7,
    {
        let dn = self.day_number();
        let r = ((dn % 7) + 5) % 7;
        proof {
            let di = day_index(self.year as int, self.month as int, self.day as int);
            vstd::arithmetic::div_mod::lemma_add_mod_noop(di, 5int, 7int);
            vstd::arithmetic::div_mod::lemma_mod_bound(di + 5, 7int);
            assert(5int % 7int == 5);
        }
        r as u8
    }

    /// Seconds of this timestamp since year 0, January 1st, midnight.
    pub fn timestamp(&self) -> (r: u64)
        requires
            self.wf(),
        ensures
            r == self.ts(),
    {
        let dn = self.day_number();
        dn * 86400 + self.hour as u64 * 3600 + self.minute as u64 * 60 + self.second as u64
    }
}

} // verus!
