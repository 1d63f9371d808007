//! The date/delta recognizer: turns a free-text phrase plus a base
//! timestamp into a target timestamp. Exactly one of four grammars may
//! match: the keyword "tomorrow" (base plus one day), numeric deltas
//! applied left to right with calendar-correct month and year
//! arithmetic, a weekday name (the next such weekday, today included),
//! or a month name plus day-of-month (this year, or next year when
//! that calendar day has already passed; time reset to midnight).
//! Tokens from two different grammars in one phrase are an error, not
//! a silent pick.

use vstd::prelude::*;
use crate::date::{
    DateTime, MAX_YEAR, days_in_month, days_in_month_exec, spec_add_days, spec_add_secs,
    spec_with_month, spec_with_year, weekday_from_monday, lemma_add_days, lemma_add_secs,
};
use crate::scan::{
    Unit, DeltaTok, MonthDayTok, scan_deltas, scan_deltas_exec, scan_monthdays,
    scan_monthdays_exec, find_tomorrow, has_tomorrow_exec, find_weekday, find_weekday_exec,
    toks_match, mds_match,
};

verus! {

/// Why a time phrase was rejected. Parse errors are reported to the
/// user verbatim; they never abort the process.
#[derive(Clone, Copy, PartialEq, Eq, Structural, Debug)]
pub enum ParseError {
    /// "tomorrow" combined with a numeric delta.
    MixedTomorrowAndDelta,
    /// A weekday name combined with "tomorrow" or a numeric delta.
    MixedWeekdayAndDelta,
    /// A month-plus-day combined with another grammar, or given twice.
    MixedMonthDay,
    /// A numeric magnitude that does not fit in 32 bits.
    NumberTooLarge,
    /// A year delta that lands on a day the target year lacks.
    InvalidYearValue,
    /// A month delta whose year carry lands on a day the target year
    /// lacks.
    InvalidYearFromMonths,
    /// A month delta that lands on a day the target month lacks.
    InvalidMonthValue,
    /// A day-of-month the named month does not have.
    BadDayOfMonth,
    /// Arithmetic left the supported year range.
    OutOfRange,
    /// No grammar matched at all.
    CouldNotParse,
}

impl ParseError {
    /// The user-facing description of this rejection.
    pub open spec fn spec_message(self) -> Seq<char> {
        match self {
            ParseError::MixedTomorrowAndDelta => "Cannot mix 'tomorrow' and delta times."@,
            ParseError::MixedWeekdayAndDelta => "Cannot mix weekday and delta time."@,
            ParseError::MixedMonthDay => "Cannot mix deltas or have multiple dates and month values."@,
            ParseError::NumberTooLarge => "Number value is too large."@,
            ParseError::InvalidYearValue => "Invalid year value."@,
            ParseError::InvalidYearFromMonths => "Invalid year value from months."@,
            ParseError::InvalidMonthValue => "Invalid month value."@,
            ParseError::BadDayOfMonth => "Bad day number provided for that month."@,
            ParseError::OutOfRange => "Date is outside the supported year range."@,
            ParseError::CouldNotParse => "Could not parse time."@,
        }
    }

    /// The user-facing description of this rejection.
    pub fn message(&self) -> (r: &'static str)
        ensures
            r@ == self.spec_message(),
    {
        match self {
            ParseError::MixedTomorrowAndDelta => "Cannot mix 'tomorrow' and delta times.",
            ParseError::MixedWeekdayAndDelta => "Cannot mix weekday and delta time.",
            ParseError::MixedMonthDay => "Cannot mix deltas or have multiple dates and month values.",
            ParseError::NumberTooLarge => "Number value is too large.",
            ParseError::InvalidYearValue => "Invalid year value.",
            ParseError::InvalidYearFromMonths => "Invalid year value from months.",
            ParseError::InvalidMonthValue => "Invalid month value.",
            ParseError::BadDayOfMonth => "Bad day number provided for that month.",
            ParseError::OutOfRange => "Date is outside the supported year range.",
            ParseError::CouldNotParse => "Could not parse time.",
        }
    }
}

/// One numeric delta applied to `dt`: `v` units of calendar-correct
/// arithmetic. Month deltas carry into the year (month-1+v, mod 12);
/// both month and year deltas reject days the target month lacks.
pub open spec fn spec_apply_delta(dt: DateTime, v: int, u: Unit) -> Result<DateTime, ParseError> {
    if v > 0xFFFF_FFFF {
        Err(ParseError::NumberTooLarge)
    } else {
        match u {
            Unit::Year => match spec_with_year(dt, dt.year + v) {
                Some(d) => Ok(d),
                None => Err(ParseError::InvalidYearValue),
            },
            Unit::Month => {
                let m0 = dt.month - 1 + v;
                let y2 = dt.year + m0 / 12;
                let m2 = m0 % 12 + 1;
                match spec_with_year(dt, y2) {
                    None => Err(ParseError::InvalidYearFromMonths),
                    Some(d1) => match spec_with_month(d1, m2) {
                        None => Err(ParseError::InvalidMonthValue),
                        Some(d2) => Ok(d2),
                    },
                }
            },
            Unit::Week => match spec_add_days(dt, (v * 7) as nat) {
                Some(d) => Ok(d),
                None => Err(ParseError::OutOfRange),
            },
            Unit::Day => match spec_add_days(dt, v as nat) {
                Some(d) => Ok(d),
                None => Err(ParseError::OutOfRange),
            },
            Unit::Hour => match spec_add_secs(dt, (v * 3600) as nat) {
                Some(d) => Ok(d),
                None => Err(ParseError::OutOfRange),
            },
            Unit::Minute => match spec_add_secs(dt, (v * 60) as nat) {
                Some(d) => Ok(d),
                None => Err(ParseError::OutOfRange),
            },
            Unit::Second => match spec_add_secs(dt, v as nat) {
                Some(d) => Ok(d),
                None => Err(ParseError::OutOfRange),
            },
        }
    }
}

/// All scanned deltas applied left to right; the first failure wins.
pub open spec fn spec_apply_deltas(dt: DateTime, toks: Seq<(int, Unit)>) -> Result<
    DateTime,
    ParseError,
>
    decreases toks.len(),
{
    if toks.len() == 0 {
        Ok(dt)
    } else {
        match spec_apply_delta(dt, toks[0].0, toks[0].1) {
            Err(e) => Err(e),
            Ok(d2) => spec_apply_deltas(d2, toks.drop_first()),
        }
    }
}

/// The next occurrence of weekday `wd` (days from Monday), counting
/// today as a match: forward by `(wd - weekday(dt)) mod 7` days.
pub open spec fn spec_apply_weekday(dt: DateTime, wd: int) -> Result<DateTime, ParseError> {
    let delta = (wd - weekday_from_monday(dt)) % 7;
    match spec_add_days(dt, delta as nat) {
        Some(d) => Ok(d),
        None => Err(ParseError::OutOfRange),
    }
}

/// Day `d` of month `m0+1`, at midnight, in the base's year — or the
/// next year when that calendar day has already passed: the base month
/// is past `m0+1`, or is `m0+1` with the day-of-month past `d`.
pub open spec fn spec_apply_monthday(dt: DateTime, m0: int, d: int) -> Result<
    DateTime,
    ParseError,
> {
    if d > 0xFFFF_FFFF {
        Err(ParseError::NumberTooLarge)
    } else {
        let y = if dt.month - 1 < m0 || (dt.month - 1 == m0 && dt.day <= d) {
            dt.year as int
        } else {
            dt.year + 1
        };
        if y > MAX_YEAR {
            Err(ParseError::OutOfRange)
        } else if 1 <= d <= days_in_month(y, m0 + 1) {
            Ok(
                DateTime {
                    year: y as u32,
                    month: (m0 + 1) as u8,
                    day: d as u8,
                    hour: 0,
                    minute: 0,
                    second: 0,
                },
            )
        } else {
            Err(ParseError::BadDayOfMonth)
        }
    }
}

/// The recognizer: grammar scans, mutual-exclusion checks in the fixed
/// order (keyword, deltas, weekday, month-plus-day), then application.
pub open spec fn spec_recognise(base: DateTime, s: Seq<char>) -> Result<DateTime, ParseError> {
    let tom = find_tomorrow(s, 0);
    let toks = scan_deltas(s, 0);
    let wd = find_weekday(s, 0);
    let mds = scan_monthdays(s, 0);
    if tom && toks.len() > 0 {
        Err(ParseError::MixedTomorrowAndDelta)
    } else {
        let r1 = if tom {
            match spec_add_days(base, 1) {
                Some(d) => Ok(d),
                None => Err(ParseError::OutOfRange),
            }
        } else {
            Ok(base)
        };
        match r1 {
            Err(e) => Err(e),
            Ok(d1) => match spec_apply_deltas(d1, toks) {
                Err(e) => Err(e),
                Ok(d2) => {
                    let parsed1 = tom || toks.len() > 0;
                    let r3 = match wd {
                        Some(w) => if parsed1 {
                            Err(ParseError::MixedWeekdayAndDelta)
                        } else {
                            spec_apply_weekday(d2, w)
                        },
                        None => Ok(d2),
                    };
                    match r3 {
                        Err(e) => Err(e),
                        Ok(d3) => {
                            let parsed2 = parsed1 || wd is Some;
                            if mds.len() > 0 {
                                if parsed2 {
                                    Err(ParseError::MixedMonthDay)
                                } else {
                                    match spec_apply_monthday(d3, mds[0].0, mds[0].1) {
                                        Err(e) => Err(e),
                                        Ok(d4) => if mds.len() > 1 {
                                            Err(ParseError::MixedMonthDay)
                                        } else {
                                            Ok(d4)
                                        },
                                    }
                                }
                            } else if parsed2 {
                                Ok(d3)
                            } else {
                                Err(ParseError::CouldNotParse)
                            }
                        },
                    }
                },
            },
        }
    }
}

/// The characters of `s`, in order.
pub(crate) fn chars_of(s: &str) -> (r: Vec<char>)
    ensures
        r@ == s@,
{
    let n = s.unicode_len();
    let mut v: Vec<char> = Vec::new();
    let mut i: usize = 0;
    while i < n
        invariant
            i <= n,
            n == s@.len(),
            v@.len() == i,
            forall|j: int| 0 <= j < i ==> v@[j] == s@[j],
        decreases n - i,
    {
        v.push(s.get_char(i));
        i = i + 1;
    }
    proof {
        assert(v@ =~= s@);
    }
    v
}

/// Applies one scanned delta token.
fn apply_delta_exec(dt: DateTime, value: Option<u32>, unit: Unit, Ghost(v): Ghost<int>) -> (r:
    Result<DateTime, ParseError>)
    requires
        dt.wf(),
        0 <= v,
        v <= 0xFFFF_FFFF ==> value == Some(v as u32),
        v > 0xFFFF_FFFF ==> value is None,
    ensures
        r == spec_apply_delta(dt, v, unit),
        r is Ok ==> r->Ok_0.wf(),
{
    match value {
        None => Err(ParseError::NumberTooLarge),
        Some(n) => match unit {
            Unit::Year => {
                let y2: u64 = dt.year as u64 + n as u64;
                if y2 > MAX_YEAR as u64 {
                    proof {
                        assert(spec_with_year(dt, dt.year + v) is None);
                    }
                    Err(ParseError::InvalidYearValue)
                } else {
                    match dt.with_year(y2 as u32) {
                        None => Err(ParseError::InvalidYearValue),
                        Some(d) => Ok(d),
                    }
                }
            },
            Unit::Month => {
                let m0: u64 = (dt.month - 1) as u64 + n as u64;
                let y2: u64 = dt.year as u64 + m0 / 12;
                let m2: u8 = (m0 % 12 + 1) as u8;
                proof {
                    assert(m0 as int == dt.month - 1 + v);
                    assert(y2 as int == dt.year + (dt.month - 1 + v) / 12);
                    assert(m2 as int == (dt.month - 1 + v) % 12 + 1);
                }
                if y2 > MAX_YEAR as u64 {
                    proof {
                        assert(spec_with_year(dt, y2 as int) is None);
                    }
                    Err(ParseError::InvalidYearFromMonths)
                } else {
                    match dt.with_year(y2 as u32) {
                        None => Err(ParseError::InvalidYearFromMonths),
                        Some(d1) => match d1.with_month(m2) {
                            None => Err(ParseError::InvalidMonthValue),
                            Some(d2) => Ok(d2),
                        },
                    }
                }
            },
            Unit::Week => {
                let nd: u64 = n as u64 * 7;
                match dt.add_days(nd) {
                    None => Err(ParseError::OutOfRange),
                    Some(d) => {
                        proof {
                            lemma_add_days(dt, nd as nat);
                        }
                        Ok(d)
                    },
                }
            },
            Unit::Day => {
                match dt.add_days(n as u64) {
                    None => Err(ParseError::OutOfRange),
                    Some(d) => {
                        proof {
                            lemma_add_days(dt, n as nat);
                        }
                        Ok(d)
                    },
                }
            },
            Unit::Hour => {
                let ns: u64 = n as u64 * 3600;
                match dt.add_secs(ns) {
                    None => Err(ParseError::OutOfRange),
                    Some(d) => {
                        proof {
                            lemma_add_secs(dt, ns as nat);
                        }
                        Ok(d)
                    },
                }
            },
            Unit::Minute => {
                let ns: u64 = n as u64 * 60;
                match dt.add_secs(ns) {
                    None => Err(ParseError::OutOfRange),
                    Some(d) => {
                        proof {
                            lemma_add_secs(dt, ns as nat);
                        }
                        Ok(d)
                    },
                }
            },
            Unit::Second => {
                match dt.add_secs(n as u64) {
                    None => Err(ParseError::OutOfRange),
                    Some(d) => {
                        proof {
                            lemma_add_secs(dt, n as nat);
                        }
                        Ok(d)
                    },
                }
            },
        },
    }
}

/// Applies all scanned delta tokens left to right.
fn apply_deltas_exec(dt: DateTime, toks: &Vec<DeltaTok>, Ghost(stoks): Ghost<Seq<(int, Unit)>>)
    -> (r: Result<DateTime, ParseError>)
    requires
        dt.wf(),
        toks_match(toks@, stoks),
    ensures
        r == spec_apply_deltas(dt, stoks),
        r is Ok ==> r->Ok_0.wf(),
{
    let mut cur = dt;
    let mut idx: usize = 0;
    proof {
        assert(stoks.skip(0) =~= stoks);
    }
    while idx < toks.len()
        invariant
            idx <= toks@.len(),
            toks_match(toks@, stoks),
            cur.wf(),
            spec_apply_deltas(dt, stoks) == spec_apply_deltas(cur, stoks.skip(idx as int)),
        decreases toks@.len() - idx,
    {
        proof {
            assert(stoks.skip(idx as int)[0] == stoks[idx as int]);
            assert(stoks.skip(idx as int).drop_first() =~= stoks.skip(idx as int + 1));
        }
        let tok = &toks[idx];
        let ghost v = stoks[idx as int].0;
        match apply_delta_exec(cur, tok.value, tok.unit, Ghost(v)) {
            Err(e) => {
                proof {
                    assert(spec_apply_deltas(cur, stoks.skip(idx as int)) == Err::<
                        DateTime,
                        ParseError,
                    >(e));
                }
                return Err(e);
            },
            Ok(d) => {
                cur = d;
            },
        }
        idx = idx + 1;
    }
    proof {
        assert(stoks.skip(toks@.len() as int).len() == 0);
        assert(spec_apply_deltas(dt, stoks) == Ok::<DateTime, ParseError>(cur));
    }
    Ok(cur)
}

/// Advances to the next occurrence of weekday `wd`, today included.
fn apply_weekday_exec(dt: DateTime, wd: u8) -> (r: Result<DateTime, ParseError>)
    requires
        dt.wf(),
        wd < 7,
    ensures
        r == spec_apply_weekday(dt, wd as int),
        r is Ok ==> r->Ok_0.wf(),
{
    let cur = dt.weekday();
    let delta: u64 = ((wd + 7 - cur) % 7) as u64;
    proof {
        vstd::arithmetic::div_mod::lemma_mod_add_multiples_vanish(
            wd as int - cur as int,
            7int,
        );
        vstd::arithmetic::div_mod::lemma_mod_bound(wd as int - cur as int, 7int);
    }
    match dt.add_days(delta) {
        None => Err(ParseError::OutOfRange),
        Some(d) => {
            proof {
                lemma_add_days(dt, delta as nat);
            }
            Ok(d)
        },
    }
}

/// Builds the month-plus-day target date at midnight.
fn apply_monthday_exec(dt: DateTime, m0: u8, day: Option<u32>, Ghost(d): Ghost<int>) -> (r: Result<
    DateTime,
    ParseError,
>)
    requires
        dt.wf(),
        m0 < 12,
        0 <= d,
        d <= 0xFFFF_FFFF ==> day == Some(d as u32),
        d > 0xFFFF_FFFF ==> day is None,
    ensures
        r == spec_apply_monthday(dt, m0 as int, d),
        r is Ok ==> r->Ok_0.wf(),
{
    match day {
        None => Err(ParseError::NumberTooLarge),
        Some(dv) => {
            let same_year = dt.month - 1 < m0 || (dt.month - 1 == m0 && dt.day as u32 <= dv);
            let y: u32 = if same_year {
                dt.year
            } else {
                dt.year + 1
            };
            if y > MAX_YEAR {
                Err(ParseError::OutOfRange)
            } else if dv < 1 || dv > days_in_month_exec(y, m0 + 1) as u32 {
                Err(ParseError::BadDayOfMonth)
            } else {
                Ok(
                    DateTime {
                        year: y,
                        month: m0 + 1,
                        day: dv as u8,
                        hour: 0,
                        minute: 0,
                        second: 0,
                    },
                )
            }
        },
    }
}

/// Recognises the time phrase `text` against the base timestamp
/// `base`: the unique result of the grammar precedence and
/// mutual-exclusion rules of [`spec_recognise`].
#[verifier::rlimit(100)]
pub fn recognise(base: DateTime, text: &str) -> (r: Result<DateTime, ParseError>)
    requires
        base.wf(),
    ensures
        r == spec_recognise(base, text@),
        r is Ok ==> r->Ok_0.wf(),
{
    let chars = chars_of(text);
    let ghost s = text@;
    let tom = has_tomorrow_exec(&chars);
    let toks = scan_deltas_exec(&chars);
    let wd = find_weekday_exec(&chars);
    let mds = scan_monthdays_exec(&chars);
    let ghost stoks = scan_deltas(s, 0);
    let ghost smds = scan_monthdays(s, 0);
    if tom && toks.len() > 0 {
        return Err(ParseError::MixedTomorrowAndDelta);
    }
    let mut cur = base;
    if tom {
        match cur.add_days(1) {
            None => {
                return Err(ParseError::OutOfRange);
            },
            Some(d) => {
                proof {
                    lemma_add_days(base, 1);
                }
                cur = d;
            },
        }
    }
    match apply_deltas_exec(cur, &toks, Ghost(stoks)) {
        Err(e) => {
            return Err(e);
        },
        Ok(d) => {
            cur = d;
        },
    }
    let parsed1 = tom || toks.len() > 0;
    match wd {
        Some(w) => {
            if parsed1 {
                return Err(ParseError::MixedWeekdayAndDelta);
            }
            match apply_weekday_exec(cur, w) {
                Err(e) => {
                    return Err(e);
                },
                Ok(d) => {
                    cur = d;
                },
            }
        },
        None => {},
    }
    let parsed2 = parsed1 || wd.is_some();
    if mds.len() > 0 {
        if parsed2 {
            return Err(ParseError::MixedMonthDay);
        }
        let md = &mds[0];
        let ghost d0 = smds[0].1;
        match apply_monthday_exec(cur, md.month0, md.day, Ghost(d0)) {
            Err(e) => {
                return Err(e);
            },
            Ok(d4) => {
                if mds.len() > 1 {
                    return Err(ParseError::MixedMonthDay);
                }
                return Ok(d4);
            },
        }
    } else if parsed2 {
        return Ok(cur);
    } else {
        return Err(ParseError::CouldNotParse);
    }
}

} // verus!
