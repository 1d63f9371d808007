//! The recognizer's laws: what each grammar does to the base
//! timestamp, stated over the same spec functions that `recognise`'s
//! contract uses, and proved for every input the law speaks of.

use vstd::prelude::*;
use crate::date::{
    DateTime, MAX_YEAR, days_in_month, spec_add_days, weekday_from_monday, lemma_add_days,
    lemma_add_days_ts, lemma_add_secs,
};
use crate::human::{dchar, spec_dec};
use crate::scan::{
    Unit, scan_deltas, find_tomorrow, find_weekday, scan_monthdays, match_ci, lc, is_digit,
    digit_of, digits_val, digit_run_end, ws_end, is_space, unit_at, match_cs, weekday_at,
    month_at, monthday_at, lemma_match_ci_bounds,
};
use crate::recognise::{
    ParseError, spec_apply_delta, spec_apply_deltas, spec_apply_weekday, spec_apply_monthday,
    spec_recognise,
};

verus! {

/// A numeric delta advances the base by exactly its magnitude, in
/// calendar-correct arithmetic: time units advance the timestamp by
/// the unit's length in seconds times the magnitude; a year delta
/// keeps month, day and time of day; a month delta carries whole years
/// (month-1+v, mod 12) and keeps day and time of day. Year and month
/// deltas fail exactly when the target month lacks the base's
/// day-of-month (or the year range is exceeded).
pub proof fn lemma_delta_exact(base: DateTime, v: int, u: Unit)
    requires
        base.wf(),
        0 <= v <= 0xFFFF_FFFF,
    ensures
        match spec_apply_delta(base, v, u) {
            Ok(r) => r.wf() && match u {
                Unit::Second => r.ts() == base.ts() + v,
                Unit::Minute => r.ts() == base.ts() + v * 60,
                Unit::Hour => r.ts() == base.ts() + v * 3600,
                Unit::Day => r.ts() == base.ts() + v * 86400,
                Unit::Week => r.ts() == base.ts() + v * 604800,
                Unit::Year => r == (DateTime { year: (base.year + v) as u32, ..base }),
                Unit::Month => (({
                    let m0 = base.month - 1 + v;
                    r == (DateTime {
                        year: (base.year + m0 / 12) as u32,
                        month: (m0 % 12 + 1) as u8,
                        ..base
                    })
                })),
            },
            Err(e) => match u {
                Unit::Year => e == ParseError::InvalidYearValue,
                Unit::Month => e == ParseError::InvalidYearFromMonths || e
                    == ParseError::InvalidMonthValue,
                _ => e == ParseError::OutOfRange,
            },
        },
        u is Year ==> (spec_apply_delta(base, v, u) is Err <==> (base.year + v > MAX_YEAR
            || base.day > days_in_month(base.year + v, base.month as int))),
        u is Month ==> (({
            let m0 = base.month - 1 + v;
            let y2 = base.year + m0 / 12;
            let m2 = m0 % 12 + 1;
            spec_apply_delta(base, v, u) is Err <==> (y2 > MAX_YEAR || base.day > days_in_month(
                y2,
                base.month as int,
            ) || base.day > days_in_month(y2, m2))
        })),
{
    match u {
        Unit::Year => {
        },
        Unit::Month => {
            let m0 = base.month - 1 + v;
            vstd::arithmetic::div_mod::lemma_div_pos_is_pos(m0, 12int);
            vstd::arithmetic::div_mod::lemma_mod_bound(m0, 12int);
        },
        Unit::Week => {
            match spec_add_days(base, (v * 7) as nat) {
                Some(r) => {
                    lemma_add_days(base, (v * 7) as nat);
                    lemma_add_days_ts(base, (v * 7) as nat);
                    assert((v * 7) * 86400 == v * 604800) by (nonlinear_arith);
                },
                None => {},
            }
        },
        Unit::Day => {
            match spec_add_days(base, v as nat) {
                Some(r) => {
                    lemma_add_days(base, v as nat);
                    lemma_add_days_ts(base, v as nat);
                },
                None => {},
            }
        },
        Unit::Hour => {
            lemma_add_secs(base, (v * 3600) as nat);
        },
        Unit::Minute => {
            lemma_add_secs(base, (v * 60) as nat);
        },
        Unit::Second => {
            lemma_add_secs(base, v as nat);
        },
    }
}

/// A numeric delta whose magnitude does not fit in 32 bits is
/// rejected, whatever the unit — the other half of
/// [`lemma_delta_exact`], so together they cover every magnitude.
pub proof fn lemma_delta_magnitude_cap(base: DateTime, v: int, u: Unit)
    requires
        v > 0xFFFF_FFFF,
    ensures
        spec_apply_delta(base, v, u) == Err::<DateTime, ParseError>(ParseError::NumberTooLarge),
{
}

/// Combining "tomorrow" with any numeric delta in one input is
/// rejected, whatever else the input holds.
pub proof fn lemma_tomorrow_delta_rejected(base: DateTime, s: Seq<char>)
    requires
        find_tomorrow(s, 0),
        scan_deltas(s, 0).len() > 0,
    ensures
        spec_recognise(base, s) == Err::<DateTime, ParseError>(ParseError::MixedTomorrowAndDelta),
{
}

/// An input whose only match is the keyword "tomorrow" advances the
/// base by exactly one day.
pub proof fn lemma_tomorrow_only(base: DateTime, s: Seq<char>)
    requires
        base.wf(),
        base.year < MAX_YEAR || base.month < 12 || base.day < 31,
        find_tomorrow(s, 0),
        scan_deltas(s, 0).len() == 0,
        find_weekday(s, 0) is None,
        scan_monthdays(s, 0).len() == 0,
    ensures
        spec_recognise(base, s) is Ok,
        spec_recognise(base, s)->Ok_0.ts() == base.ts() + 86400,
{
    crate::date::lemma_next_day(base);
    let d1 = crate::date::spec_next_day(base)->Some_0;
    assert(spec_add_days(base, 1) == spec_add_days(d1, 0nat));
    lemma_add_days(base, 1);
    lemma_add_days_ts(base, 1);
    assert(spec_apply_deltas(d1, scan_deltas(s, 0)) == Ok::<DateTime, ParseError>(d1));
}

/// The same-day policy: a weekday name names the next such weekday,
/// and when the base already falls on it, the base itself — today,
/// not next week.
pub proof fn lemma_weekday_today(base: DateTime, wd: int)
    requires
        base.wf(),
        wd == weekday_from_monday(base),
    ensures
        spec_apply_weekday(base, wd) == Ok::<DateTime, ParseError>(base),
{
    assert(spec_add_days(base, 0nat) == Some(base));
}

/// An input whose only match is a weekday name advances the base by
/// `(wd - weekday(base)) mod 7` days — zero when today already is
/// that weekday.
pub proof fn lemma_weekday_only(base: DateTime, s: Seq<char>, wd: int)
    requires
        base.wf(),
        !find_tomorrow(s, 0),
        scan_deltas(s, 0).len() == 0,
        find_weekday(s, 0) == Some(wd),
        scan_monthdays(s, 0).len() == 0,
    ensures
        spec_recognise(base, s) == spec_apply_weekday(base, wd),
{
    assert(spec_apply_deltas(base, scan_deltas(s, 0)) == Ok::<DateTime, ParseError>(base));
}

/// The month-plus-day grammar resolves its year at day granularity:
/// day D of month M lands in the base's year when that day has not
/// yet passed (the base's month is before M, or is M with the
/// day-of-month at most D), and in the next year otherwise; the time
/// of day is reset to midnight. A day the target month lacks is
/// rejected.
pub proof fn lemma_monthday_exact(base: DateTime, m0: int, d: int)
    requires
        base.wf(),
        0 <= m0 < 12,
        0 <= d <= 0xFFFF_FFFF,
    ensures
        ({
            let y: int = if base.month - 1 < m0 || (base.month - 1 == m0 && base.day <= d) {
                base.year as int
            } else {
                base.year + 1
            };
            y <= MAX_YEAR ==> spec_apply_monthday(base, m0, d) == (if 1 <= d <= days_in_month(
                y,
                m0 + 1,
            ) {
                Ok::<DateTime, ParseError>(
                    DateTime {
                        year: y as u32,
                        month: (m0 + 1) as u8,
                        day: d as u8,
                        hour: 0,
                        minute: 0,
                        second: 0,
                    },
                )
            } else {
                Err::<DateTime, ParseError>(ParseError::BadDayOfMonth)
            })
        }),
{
}

/// An input whose only match is one month-plus-day yields exactly that
/// target date.
pub proof fn lemma_monthday_only(base: DateTime, s: Seq<char>)
    requires
        base.wf(),
        !find_tomorrow(s, 0),
        scan_deltas(s, 0).len() == 0,
        find_weekday(s, 0) is None,
        scan_monthdays(s, 0).len() == 1,
    ensures
        spec_recognise(base, s) == spec_apply_monthday(
            base,
            scan_monthdays(s, 0)[0].0,
            scan_monthdays(s, 0)[0].1,
        ),
{
    assert(spec_apply_deltas(base, scan_deltas(s, 0)) == Ok::<DateTime, ParseError>(base));
}

/// An input where no grammar matches at all is rejected with the
/// could-not-parse error.
pub proof fn lemma_nothing_recognised(base: DateTime, s: Seq<char>)
    requires
        !find_tomorrow(s, 0),
        scan_deltas(s, 0).len() == 0,
        find_weekday(s, 0) is None,
        scan_monthdays(s, 0).len() == 0,
    ensures
        spec_recognise(base, s) == Err::<DateTime, ParseError>(ParseError::CouldNotParse),
{
    assert(spec_apply_deltas(base, scan_deltas(s, 0)) == Ok::<DateTime, ParseError>(base));
}

/// The canonical one-letter spelling of each unit (capital M for
/// months, as the grammar demands).
pub open spec fn unit_letter(u: Unit) -> char {
    match u {
        Unit::Year => 'y',
        Unit::Month => 'M',
        Unit::Week => 'w',
        Unit::Day => 'd',
        Unit::Hour => 'h',
        Unit::Minute => 'm',
        Unit::Second => 's',
    }
}

/// A decimal rendering is one or more digit characters.
proof fn lemma_spec_dec_digits(n: int)
    requires
        0 <= n,
    ensures
        spec_dec(n).len() >= 1,
        forall|k: int| 0 <= k < spec_dec(n).len() ==> is_digit(#[trigger] spec_dec(n)[k]),
    decreases n,
{
    if n >= 10 {
        vstd::arithmetic::div_mod::lemma_div_pos_is_pos(n, 10int);
        vstd::arithmetic::div_mod::lemma_div_is_strictly_smaller(n, 10int);
        lemma_spec_dec_digits(n / 10);
        vstd::arithmetic::div_mod::lemma_mod_bound(n, 10int);
        assert forall|k: int| 0 <= k < spec_dec(n).len() implies is_digit(
            #[trigger] spec_dec(n)[k],
        ) by {
            if k < spec_dec(n / 10).len() {
                assert(spec_dec(n)[k] == spec_dec(n / 10)[k]);
            } else {
                assert(spec_dec(n)[k] == dchar(n % 10));
            }
        }
    }
}

/// The digit-run value only reads the characters between `i` and `j`.
proof fn lemma_digits_val_frame(s1: Seq<char>, s2: Seq<char>, i: int, j: int)
    requires
        0 <= i <= j <= s1.len(),
        j <= s2.len(),
        s1.subrange(i, j) == s2.subrange(i, j),
    ensures
        digits_val(s1, i, j) == digits_val(s2, i, j),
    decreases j - i,
{
    if j > i {
        assert(s1.subrange(i, j - 1) =~= s2.subrange(i, j - 1)) by {
            assert forall|k: int|
                0 <= k < j - 1 - i implies #[trigger] s1.subrange(i, j - 1)[k] == s2.subrange(
                i,
                j - 1,
            )[k] by {
                assert(s1.subrange(i, j)[k] == s2.subrange(i, j)[k]);
            }
        }
        assert(s1[j - 1] == s1.subrange(i, j)[j - 1 - i]);
        assert(s2[j - 1] == s2.subrange(i, j)[j - 1 - i]);
        lemma_digits_val_frame(s1, s2, i, j - 1);
    }
}

/// Reading back a decimal rendering yields the rendered number.
proof fn lemma_digits_val_of_dec(n: int)
    requires
        0 <= n,
    ensures
        digits_val(spec_dec(n), 0, spec_dec(n).len() as int) == n,
    decreases n,
{
    let s = spec_dec(n);
    let l = s.len() as int;
    if n < 10 {
        assert(digits_val(s, 0, 1) == digits_val(s, 0, 0) * 10 + digit_of(s[0]));
        assert(digit_of(dchar(n)) == n);
    } else {
        vstd::arithmetic::div_mod::lemma_div_pos_is_pos(n, 10int);
        vstd::arithmetic::div_mod::lemma_div_is_strictly_smaller(n, 10int);
        lemma_digits_val_of_dec(n / 10);
        let p = spec_dec(n / 10);
        let pl = p.len() as int;
        assert(s.subrange(0, pl) =~= p.subrange(0, pl));
        lemma_digits_val_frame(s, p, 0, pl);
        vstd::arithmetic::div_mod::lemma_mod_bound(n, 10int);
        assert(digit_of(dchar(n % 10)) == n % 10);
        assert(digits_val(s, 0, l) == digits_val(s, 0, l - 1) * 10 + digit_of(s[l - 1]));
        vstd::arithmetic::div_mod::lemma_fundamental_div_mod(n, 10int);
    }
}

/// A run of digits followed by a non-digit (or the end) ends exactly
/// at the non-digit.
proof fn lemma_digit_run_exact(s: Seq<char>, i: int, j: int)
    requires
        0 <= i <= j <= s.len(),
        forall|k: int| i <= k < j ==> is_digit(#[trigger] s[k]),
        j == s.len() || !is_digit(s[j]),
    ensures
        digit_run_end(s, i) == j,
    decreases j - i,
{
    if i < j {
        lemma_digit_run_exact(s, i + 1, j);
    }
}

/// In a string of digits with a single trailing letter, no keyword of
/// two or more letters can match anywhere.
proof fn lemma_no_keyword_in_number(s: Seq<char>, kw: Seq<char>, i: int)
    requires
        kw.len() >= 2,
        97 <= lc(kw[0]),
        forall|x: int| 0 <= x < s.len() - 1 ==> is_digit(#[trigger] s[x]),
    ensures
        !match_ci(s, i, kw),
{
    if match_ci(s, i, kw) {
        lemma_match_ci_bounds(s, i, kw);
        assert(is_digit(s[i]));
        assert(lc(s[i]) == lc(kw[0]));
    }
}

/// No "tomorrow" occurs in a number-plus-unit-letter string.
proof fn lemma_no_tomorrow_in_number(s: Seq<char>, i: int)
    requires
        0 <= i,
        forall|x: int| 0 <= x < s.len() - 1 ==> is_digit(#[trigger] s[x]),
    ensures
        !find_tomorrow(s, i),
    decreases s.len() - i,
{
    reveal_strlit("tomorrow");
    if i <= s.len() {
        lemma_no_keyword_in_number(s, "tomorrow"@, i);
        if i < s.len() {
            lemma_no_tomorrow_in_number(s, i + 1);
        }
    }
}

/// No weekday name occurs in a number-plus-unit-letter string.
proof fn lemma_no_weekday_in_number(s: Seq<char>, i: int)
    requires
        0 <= i,
        forall|x: int| 0 <= x < s.len() - 1 ==> is_digit(#[trigger] s[x]),
    ensures
        find_weekday(s, i) is None,
    decreases s.len() - i,
{
    reveal_strlit("monday");
    reveal_strlit("tuesday");
    reveal_strlit("wednesday");
    reveal_strlit("thursday");
    reveal_strlit("friday");
    reveal_strlit("saturday");
    reveal_strlit("sunday");
    if 0 <= i < s.len() {
        lemma_no_keyword_in_number(s, "monday"@, i);
        lemma_no_keyword_in_number(s, "tuesday"@, i);
        lemma_no_keyword_in_number(s, "wednesday"@, i);
        lemma_no_keyword_in_number(s, "thursday"@, i);
        lemma_no_keyword_in_number(s, "friday"@, i);
        lemma_no_keyword_in_number(s, "saturday"@, i);
        lemma_no_keyword_in_number(s, "sunday"@, i);
        assert(weekday_at(s, i) is None);
        lemma_no_weekday_in_number(s, i + 1);
    }
}

/// No month name occurs in a number-plus-unit-letter string.
proof fn lemma_no_monthday_in_number(s: Seq<char>, i: int)
    requires
        0 <= i,
        forall|x: int| 0 <= x < s.len() - 1 ==> is_digit(#[trigger] s[x]),
    ensures
        scan_monthdays(s, i).len() == 0,
    decreases s.len() - i,
{
    reveal_strlit("jan");
    reveal_strlit("feb");
    reveal_strlit("mar");
    reveal_strlit("apr");
    reveal_strlit("may");
    reveal_strlit("jun");
    reveal_strlit("jul");
    reveal_strlit("aug");
    reveal_strlit("sep");
    reveal_strlit("oct");
    reveal_strlit("nov");
    reveal_strlit("dec");
    if 0 <= i < s.len() {
        lemma_no_keyword_in_number(s, "jan"@, i);
        lemma_no_keyword_in_number(s, "feb"@, i);
        lemma_no_keyword_in_number(s, "mar"@, i);
        lemma_no_keyword_in_number(s, "apr"@, i);
        lemma_no_keyword_in_number(s, "may"@, i);
        lemma_no_keyword_in_number(s, "jun"@, i);
        lemma_no_keyword_in_number(s, "jul"@, i);
        lemma_no_keyword_in_number(s, "aug"@, i);
        lemma_no_keyword_in_number(s, "sep"@, i);
        lemma_no_keyword_in_number(s, "oct"@, i);
        lemma_no_keyword_in_number(s, "nov"@, i);
        lemma_no_keyword_in_number(s, "dec"@, i);
        assert(month_at(s, i) is None);
        assert(monthday_at(s, i) is None);
        lemma_no_monthday_in_number(s, i + 1);
    }
}

/// A string of digits followed by one unit letter scans as exactly one
/// numeric delta, carrying that number and unit.
proof fn lemma_scan_single_delta(n: int, u: Unit, s: Seq<char>)
    requires
        0 <= n,
        s == spec_dec(n).push(unit_letter(u)),
    ensures
        scan_deltas(s, 0) =~= seq![(n, u)],
        !find_tomorrow(s, 0),
        find_weekday(s, 0) is None,
        scan_monthdays(s, 0).len() == 0,
{
    lemma_spec_dec_digits(n);
    let l = spec_dec(n).len() as int;
    assert(s.len() == l + 1);
    assert forall|x: int| 0 <= x < s.len() - 1 implies is_digit(#[trigger] s[x]) by {
        assert(s[x] == spec_dec(n)[x]);
    }
    let letter = unit_letter(u);
    assert(s[l] == letter);
    assert(!is_digit(letter));
    lemma_digit_run_exact(s, 0, l);
    assert(digit_run_end(s, 0) == l);
    assert(!is_space(letter));
    assert(ws_end(s, l) == l);
    assert(digits_val(s, 0, l) == n) by {
        assert(s.subrange(0, l) =~= spec_dec(n).subrange(0, l));
        lemma_digits_val_frame(s, spec_dec(n), 0, l);
        lemma_digits_val_of_dec(n);
    }
    assert(unit_at(s, l) == Some(u)) by {
        reveal_strlit("month");
        if u is Minute {
            assert("month"@.drop_first().len() == 4);
            assert(!match_cs(s, l + 1, "month"@.drop_first()));
            assert(!match_cs(s, l, "month"@));
        }
    }
    assert(scan_deltas(s, l + 1) =~= Seq::<(int, Unit)>::empty());
    assert(is_digit(s[0]));
    assert(scan_deltas(s, 0) =~= seq![(n, u)] + scan_deltas(s, l + 1));
    lemma_no_tomorrow_in_number(s, 0);
    lemma_no_weekday_in_number(s, 0);
    lemma_no_monthday_in_number(s, 0);
}

/// For every magnitude `n` and unit `u`, the phrase "{n}{u}" (the
/// number in decimal, the unit as its one-letter spelling) is
/// recognised as exactly that one delta applied to the base.
pub proof fn lemma_recognise_single_delta(base: DateTime, n: int, u: Unit, s: Seq<char>)
    requires
        base.wf(),
        0 <= n,
        s == spec_dec(n).push(unit_letter(u)),
    ensures
        spec_recognise(base, s) == spec_apply_delta(base, n, u),
{
    lemma_scan_single_delta(n, u, s);
    let toks = scan_deltas(s, 0);
    assert(toks[0] == (n, u));
    assert(toks.drop_first().len() == 0);
    match spec_apply_delta(base, n, u) {
        Ok(d) => {
            assert(spec_apply_deltas(base, toks) == spec_apply_deltas(d, toks.drop_first()));
        },
        Err(e) => {},
    }
}

/// What the four scans yield on the exact phrase "tomorrow".
#[verifier::rlimit(100)]
proof fn lemma_scans_of_tomorrow()
    ensures
        find_tomorrow("tomorrow"@, 0),
        scan_deltas("tomorrow"@, 0).len() == 0,
        find_weekday("tomorrow"@, 0) is None,
        scan_monthdays("tomorrow"@, 0).len() == 0,
{
    reveal_strlit("tomorrow");
    reveal_strlit("monday");
    reveal_strlit("tuesday");
    reveal_strlit("wednesday");
    reveal_strlit("thursday");
    reveal_strlit("friday");
    reveal_strlit("saturday");
    reveal_strlit("sunday");
    reveal_strlit("jan");
    reveal_strlit("feb");
    reveal_strlit("mar");
    reveal_strlit("apr");
    reveal_strlit("may");
    reveal_strlit("jun");
    reveal_strlit("jul");
    reveal_strlit("aug");
    reveal_strlit("sep");
    reveal_strlit("oct");
    reveal_strlit("nov");
    reveal_strlit("dec");
    reveal_with_fuel(match_ci, 10);
    reveal_with_fuel(scan_deltas, 10);
    reveal_with_fuel(find_weekday, 10);
    reveal_with_fuel(find_tomorrow, 2);
    reveal_with_fuel(scan_monthdays, 10);
    let s = "tomorrow"@;
    assert(match_ci(s, 0, "tomorrow"@));
    assert(find_tomorrow(s, 0));
    assert(scan_deltas(s, 0).len() == 0);
    assert(find_weekday(s, 0) is None);
    assert(scan_monthdays(s, 0).len() == 0);
}

/// For every base (short of the last supported day), "tomorrow" is
/// recognised as the base advanced by exactly one day; and "tomorrow"
/// combined with any numeric delta is rejected
/// ([`lemma_tomorrow_delta_rejected`]).
pub proof fn lemma_recognise_tomorrow(base: DateTime, s: Seq<char>)
    requires
        base.wf(),
        base.year < MAX_YEAR || base.month < 12 || base.day < 31,
        s == "tomorrow"@,
    ensures
        spec_recognise(base, s) is Ok,
        spec_recognise(base, s)->Ok_0.ts() == base.ts() + 86400,
{
    lemma_scans_of_tomorrow();
    lemma_tomorrow_only(base, s);
}

/// What the four scans yield on the exact phrase "friday".
#[verifier::rlimit(100)]
proof fn lemma_scans_of_friday()
    ensures
        !find_tomorrow("friday"@, 0),
        scan_deltas("friday"@, 0).len() == 0,
        find_weekday("friday"@, 0) == Some(4int),
        scan_monthdays("friday"@, 0).len() == 0,
{
    reveal_strlit("tomorrow");
    reveal_strlit("monday");
    reveal_strlit("tuesday");
    reveal_strlit("wednesday");
    reveal_strlit("thursday");
    reveal_strlit("friday");
    reveal_strlit("saturday");
    reveal_strlit("sunday");
    reveal_strlit("jan");
    reveal_strlit("feb");
    reveal_strlit("mar");
    reveal_strlit("apr");
    reveal_strlit("may");
    reveal_strlit("jun");
    reveal_strlit("jul");
    reveal_strlit("aug");
    reveal_strlit("sep");
    reveal_strlit("oct");
    reveal_strlit("nov");
    reveal_strlit("dec");
    reveal_with_fuel(match_ci, 10);
    reveal_with_fuel(scan_deltas, 8);
    reveal_with_fuel(find_weekday, 8);
    reveal_with_fuel(find_tomorrow, 8);
    reveal_with_fuel(scan_monthdays, 8);
    let s = "friday"@;
    assert(match_ci(s, 0, "friday"@));
    assert(!find_tomorrow(s, 0));
    assert(scan_deltas(s, 0).len() == 0);
    assert(find_weekday(s, 0) == Some(4int));
    assert(scan_monthdays(s, 0).len() == 0);
}

/// The same-day policy at the phrase level: when the base falls on a
/// Friday, "friday" is recognised as the base itself, unchanged.
pub proof fn lemma_recognise_friday_same_day(base: DateTime, s: Seq<char>)
    requires
        base.wf(),
        weekday_from_monday(base) == 4,
        s == "friday"@,
    ensures
        spec_recognise(base, s) == Ok::<DateTime, ParseError>(base),
{
    lemma_scans_of_friday();
    lemma_weekday_only(base, s, 4int);
    lemma_weekday_today(base, 4int);
}

/// What the four scans yield on the exact phrase "dec 25".
#[verifier::rlimit(100)]
proof fn lemma_scans_of_dec25()
    ensures
        !find_tomorrow("dec 25"@, 0),
        scan_deltas("dec 25"@, 0).len() == 0,
        find_weekday("dec 25"@, 0) is None,
        scan_monthdays("dec 25"@, 0) =~= seq![(11int, 25int)],
{
    reveal_strlit("tomorrow");
    reveal_strlit("monday");
    reveal_strlit("tuesday");
    reveal_strlit("wednesday");
    reveal_strlit("thursday");
    reveal_strlit("friday");
    reveal_strlit("saturday");
    reveal_strlit("sunday");
    reveal_strlit("jan");
    reveal_strlit("feb");
    reveal_strlit("mar");
    reveal_strlit("apr");
    reveal_strlit("may");
    reveal_strlit("jun");
    reveal_strlit("jul");
    reveal_strlit("aug");
    reveal_strlit("sep");
    reveal_strlit("oct");
    reveal_strlit("nov");
    reveal_strlit("dec");
    reveal_strlit("ember");
    reveal_strlit("month");
    reveal_strlit("dec 25");
    reveal_with_fuel(match_ci, 10);
    reveal_with_fuel(match_cs, 7);
    reveal_with_fuel(scan_deltas, 8);
    reveal_with_fuel(find_weekday, 8);
    reveal_with_fuel(find_tomorrow, 8);
    reveal_with_fuel(scan_monthdays, 8);
    reveal_with_fuel(digit_run_end, 4);
    reveal_with_fuel(ws_end, 3);
    reveal_with_fuel(digits_val, 4);
    let s = "dec 25"@;
    assert(!find_tomorrow(s, 0));
    assert(match_ci(s, 0, "dec"@));
    assert(!match_ci(s, 3, "ember"@));
    assert(month_at(s, 0) == Some((11int, 3int)));
    assert(ws_end(s, 3) == 4);
    assert(digit_run_end(s, 4) == 6);
    assert(digits_val(s, 4, 6) == 25) by {
        assert(digit_of(s[4]) == 2);
        assert(digit_of(s[5]) == 5);
    }
    assert(monthday_at(s, 0) == Some((11int, 25int, 6int)));
    assert(scan_monthdays(s, 6).len() == 0);
    assert(scan_monthdays(s, 0) =~= seq![(11int, 25int)]);
    assert(digit_run_end(s, 5) == 6);
    assert(scan_deltas(s, 0).len() == 0);
    assert(find_weekday(s, 0) is None);
}

/// The year-roll rule on the exact phrase "dec 25": December 25th of
/// the base's own year while that day has not yet passed, and of the
/// next year once the base is already past December 25th. (Only a base
/// past December 25th of the last supported year is excluded: there
/// the roll leaves the year range and the phrase is rejected instead.)
pub proof fn lemma_recognise_dec25(base: DateTime, s: Seq<char>)
    requires
        base.wf(),
        s == "dec 25"@,
        base.month < 12 || base.day <= 25 || base.year < MAX_YEAR,
    ensures
        spec_recognise(base, s) == Ok::<DateTime, ParseError>(
            (DateTime {
                year: if base.month < 12 || base.day <= 25 {
                    base.year
                } else {
                    (base.year + 1) as u32
                },
                month: 12,
                day: 25,
                hour: 0,
                minute: 0,
                second: 0,
            }),
        ),
{
    lemma_scans_of_dec25();
    lemma_monthday_only(base, s);
}

} // verus!
