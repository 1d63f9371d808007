//! Token scanning for free-text time phrases. Four independent scans
//! mirror the four grammars the recognizer accepts: the keyword
//! "tomorrow", numeric deltas such as "3 hours" or "2w", English
//! weekday names, and a month name followed by a day number. Keyword,
//! weekday and month names match case-insensitively; delta units are
//! case-sensitive so that a bare "M" means months while "m" means
//! minutes. Only ASCII digits and ASCII whitespace are recognised.

use vstd::prelude::*;

verus! {

/// A numeric-delta unit.
#[derive(Clone, Copy, PartialEq, Eq, Structural, Debug)]
pub enum Unit {
    Year,
    Month,
    Week,
    Day,
    Hour,
    Minute,
    Second,
}

/// Lower-cased code point of `c` (ASCII letters only).
pub open spec fn lc(c: char) -> int {
    if 65 <= c as int && c as int <= 90 {
        c as int + 32
    } else {
        c as int
    }
}

pub open spec fn is_digit(c: char) -> bool {
    48 <= c as int && c as int <= 57
}

pub open spec fn digit_of(c: char) -> int {
    c as int - 48
}

pub open spec fn is_space(c: char) -> bool {
    c as int == 32 || c as int == 9 || c as int == 10 || c as int == 13 || c as int == 11
        || c as int == 12
}

/// Case-insensitive match of `kw` against `s` starting at `i`.
pub open spec fn match_ci(s: Seq<char>, i: int, kw: Seq<char>) -> bool
    decreases kw.len(),
{
    if kw.len() == 0 {
        true
    } else {
        0 <= i < s.len() && lc(s[i]) == lc(kw[0]) && match_ci(s, i + 1, kw.drop_first())
    }
}

/// Case-sensitive match of `kw` against `s` starting at `i`.
pub open spec fn match_cs(s: Seq<char>, i: int, kw: Seq<char>) -> bool
    decreases kw.len(),
{
    if kw.len() == 0 {
        true
    } else {
        0 <= i < s.len() && s[i] == kw[0] && match_cs(s, i + 1, kw.drop_first())
    }
}

/// A successful match lies entirely within `s`.
pub proof fn lemma_match_ci_bounds(s: Seq<char>, i: int, kw: Seq<char>)
    requires
        match_ci(s, i, kw),
        kw.len() > 0,
    ensures
        0 <= i,
        i + kw.len() <= s.len(),
    decreases kw.len(),
{
    if kw.len() > 1 {
        lemma_match_ci_bounds(s, i + 1, kw.drop_first());
    }
}

/// End of the run of ASCII digits starting at `i`.
pub open spec fn digit_run_end(s: Seq<char>, i: int) -> int
    decreases s.len() - i,
{
    if 0 <= i < s.len() && is_digit(s[i]) {
        digit_run_end(s, i + 1)
    } else {
        i
    }
}

pub proof fn lemma_digit_run_end(s: Seq<char>, i: int)
    requires
        0 <= i <= s.len(),
    ensures
        i <= digit_run_end(s, i) <= s.len(),
        i < s.len() && is_digit(s[i]) ==> digit_run_end(s, i) > i,
    decreases s.len() - i,
{
    if i < s.len() && is_digit(s[i]) {
        lemma_digit_run_end(s, i + 1);
    }
}

/// End of the run of ASCII whitespace starting at `i`.
pub open spec fn ws_end(s: Seq<char>, i: int) -> int
    decreases s.len() - i,
{
    if 0 <= i < s.len() && is_space(s[i]) {
        ws_end(s, i + 1)
    } else {
        i
    }
}

pub proof fn lemma_ws_end(s: Seq<char>, i: int)
    requires
        0 <= i <= s.len(),
    ensures
        i <= ws_end(s, i) <= s.len(),
    decreases s.len() - i,
{
    if i < s.len() && is_space(s[i]) {
        lemma_ws_end(s, i + 1);
    }
}

/// Value of the digit run `s[i..j)` read as a decimal number.
pub open spec fn digits_val(s: Seq<char>, i: int, j: int) -> int
    decreases j - i,
{
    if j <= i {
        0
    } else {
        digits_val(s, i, j - 1) * 10 + digit_of(s[j - 1])
    }
}

/// The delta unit named at position `k`, if any. Unit designators are
/// case-sensitive: "M" alone is months; "m" is minutes unless it opens
/// the word "month".
pub open spec fn unit_at(s: Seq<char>, k: int) -> Option<Unit> {
    if 0 <= k < s.len() {
        let c = s[k];
        if c == 'M' {
            Some(Unit::Month)
        } else if c == 'm' {
            if match_cs(s, k, "month"@) {
                Some(Unit::Month)
            } else {
                Some(Unit::Minute)
            }
        } else if c == 'y' {
            Some(Unit::Year)
        } else if c == 'w' {
            Some(Unit::Week)
        } else if c == 'd' {
            Some(Unit::Day)
        } else if c == 'h' {
            Some(Unit::Hour)
        } else if c == 's' {
            Some(Unit::Second)
        } else {
            None
        }
    } else {
        None
    }
}

/// All numeric deltas in `s`, left to right: a digit run, optional
/// whitespace, then a unit designator. A digit run with no unit after
/// it is skipped.
pub open spec fn scan_deltas(s: Seq<char>, i: int) -> Seq<(int, Unit)>
    decreases s.len() - i,
    when 0 <= i
    via scan_deltas_decreases
{
    if i >= s.len() {
        Seq::<(int, Unit)>::empty()
    } else if is_digit(s[i]) {
        let j = digit_run_end(s, i);
        let k = ws_end(s, j);
        match unit_at(s, k) {
            Some(u) => seq![(digits_val(s, i, j), u)] + scan_deltas(s, k + 1),
            None => scan_deltas(s, j),
        }
    } else {
        scan_deltas(s, i + 1)
    }
}

#[via_fn]
proof fn scan_deltas_decreases(s: Seq<char>, i: int) {
    if 0 <= i < s.len() && is_digit(s[i]) {
        lemma_digit_run_end(s, i);
        lemma_ws_end(s, digit_run_end(s, i));
    }
}

/// Whether "tomorrow" occurs anywhere in `s` (case-insensitively).
pub open spec fn find_tomorrow(s: Seq<char>, i: int) -> bool
    decreases s.len() - i,
{
    if 0 <= i <= s.len() {
        if match_ci(s, i, "tomorrow"@) {
            true
        } else if i < s.len() {
            find_tomorrow(s, i + 1)
        } else {
            false
        }
    } else {
        false
    }
}

/// The weekday (days from Monday) named at position `i`, if any.
pub open spec fn weekday_at(s: Seq<char>, i: int) -> Option<int> {
    if match_ci(s, i, "monday"@) {
        Some(0int)
    } else if match_ci(s, i, "tuesday"@) {
        Some(1int)
    } else if match_ci(s, i, "wednesday"@) {
        Some(2int)
    } else if match_ci(s, i, "thursday"@) {
        Some(3int)
    } else if match_ci(s, i, "friday"@) {
        Some(4int)
    } else if match_ci(s, i, "saturday"@) {
        Some(5int)
    } else if match_ci(s, i, "sunday"@) {
        Some(6int)
    } else {
        None
    }
}

/// The leftmost weekday name in `s`, if any.
pub open spec fn find_weekday(s: Seq<char>, i: int) -> Option<int>
    decreases s.len() - i,
{
    if 0 <= i < s.len() {
        match weekday_at(s, i) {
            Some(d) => Some(d),
            None => find_weekday(s, i + 1),
        }
    } else {
        None
    }
}

/// Length of the optional tail of a month name ("uary" after "jan",
/// and so on) at position `j`.
pub open spec fn suffix_len(s: Seq<char>, j: int, suf: Seq<char>) -> int {
    if match_ci(s, j, suf) {
        suf.len() as int
    } else {
        0
    }
}

/// The month (0-based) named at position `i`, with the position just
/// past the name: a three-letter abbreviation plus an optional full
/// spelling ("jan" or "january").
pub open spec fn month_at(s: Seq<char>, i: int) -> Option<(int, int)> {
    if match_ci(s, i, "jan"@) {
        Some((0int, i + 3 + suffix_len(s, i + 3, "uary"@)))
    } else if match_ci(s, i, "feb"@) {
        Some((1int, i + 3 + suffix_len(s, i + 3, "ruary"@)))
    } else if match_ci(s, i, "mar"@) {
        Some((2int, i + 3 + suffix_len(s, i + 3, "ch"@)))
    } else if match_ci(s, i, "apr"@) {
        Some((3int, i + 3 + suffix_len(s, i + 3, "il"@)))
    } else if match_ci(s, i, "may"@) {
        Some((4int, i + 3))
    } else if match_ci(s, i, "jun"@) {
        Some((5int, i + 3 + suffix_len(s, i + 3, "e"@)))
    } else if match_ci(s, i, "jul"@) {
        Some((6int, i + 3 + suffix_len(s, i + 3, "y"@)))
    } else if match_ci(s, i, "aug"@) {
        Some((7int, i + 3 + suffix_len(s, i + 3, "ust"@)))
    } else if match_ci(s, i, "sep"@) {
        Some((8int, i + 3 + suffix_len(s, i + 3, "tember"@)))
    } else if match_ci(s, i, "oct"@) {
        Some((9int, i + 3 + suffix_len(s, i + 3, "ober"@)))
    } else if match_ci(s, i, "nov"@) {
        Some((10int, i + 3 + suffix_len(s, i + 3, "ember"@)))
    } else if match_ci(s, i, "dec"@) {
        Some((11int, i + 3 + suffix_len(s, i + 3, "ember"@)))
    } else {
        None
    }
}

/// A month name at `i` followed by optional whitespace and a digit
/// run: the month, the day value, and the position past the digits.
pub open spec fn monthday_at(s: Seq<char>, i: int) -> Option<(int, int, int)> {
    match month_at(s, i) {
        None => None,
        Some((m, e)) => {
            let k = ws_end(s, e);
            let j = digit_run_end(s, k);
            if j > k {
                Some((m, digits_val(s, k, j), j))
            } else {
                None
            }
        },
    }
}

/// All month-plus-day matches in `s`, left to right.
pub open spec fn scan_monthdays(s: Seq<char>, i: int) -> Seq<(int, int)>
    decreases s.len() - i,
    when 0 <= i
    via scan_monthdays_decreases
{
    if i >= s.len() {
        Seq::<(int, int)>::empty()
    } else {
        match monthday_at(s, i) {
            Some((m, d, e)) => seq![(m, d)] + scan_monthdays(s, e),
            None => scan_monthdays(s, i + 1),
        }
    }
}

#[via_fn]
proof fn scan_monthdays_decreases(s: Seq<char>, i: int) {
    if 0 <= i < s.len() {
        if month_at(s, i) is Some {
            let e = month_at(s, i)->Some_0.1;
            lemma_month_at(s, i);
            lemma_ws_end(s, e);
            lemma_digit_run_end(s, ws_end(s, e));
        }
    }
}

/// A month name match lies within `s` and ends after its start.
pub proof fn lemma_month_at(s: Seq<char>, i: int)
    requires
        month_at(s, i) is Some,
    ensures
        i + 3 <= month_at(s, i)->Some_0.1 <= s.len(),
        0 <= i,
{
    reveal_strlit("jan");
    reveal_strlit("feb");
    reveal_strlit("mar");
    reveal_strlit("apr");
    reveal_strlit("may");
    reveal_strlit("jun");
    reveal_strlit("jul");
    reveal_strlit("aug");
    reveal_strlit("sep");
    reveal_strlit("oct");
    reveal_strlit("nov");
    reveal_strlit("dec");
    reveal_strlit("uary");
    reveal_strlit("ruary");
    reveal_strlit("ch");
    reveal_strlit("il");
    reveal_strlit("e");
    reveal_strlit("y");
    reveal_strlit("ust");
    reveal_strlit("tember");
    reveal_strlit("ober");
    reveal_strlit("ember");
    if match_ci(s, i, "jan"@) {
        lemma_match_ci_bounds(s, i, "jan"@);
        if match_ci(s, i + 3, "uary"@) {
            lemma_match_ci_bounds(s, i + 3, "uary"@);
        }
    } else if match_ci(s, i, "feb"@) {
        lemma_match_ci_bounds(s, i, "feb"@);
        if match_ci(s, i + 3, "ruary"@) {
            lemma_match_ci_bounds(s, i + 3, "ruary"@);
        }
    } else if match_ci(s, i, "mar"@) {
        lemma_match_ci_bounds(s, i, "mar"@);
        if match_ci(s, i + 3, "ch"@) {
            lemma_match_ci_bounds(s, i + 3, "ch"@);
        }
    } else if match_ci(s, i, "apr"@) {
        lemma_match_ci_bounds(s, i, "apr"@);
        if match_ci(s, i + 3, "il"@) {
            lemma_match_ci_bounds(s, i + 3, "il"@);
        }
    } else if match_ci(s, i, "may"@) {
        lemma_match_ci_bounds(s, i, "may"@);
    } else if match_ci(s, i, "jun"@) {
        lemma_match_ci_bounds(s, i, "jun"@);
        if match_ci(s, i + 3, "e"@) {
            lemma_match_ci_bounds(s, i + 3, "e"@);
        }
    } else if match_ci(s, i, "jul"@) {
        lemma_match_ci_bounds(s, i, "jul"@);
        if match_ci(s, i + 3, "y"@) {
            lemma_match_ci_bounds(s, i + 3, "y"@);
        }
    } else if match_ci(s, i, "aug"@) {
        lemma_match_ci_bounds(s, i, "aug"@);
        if match_ci(s, i + 3, "ust"@) {
            lemma_match_ci_bounds(s, i + 3, "ust"@);
        }
    } else if match_ci(s, i, "sep"@) {
        lemma_match_ci_bounds(s, i, "sep"@);
        if match_ci(s, i + 3, "tember"@) {
            lemma_match_ci_bounds(s, i + 3, "tember"@);
        }
    } else if match_ci(s, i, "oct"@) {
        lemma_match_ci_bounds(s, i, "oct"@);
        if match_ci(s, i + 3, "ober"@) {
            lemma_match_ci_bounds(s, i + 3, "ober"@);
        }
    } else if match_ci(s, i, "nov"@) {
        lemma_match_ci_bounds(s, i, "nov"@);
        if match_ci(s, i + 3, "ember"@) {
            lemma_match_ci_bounds(s, i + 3, "ember"@);
        }
    } else {
        lemma_match_ci_bounds(s, i, "dec"@);
        if match_ci(s, i + 3, "ember"@) {
            lemma_match_ci_bounds(s, i + 3, "ember"@);
        }
    }
}

/// One scanned numeric delta: the unit, and the magnitude unless it
/// overflowed 32 bits (the recognizer rejects those).
pub struct DeltaTok {
    pub value: Option<u32>,
    pub unit: Unit,
}

/// One scanned month-plus-day: the 0-based month, and the day value
/// unless it overflowed 32 bits.
pub struct MonthDayTok {
    pub month0: u8,
    pub day: Option<u32>,
}

/// The scanned tokens carry exactly the values and units of the
/// mathematical scan, with overflowing magnitudes marked.
pub open spec fn toks_match(toks: Seq<DeltaTok>, specs: Seq<(int, Unit)>) -> bool {
    toks.len() == specs.len() && forall|i: int|
        0 <= i < toks.len() ==> {
            let t = #[trigger] toks[i];
            t.unit == specs[i].1 && 0 <= specs[i].0 && (specs[i].0 <= 0xFFFF_FFFF ==> t.value
                == Some(specs[i].0 as u32)) && (specs[i].0 > 0xFFFF_FFFF ==> t.value is None)
        }
}

pub open spec fn mds_match(toks: Seq<MonthDayTok>, specs: Seq<(int, int)>) -> bool {
    toks.len() == specs.len() && forall|i: int|
        0 <= i < toks.len() ==> {
            let t = #[trigger] toks[i];
            t.month0 == specs[i].0 && t.month0 < 12 && 0 <= specs[i].1 && (specs[i].1
                <= 0xFFFF_FFFF ==> t.day == Some(specs[i].1 as u32)) && (specs[i].1 > 0xFFFF_FFFF
                ==> t.day is None)
        }
}

/// Whether two characters are equal up to ASCII case.
fn eq_ci(c1: char, c2: char) -> (r: bool)
    ensures
        r == (lc(c1) == lc(c2)),
{
    if c1 == c2 {
        true
    } else if c1 >= 'A' && c1 <= 'Z' && c2 >= 'a' && c2 <= 'z' {
        (c1 as u32) + 32 == (c2 as u32)
    } else if c2 >= 'A' && c2 <= 'Z' && c1 >= 'a' && c1 <= 'z' {
        (c2 as u32) + 32 == (c1 as u32)
    } else {
        false
    }
}

/// Case-insensitive comparison of `kw` against `s` at position `i`.
fn match_ci_exec(s: &Vec<char>, i: usize, kw: &str) -> (r: bool)
    requires
        i <= s@.len(),
    ensures
        r == match_ci(s@, i as int, kw@),
{
    let n = kw.unicode_len();
    let mut j: usize = 0;
    proof {
        assert(kw@.skip(0) =~= kw@);
    }
    while j < n
        invariant
            j <= n,
            n == kw@.len(),
            i <= s@.len(),
            match_ci(s@, i as int, kw@) == match_ci(s@, i + j, kw@.skip(j as int)),
        decreases n - j,
    {
        proof {
            assert(kw@.skip(j as int).len() == n - j);
            assert(kw@.skip(j as int)[0] == kw@[j as int]);
            assert(kw@.skip(j as int).drop_first() =~= kw@.skip(j as int + 1));
        }
        if s.len() - i <= j {
            return false;
        }
        let c1 = s[i + j];
        let c2 = kw.get_char(j);
        if !eq_ci(c1, c2) {
            return false;
        }
        j = j + 1;
    }
    proof {
        assert(kw@.skip(n as int).len() == 0);
    }
    true
}

/// Case-sensitive comparison of `kw` against `s` at position `i`.
pub(crate) fn match_cs_exec(s: &Vec<char>, i: usize, kw: &str) -> (r: bool)
    requires
        i <= s@.len(),
    ensures
        r == match_cs(s@, i as int, kw@),
{
    let n = kw.unicode_len();
    let mut j: usize = 0;
    proof {
        assert(kw@.skip(0) =~= kw@);
    }
    while j < n
        invariant
            j <= n,
            n == kw@.len(),
            i <= s@.len(),
            match_cs(s@, i as int, kw@) == match_cs(s@, i + j, kw@.skip(j as int)),
        decreases n - j,
    {
        proof {
            assert(kw@.skip(j as int).len() == n - j);
            assert(kw@.skip(j as int)[0] == kw@[j as int]);
            assert(kw@.skip(j as int).drop_first() =~= kw@.skip(j as int + 1));
        }
        if s.len() - i <= j {
            return false;
        }
        let c1 = s[i + j];
        let c2 = kw.get_char(j);
        if c1 != c2 {
            return false;
        }
        j = j + 1;
    }
    proof {
        assert(kw@.skip(n as int).len() == 0);
    }
    true
}

/// Walks the digit run starting at `start`: its end, and its decimal
/// value unless that value exceeds 32 bits.
fn digit_run_exec(s: &Vec<char>, start: usize) -> (r: (usize, Option<u32>))
    requires
        start <= s@.len(),
    ensures
        r.0 as int == digit_run_end(s@, start as int),
        start <= r.0 <= s@.len(),
        0 <= digits_val(s@, start as int, digit_run_end(s@, start as int)),
        digits_val(s@, start as int, digit_run_end(s@, start as int)) <= 0xFFFF_FFFF ==> r.1
            == Some(digits_val(s@, start as int, digit_run_end(s@, start as int)) as u32),
        digits_val(s@, start as int, digit_run_end(s@, start as int)) > 0xFFFF_FFFF ==> r.1
            is None,
{
    let n = s.len();
    let mut j: usize = start;
    let mut val: u64 = 0;
    let mut ovf: bool = false;
    while j < n && s[j] >= '0' && s[j] <= '9'
        invariant
            start <= j <= n,
            n == s@.len(),
            digit_run_end(s@, start as int) == digit_run_end(s@, j as int),
            !ovf ==> val == digits_val(s@, start as int, j as int) && val <= 0xFFFF_FFFF,
            ovf ==> digits_val(s@, start as int, j as int) > 0xFFFF_FFFF,
        decreases n - j,
    {
        let d: u64 = (s[j] as u32 - 48) as u64;
        assert(48 <= s@[j as int] as int <= 57);
        proof {
            assert(is_digit(s@[j as int]));
            assert(digit_run_end(s@, j as int) == digit_run_end(s@, j as int + 1));
            assert(digits_val(s@, start as int, j as int + 1) == digits_val(
                s@,
                start as int,
                j as int,
            ) * 10 + digit_of(s@[j as int]));
            if ovf {
                let dv = digits_val(s@, start as int, j as int);
                assert(dv * 10 >= dv + dv) by (nonlinear_arith)
                    requires
                        dv > 0,
                ;
            }
        }
        if !ovf {
            let nv: u64 = val * 10 + d;
            if nv > 0xFFFF_FFFF {
                ovf = true;
            } else {
                val = nv;
            }
        }
        j = j + 1;
    }
    proof {
        assert(digit_run_end(s@, j as int) == j);
    }
    (j, if ovf {
        None
    } else {
        Some(val as u32)
    })
}

/// Skips ASCII whitespace starting at `start`.
fn ws_skip_exec(s: &Vec<char>, start: usize) -> (r: usize)
    requires
        start <= s@.len(),
    ensures
        r as int == ws_end(s@, start as int),
        start <= r <= s@.len(),
{
    let n = s.len();
    let mut k: usize = start;
    while k < n && (s[k] == ' ' || s[k] == '\t' || s[k] == '\n' || s[k] == '\r' || s[k]
        == '\u{b}' || s[k] == '\u{c}')
        invariant
            start <= k <= n,
            n == s@.len(),
            ws_end(s@, start as int) == ws_end(s@, k as int),
        decreases n - k,
    {
        proof {
            assert(is_space(s@[k as int]));
            assert(ws_end(s@, k as int) == ws_end(s@, k as int + 1));
        }
        k = k + 1;
    }
    proof {
        assert(ws_end(s@, k as int) == k);
    }
    k
}

/// Scans all numeric deltas in `s`, left to right.
pub fn scan_deltas_exec(s: &Vec<char>) -> (r: Vec<DeltaTok>)
    ensures
        toks_match(r@, scan_deltas(s@, 0)),
{
    let n = s.len();
    let mut toks: Vec<DeltaTok> = Vec::new();
    let ghost mut pre: Seq<(int, Unit)> = Seq::empty();
    let mut i: usize = 0;
    proof {
        assert(pre + scan_deltas(s@, 0) =~= scan_deltas(s@, 0));
    }
    while i < n
        invariant
            i <= n,
            n == s@.len(),
            scan_deltas(s@, 0) == pre + scan_deltas(s@, i as int),
            toks_match(toks@, pre),
        decreases n - i,
    {
        let c = s[i];
        if c >= '0' && c <= '9' {
            let ghost iv = i as int;
            let (j, value) = digit_run_exec(s, i);
            let k = ws_skip_exec(s, j);
            let u_opt: Option<Unit> = if k < n {
                let ck = s[k];
                if ck == 'M' {
                    Some(Unit::Month)
                } else if ck == 'm' {
                    if match_cs_exec(s, k, "month") {
                        Some(Unit::Month)
                    } else {
                        Some(Unit::Minute)
                    }
                } else if ck == 'y' {
                    Some(Unit::Year)
                } else if ck == 'w' {
                    Some(Unit::Week)
                } else if ck == 'd' {
                    Some(Unit::Day)
                } else if ck == 'h' {
                    Some(Unit::Hour)
                } else if ck == 's' {
                    Some(Unit::Second)
                } else {
                    None
                }
            } else {
                None
            };
            proof {
                assert(is_digit(s@[iv]));
                assert(u_opt == unit_at(s@, k as int));
            }
            match u_opt {
                Some(u) => {
                    let tok = DeltaTok { value, unit: u };
                    toks.push(tok);
                    let ghost dv = digits_val(s@, iv, j as int);
                    proof {
                        let ghost pre2 = pre + seq![(dv, u)];
                        assert(scan_deltas(s@, iv) == seq![(dv, u)] + scan_deltas(
                            s@,
                            k as int + 1,
                        ));
                        assert(pre2 + scan_deltas(s@, k as int + 1) =~= pre + scan_deltas(s@, iv));
                        assert(toks_match(toks@, pre2)) by {
                            assert(pre2.len() == toks@.len());
                            assert(pre2[pre.len() as int] == (dv, u));
                            assert(toks@[pre.len() as int] == tok);
                            assert(forall|x: int| 0 <= x < pre.len() ==> #[trigger] toks@[x]
                                == toks@.drop_last()[x]);
                        }
                        pre = pre2;
                    }
                    proof {
                        lemma_digit_run_end(s@, iv);
                    }
                    i = k + 1;
                },
                None => {
                    proof {
                        assert(scan_deltas(s@, iv) == scan_deltas(s@, j as int));
                        lemma_digit_run_end(s@, iv);
                    }
                    i = j;
                },
            }
        } else {
            proof {
                assert(!is_digit(s@[i as int]));
                assert(scan_deltas(s@, i as int) == scan_deltas(s@, i as int + 1));
            }
            i = i + 1;
        }
    }
    proof {
        assert(scan_deltas(s@, n as int) =~= Seq::<(int, Unit)>::empty());
        assert(pre =~= scan_deltas(s@, 0));
    }
    toks
}

/// Whether "tomorrow" occurs anywhere in `s`.
pub fn has_tomorrow_exec(s: &Vec<char>) -> (r: bool)
    ensures
        r == find_tomorrow(s@, 0),
{
    let n = s.len();
    let mut i: usize = 0;
    while i < n
        invariant
            i <= n,
            n == s@.len(),
            find_tomorrow(s@, 0) == find_tomorrow(s@, i as int),
        decreases n - i,
    {
        if match_ci_exec(s, i, "tomorrow") {
            return true;
        }
        i = i + 1;
    }
    proof {
        reveal_strlit("tomorrow");
        assert(!match_ci(s@, n as int, "tomorrow"@));
    }
    false
}

/// The leftmost weekday name in `s`, as days from Monday.
pub fn find_weekday_exec(s: &Vec<char>) -> (r: Option<u8>)
    ensures
        match r {
            Some(d) => find_weekday(s@, 0) == Some(d as int) && d < 7,
            None => find_weekday(s@, 0) is None,
        },
{
    let n = s.len();
    let mut i: usize = 0;
    while i < n
        invariant
            i <= n,
            n == s@.len(),
            find_weekday(s@, 0) == find_weekday(s@, i as int),
        decreases n - i,
    {
        let d: Option<u8> = if match_ci_exec(s, i, "monday") {
            Some(0)
        } else if match_ci_exec(s, i, "tuesday") {
            Some(1)
        } else if match_ci_exec(s, i, "wednesday") {
            Some(2)
        } else if match_ci_exec(s, i, "thursday") {
            Some(3)
        } else if match_ci_exec(s, i, "friday") {
            Some(4)
        } else if match_ci_exec(s, i, "saturday") {
            Some(5)
        } else if match_ci_exec(s, i, "sunday") {
            Some(6)
        } else {
            None
        };
        match d {
            Some(v) => {
                proof {
                    assert(weekday_at(s@, i as int) == Some(v as int));
                }
                return Some(v);
            },
            None => {
                proof {
                    assert(weekday_at(s@, i as int) is None);
                }
                i = i + 1;
            },
        }
    }
    None
}

/// The month name at position `i`, with the position just past it.
fn month_at_exec(s: &Vec<char>, i: usize) -> (r: Option<(u8, usize)>)
    requires
        i < s@.len(),
    ensures
        match r {
            Some(p) => month_at(s@, i as int) == Some((p.0 as int, p.1 as int)) && i < p.1
                <= s@.len() && p.0 < 12,
            None => month_at(s@, i as int) is None,
        },
{
    proof {
        lemma_month_names();
    }
    let n = s.len();
    let r: Option<(u8, usize)> = if match_ci_exec(s, i, "jan") {
        proof {
            lemma_match_ci_bounds(s@, i as int, "jan"@);
        }
        Some((0, i + 3 + suffix_exec(s, i + 3, "uary")))
    } else if match_ci_exec(s, i, "feb") {
        proof {
            lemma_match_ci_bounds(s@, i as int, "feb"@);
        }
        Some((1, i + 3 + suffix_exec(s, i + 3, "ruary")))
    } else if match_ci_exec(s, i, "mar") {
        proof {
            lemma_match_ci_bounds(s@, i as int, "mar"@);
        }
        Some((2, i + 3 + suffix_exec(s, i + 3, "ch")))
    } else if match_ci_exec(s, i, "apr") {
        proof {
            lemma_match_ci_bounds(s@, i as int, "apr"@);
        }
        Some((3, i + 3 + suffix_exec(s, i + 3, "il")))
    } else if match_ci_exec(s, i, "may") {
        proof {
            lemma_match_ci_bounds(s@, i as int, "may"@);
        }
        Some((4, i + 3))
    } else if match_ci_exec(s, i, "jun") {
        proof {
            lemma_match_ci_bounds(s@, i as int, "jun"@);
        }
        Some((5, i + 3 + suffix_exec(s, i + 3, "e")))
    } else if match_ci_exec(s, i, "jul") {
        proof {
            lemma_match_ci_bounds(s@, i as int, "jul"@);
        }
        Some((6, i + 3 + suffix_exec(s, i + 3, "y")))
    } else if match_ci_exec(s, i, "aug") {
        proof {
            lemma_match_ci_bounds(s@, i as int, "aug"@);
        }
        Some((7, i + 3 + suffix_exec(s, i + 3, "ust")))
    } else if match_ci_exec(s, i, "sep") {
        proof {
            lemma_match_ci_bounds(s@, i as int, "sep"@);
        }
        Some((8, i + 3 + suffix_exec(s, i + 3, "tember")))
    } else if match_ci_exec(s, i, "oct") {
        proof {
            lemma_match_ci_bounds(s@, i as int, "oct"@);
        }
        Some((9, i + 3 + suffix_exec(s, i + 3, "ober")))
    } else if match_ci_exec(s, i, "nov") {
        proof {
            lemma_match_ci_bounds(s@, i as int, "nov"@);
        }
        Some((10, i + 3 + suffix_exec(s, i + 3, "ember")))
    } else if match_ci_exec(s, i, "dec") {
        proof {
            lemma_match_ci_bounds(s@, i as int, "dec"@);
        }
        Some((11, i + 3 + suffix_exec(s, i + 3, "ember")))
    } else {
        None
    };
    r
}

/// The month-name string literals have the lengths their spellings show.
proof fn lemma_month_names()
    ensures
        "jan"@.len() == 3 && "feb"@.len() == 3 && "mar"@.len() == 3 && "apr"@.len() == 3 && "may"@
            .len() == 3 && "jun"@.len() == 3 && "jul"@.len() == 3 && "aug"@.len() == 3 && "sep"@
            .len() == 3 && "oct"@.len() == 3 && "nov"@.len() == 3 && "dec"@.len() == 3,
        "uary"@.len() == 4 && "ruary"@.len() == 5 && "ch"@.len() == 2 && "il"@.len() == 2 && "e"@
            .len() == 1 && "y"@.len() == 1 && "ust"@.len() == 3 && "tember"@.len() == 6 && "ober"@
            .len() == 4 && "ember"@.len() == 5,
{
    reveal_strlit("uary");
    reveal_strlit("ruary");
    reveal_strlit("ch");
    reveal_strlit("il");
    reveal_strlit("e");
    reveal_strlit("y");
    reveal_strlit("ust");
    reveal_strlit("tember");
    reveal_strlit("ober");
    reveal_strlit("ember");
    reveal_strlit("jan");
    reveal_strlit("feb");
    reveal_strlit("mar");
    reveal_strlit("apr");
    reveal_strlit("may");
    reveal_strlit("jun");
    reveal_strlit("jul");
    reveal_strlit("aug");
    reveal_strlit("sep");
    reveal_strlit("oct");
    reveal_strlit("nov");
    reveal_strlit("dec");
}

/// Consumes the optional tail of a month name.
fn suffix_exec(s: &Vec<char>, j: usize, suf: &str) -> (r: usize)
    requires
        j <= s@.len(),
        suf@.len() > 0,
    ensures
        r as int == suffix_len(s@, j as int, suf@),
        j + r <= s@.len(),
{
    if match_ci_exec(s, j, suf) {
        proof {
            lemma_match_ci_bounds(s@, j as int, suf@);
        }
        suf.unicode_len()
    } else {
        0
    }
}

/// Scans all month-plus-day matches in `s`, left to right.
pub fn scan_monthdays_exec(s: &Vec<char>) -> (r: Vec<MonthDayTok>)
    ensures
        mds_match(r@, scan_monthdays(s@, 0)),
{
    let n = s.len();
    let mut toks: Vec<MonthDayTok> = Vec::new();
    let ghost mut pre: Seq<(int, int)> = Seq::empty();
    let mut i: usize = 0;
    proof {
        assert(pre + scan_monthdays(s@, 0) =~= scan_monthdays(s@, 0));
    }
    while i < n
        invariant
            i <= n,
            n == s@.len(),
            scan_monthdays(s@, 0) == pre + scan_monthdays(s@, i as int),
            mds_match(toks@, pre),
        decreases n - i,
    {
        let ghost iv = i as int;
        match month_at_exec(s, i) {
            None => {
                proof {
                    assert(monthday_at(s@, iv) is None);
                    assert(scan_monthdays(s@, iv) == scan_monthdays(s@, iv + 1));
                }
                i = i + 1;
            },
            Some((m, e)) => {
                let k = ws_skip_exec(s, e);
                let (j, day) = digit_run_exec(s, k);
                if j == k {
                    proof {
                        assert(monthday_at(s@, iv) is None);
                        assert(scan_monthdays(s@, iv) == scan_monthdays(s@, iv + 1));
                    }
                    i = i + 1;
                } else {
                    let tok = MonthDayTok { month0: m, day };
                    toks.push(tok);
                    let ghost dv = digits_val(s@, k as int, j as int);
                    proof {
                        assert(monthday_at(s@, iv) == Some((m as int, dv, j as int)));
                        let ghost pre2 = pre + seq![(m as int, dv)];
                        assert(scan_monthdays(s@, iv) == seq![(m as int, dv)] + scan_monthdays(
                            s@,
                            j as int,
                        ));
                        assert(pre2 + scan_monthdays(s@, j as int) =~= pre + scan_monthdays(
                            s@,
                            iv,
                        ));
                        assert(mds_match(toks@, pre2)) by {
                            assert(pre2.len() == toks@.len());
                            assert(pre2[pre.len() as int] == (m as int, dv));
                            assert(toks@[pre.len() as int] == tok);
                            assert(forall|x: int| 0 <= x < pre.len() ==> #[trigger] toks@[x]
                                == toks@.drop_last()[x]);
                        }
                        pre = pre2;
                    }
                    i = j;
                }
            },
        }
    }
    proof {
        assert(scan_monthdays(s@, n as int) =~= Seq::<(int, int)>::empty());
        assert(pre =~= scan_monthdays(s@, 0));
    }
    toks
}

} // verus!
