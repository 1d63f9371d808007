//! Rendering a span of seconds as an English phrase such as
//! "1 year, 2 weeks and 3 days": years use a 365-day approximation,
//! zero-valued units are omitted, unit names pluralize when the
//! magnitude is not one, and the final pair is joined with " and ".

use vstd::prelude::*;

verus! {

/// The decimal digit character for `d` (0 through 9).
pub open spec fn dchar(d: int) -> char {
    if d == 0 {
        '0'
    } else if d == 1 {
        '1'
    } else if d == 2 {
        '2'
    } else if d == 3 {
        '3'
    } else if d == 4 {
        '4'
    } else if d == 5 {
        '5'
    } else if d == 6 {
        '6'
    } else if d == 7 {
        '7'
    } else if d == 8 {
        '8'
    } else {
        '9'
    }
}

/// Decimal rendering of a non-negative integer, most significant digit
/// first, with no leading zeros (except for 0 itself).
pub open spec fn spec_dec(n: int) -> Seq<char>
    decreases n,
{
    if n < 10 {
        seq![dchar(n)]
    } else {
        spec_dec(n / 10).push(dchar(n % 10))
    }
}

/// One formatted part: the magnitude, a space, the unit name, and a
/// plural "s" when the magnitude is not one.
pub open spec fn part_phrase(n: int, name: Seq<char>) -> Seq<char> {
    spec_dec(n) + " "@ + name + (if n != 1 {
        "s"@
    } else {
        Seq::<char>::empty()
    })
}

/// The formatted part for one unit, or nothing when its magnitude is 0.
pub open spec fn opt_part(n: int, name: Seq<char>) -> Seq<Seq<char>> {
    if n != 0 {
        seq![part_phrase(n, name)]
    } else {
        Seq::<Seq<char>>::empty()
    }
}

/// The non-zero parts of `total` seconds, largest unit first: years
/// (365 days), weeks, days, hours, minutes, seconds.
pub open spec fn spec_parts(total: int) -> Seq<Seq<char>> {
    let days_all = total / 86400;
    let years = days_all / 365;
    let rem_days = days_all % 365;
    let weeks = rem_days / 7;
    let days = rem_days % 7;
    let hours = (total / 3600) % 24;
    let minutes = (total / 60) % 60;
    let seconds = total % 60;
    opt_part(years, "year"@) + opt_part(weeks, "week"@) + opt_part(days, "day"@) + opt_part(
        hours,
        "hour"@,
    ) + opt_part(minutes, "minute"@) + opt_part(seconds, "second"@)
}

/// Parts joined with ", ", except the final pair, joined with " and ";
/// a single part stands alone and no parts yield the empty string.
pub open spec fn and_comma_join(parts: Seq<Seq<char>>) -> Seq<char>
    decreases parts.len(),
{
    if parts.len() == 0 {
        Seq::<char>::empty()
    } else if parts.len() == 1 {
        parts[0]
    } else if parts.len() == 2 {
        parts[0] + " and "@ + parts[1]
    } else {
        parts[0] + ", "@ + and_comma_join(parts.drop_first())
    }
}

/// The single-character string for decimal digit `d`.
fn digit_str(d: u8) -> (r: &'static str)
    requires
        d < 10,
    ensures
        r@ == seq![dchar(d as int)],
{
    proof {
        reveal_strlit("0");
        reveal_strlit("1");
        reveal_strlit("2");
        reveal_strlit("3");
        reveal_strlit("4");
        reveal_strlit("5");
        reveal_strlit("6");
        reveal_strlit("7");
        reveal_strlit("8");
        reveal_strlit("9");
    }
    let r = match d {
        0 => "0",
        1 => "1",
        2 => "2",
        3 => "3",
        4 => "4",
        5 => "5",
        6 => "6",
        7 => "7",
        8 => "8",
        _ => "9",
    };
    proof {
        assert(r@ =~= seq![dchar(d as int)]);
    }
    r
}

/// Renders `n` in decimal.
pub fn dec_str(n: u64) -> (r: String)
    ensures
        r@ == spec_dec(n as int),
    decreases n,
{
    if n < 10 {
        String::from_str(digit_str(n as u8))
    } else {
        proof {
            vstd::arithmetic::div_mod::lemma_div_is_strictly_smaller(n as int, 10int);
        }
        let mut s = dec_str(n / 10);
        s.append(digit_str((n % 10) as u8));
        s
    }
}

/// Joins already-formatted parts with ", " and a final " and ".
pub fn and_comma_split(parts: &Vec<String>) -> (r: String)
    ensures
        r@ == and_comma_join(parts.deep_view()),
{
    let ghost dv = parts.deep_view();
    let n = parts.len();
    let mut res = String::new();
    let mut i: usize = 0;
    proof {
        assert(dv.skip(0) =~= dv);
        assert(res@ + and_comma_join(dv) =~= and_comma_join(dv));
    }
    while i < n
        invariant
            i <= n,
            n == parts.len(),
            dv == parts.deep_view(),
            dv.len() == n,
            res@ + and_comma_join(dv.skip(i as int)) == and_comma_join(dv),
        decreases n - i,
    {
        proof {
            assert(dv.skip(i as int).len() == n - i);
            assert(dv.skip(i as int)[0] == dv[i as int]);
        }
        res.append(parts[i].as_str());
        let left = n - i;
        if left == 2 {
            res.append(" and ");
        } else if left > 2 {
            res.append(", ");
        }
        proof {
            assert(dv.skip(i as int).drop_first() =~= dv.skip(i as int + 1));
            if left == 1 {
                assert(dv.skip(i as int + 1) =~= Seq::<Seq<char>>::empty());
                assert(and_comma_join(dv.skip(i as int)) == dv[i as int]);
            } else if left == 2 {
                assert(dv.skip(i as int + 1).len() == 1);
                assert(dv.skip(i as int + 1)[0] == dv[i as int + 1]);
                assert(and_comma_join(dv.skip(i as int)) == dv[i as int] + " and "@ + dv[i as int
                    + 1]);
                assert(and_comma_join(dv.skip(i as int + 1)) == dv[i as int + 1]);
            } else {
                if dv.skip(i as int).len() == 2 {
                } else {
                    assert(and_comma_join(dv.skip(i as int)) == dv[i as int] + ", "@
                        + and_comma_join(dv.skip(i as int + 1)));
                }
            }
            assert(res@ + and_comma_join(dv.skip(i as int + 1)) =~= and_comma_join(dv));
        }
        i = i + 1;
    }
    proof {
        assert(dv.skip(n as int) =~= Seq::<Seq<char>>::empty());
        assert(res@ =~= and_comma_join(dv));
    }
    res
}

/// One "N unit(s)" phrase.
fn unit_phrase(n: u64, name: &str) -> (r: String)
    ensures
        r@ == part_phrase(n as int, name@),
{
    let mut s = dec_str(n);
    s.append(" ");
    s.append(name);
    if n != 1 {
        s.append("s");
    }
    proof {
        assert(s@ =~= part_phrase(n as int, name@));
    }
    s
}

/// Renders a span of `total_secs` seconds as an English phrase: the
/// non-zero units among years (365-day approximation), weeks, days,
/// hours, minutes and seconds, joined with ", " and a final " and ".
/// A zero-length span yields the empty string.
pub fn human_timedelta(total_secs: u64) -> (r: String)
    ensures
        r@ == and_comma_join(spec_parts(total_secs as int)),
{
    let days_all: u64 = total_secs / 86400;
    let years: u64 = days_all / 365;
    let rem_days: u64 = days_all % 365;
    let weeks: u64 = rem_days / 7;
    let days: u64 = rem_days % 7;
    let hours: u64 = (total_secs / 3600) % 24;
    let minutes: u64 = (total_secs / 60) % 60;
    let seconds: u64 = total_secs % 60;
    let mut parts: Vec<String> = Vec::new();
    if years != 0 {
        parts.push(unit_phrase(years, "year"));
    }
    if weeks != 0 {
        parts.push(unit_phrase(weeks, "week"));
    }
    if days != 0 {
        parts.push(unit_phrase(days, "day"));
    }
    if hours != 0 {
        parts.push(unit_phrase(hours, "hour"));
    }
    if minutes != 0 {
        parts.push(unit_phrase(minutes, "minute"));
    }
    if seconds != 0 {
        parts.push(unit_phrase(seconds, "second"));
    }
    proof {
        assert(parts.deep_view() =~= spec_parts(total_secs as int));
    }
    and_comma_split(&parts)
}

} // verus!
