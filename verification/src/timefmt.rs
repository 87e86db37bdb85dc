//! Wall-clock formatting: seconds since the Unix epoch rendered as an
//! ISO-8601 UTC timestamp, `YYYY-MM-DDTHH:MM:SSZ`, with the civil date
//! computed from the day count.
//!
//! The calendar is modelled on years that begin on the first of March, so
//! a possible leap day falls at the end of a year; eras of 400 such years
//! hold exactly 146097 days.

use vstd::prelude::*;
use vstd::arithmetic::div_mod::{lemma_fundamental_div_mod, lemma_fundamental_div_mod_converse};

verus! {

/// The Gregorian leap-year rule.
pub open spec fn civil_leap(y: int) -> bool {
    (y % 4 == 0 && y % 100 != 0) || y % 400 == 0
}

/// Days in civil month `m` of year `y`.
pub open spec fn month_days(y: int, m: int) -> int {
    if m == 1 {
        31
    } else if m == 2 {
        if civil_leap(y) {
            29
        } else {
            28
        }
    } else if m == 3 {
        31
    } else if m == 4 {
        30
    } else if m == 5 {
        31
    } else if m == 6 {
        30
    } else if m == 7 {
        31
    } else if m == 8 {
        31
    } else if m == 9 {
        30
    } else if m == 10 {
        31
    } else if m == 11 {
        30
    } else if m == 12 {
        31
    } else {
        0
    }
}

/// A well-formed civil date.
pub open spec fn valid_date(y: int, m: int, d: int) -> bool {
    1 <= m <= 12 && 1 <= d <= month_days(y, m)
}

/// Length of shifted year `yoe` of an era: the year runs from the first of
/// March, so it ends with a leap day exactly when civil year `yoe + 1` is
/// a leap year.
pub open spec fn sh_year_len(yoe: int) -> int {
    if civil_leap(yoe + 1) {
        366
    } else {
        365
    }
}

/// Days before shifted year `yoe` within its era.
pub open spec fn days_before_yoe(yoe: int) -> int
    decreases yoe,
{
    if yoe <= 0 {
        0
    } else {
        days_before_yoe(yoe - 1) + sh_year_len(yoe - 1)
    }
}

/// Length of shifted month `m` (0 is March, 11 is February).
pub open spec fn sh_month_len(m: int, leap: bool) -> int {
    if m == 0 {
        31
    } else if m == 1 {
        30
    } else if m == 2 {
        31
    } else if m == 3 {
        30
    } else if m == 4 {
        31
    } else if m == 5 {
        31
    } else if m == 6 {
        30
    } else if m == 7 {
        31
    } else if m == 8 {
        30
    } else if m == 9 {
        31
    } else if m == 10 {
        31
    } else if m == 11 {
        if leap {
            29
        } else {
            28
        }
    } else {
        0
    }
}

/// Days before shifted month `m` within a shifted year.
pub open spec fn days_before_sh_month(m: int, leap: bool) -> int
    decreases m,
{
    if m <= 0 {
        0
    } else {
        days_before_sh_month(m - 1, leap) + sh_month_len(m - 1, leap)
    }
}

/// Days from the Unix epoch to the civil date `(y, m, d)`: the inverse of
/// the calendar computation, summed era by era, year by year, month by
/// month.
pub open spec fn days_from_civil(y: int, m: int, d: int) -> int {
    let sy = if m <= 2 {
        y - 1
    } else {
        y
    };
    let era = sy / 400;
    let yoe = sy % 400;
    let sm = if m >= 3 {
        m - 3
    } else {
        m + 9
    };
    era * 146097 + days_before_yoe(yoe) + days_before_sh_month(sm, civil_leap(yoe + 1)) + (d - 1)
        - 719468
}

proof fn lemma_days_before_yoe_mono(a: int, b: int)
    requires
        0 <= a <= b,
    ensures
        days_before_yoe(a) <= days_before_yoe(b),
        a < b ==> days_before_yoe(a) + 365 <= days_before_yoe(b),
    decreases b,
{
    if a < b {
        lemma_days_before_yoe_mono(a, b - 1);
    }
}

/// Crossing from `y - 1` to `y` raises `y / d` exactly when `d` divides `y`.
proof fn lemma_div_step(y: int, d: int)
    requires
        y >= 1,
        d >= 2,
    ensures
        y / d - (y - 1) / d == if y % d == 0 {
            1int
        } else {
            0int
        },
{
    lemma_fundamental_div_mod(y, d);
    if y % d == 0 {
        assert(y - 1 == (y / d - 1) * d + (d - 1)) by (nonlinear_arith)
            requires
                y == d * (y / d) + y % d,
                y % d == 0,
                d >= 2,
        ;
        lemma_fundamental_div_mod_converse(y - 1, d, y / d - 1, d - 1);
    } else {
        assert(y - 1 == (y / d) * d + (y % d - 1)) by (nonlinear_arith)
            requires
                y == d * (y / d) + y % d,
        ;
        lemma_fundamental_div_mod_converse(y - 1, d, y / d, y % d - 1);
    }
}

/// Divisibility by 400 implies divisibility by 100, and by 100 implies by 4.
proof fn lemma_div_chain(y: int)
    requires
        y >= 0,
    ensures
        y % 400 == 0 ==> y % 100 == 0,
        y % 100 == 0 ==> y % 4 == 0,
{
    lemma_fundamental_div_mod(y, 400);
    lemma_fundamental_div_mod(y, 100);
    if y % 400 == 0 {
        assert((4 * (y / 400)) * 100 + 0 == 400 * (y / 400)) by (nonlinear_arith);
        lemma_fundamental_div_mod_converse(y, 100, 4 * (y / 400), 0);
    }
    if y % 100 == 0 {
        assert((25 * (y / 100)) * 4 + 0 == 100 * (y / 100)) by (nonlinear_arith);
        lemma_fundamental_div_mod_converse(y, 4, 25 * (y / 100), 0);
    }
}

/// Closed form for the day count before shifted year `y` of an era.
proof fn lemma_days_before_yoe_closed(y: int)
    requires
        0 <= y <= 400,
    ensures
        days_before_yoe(y) == 365 * y + y / 4 - y / 100 + y / 400,
    decreases y,
{
    if y == 0 {
    } else {
        lemma_days_before_yoe_closed(y - 1);
        lemma_div_step(y, 4);
        lemma_div_step(y, 100);
        lemma_div_step(y, 400);
        lemma_div_chain(y);
    }
}

proof fn lemma_era_of_400()
    ensures
        days_before_yoe(400) == 146097,
{
    lemma_days_before_yoe_closed(400);
}

/// Congruence of the leap rule across eras: civil year `era * 400 + k`
/// is a leap year exactly when `k` (taken within one era) satisfies the
/// same rule.
proof fn lemma_leap_congruent(era: int, k: int)
    requires
        0 <= k < 401,
    ensures
        civil_leap(era * 400 + k) == civil_leap(k),
{
    let y = era * 400 + k;
    lemma_fundamental_div_mod(k, 4);
    lemma_fundamental_div_mod(k, 100);
    lemma_fundamental_div_mod(k, 400);
    assert((era * 100 + k / 4) * 4 == era * 400 + 4 * (k / 4)) by (nonlinear_arith);
    lemma_fundamental_div_mod_converse(y, 4, era * 100 + k / 4, k % 4);
    assert((era * 4 + k / 100) * 100 == era * 400 + 100 * (k / 100)) by (nonlinear_arith);
    lemma_fundamental_div_mod_converse(y, 100, era * 4 + k / 100, k % 100);
    assert((era + k / 400) * 400 == era * 400 + 400 * (k / 400)) by (nonlinear_arith);
    lemma_fundamental_div_mod_converse(y, 400, era + k / 400, k % 400);
}

/// Convert a day count since the Unix epoch to the civil `(year, month,
/// day)`: exactly the date whose `days_from_civil` is `days`.
pub fn days_to_date(days: i64) -> (r: (i64, u32, u32))
    requires
        0 <= days <= 300_000_000_000_000i64,
    ensures
        valid_date(r.0 as int, r.1 as int, r.2 as int),
        days_from_civil(r.0 as int, r.1 as int, r.2 as int) == days,
        r.0 >= 0,
{
    let z = days + 719468;
    let era = z / 146097;
    let rem0 = z % 146097;
    proof {
        lemma_era_of_400();
    }

    // Year of era: walk the at most 400 years of this era.
    let mut yoe: i64 = 0;
    let mut rem = rem0;
    while rem >= year_len_exec(yoe)
        invariant
            0 <= yoe <= 399,
            0 <= rem,
            days_before_yoe(yoe as int) + rem == rem0,
            0 <= rem0 < 146097,
        decreases rem,
    {
        proof {
            lemma_era_of_400();
            if yoe as int + 1 > 399 {
                lemma_days_before_yoe_mono(400, yoe as int + 1);
            }
        }
        rem = rem - year_len_exec(yoe);
        yoe = yoe + 1;
    }
    let leap = is_leap_exec(yoe + 1);

    // Month within the shifted year: at most 12 steps.
    let mut sm: i64 = 0;
    let mut mrem = rem;
    proof {
        lemma_month_total(leap);
        assert(rem < sh_year_len(yoe as int));
    }
    while mrem >= month_len_exec(sm, leap)
        invariant
            0 <= sm <= 11,
            0 <= mrem,
            days_before_sh_month(sm as int, leap) + mrem == rem,
            rem < 365 + (if leap { 1int } else { 0int }),
            leap == civil_leap(yoe as int + 1),
            0 <= yoe <= 399,
        decreases mrem,
    {
        proof {
            lemma_month_total(leap);
            if sm as int + 1 > 11 {
                lemma_days_before_sh_month_mono(12, sm as int + 1, leap);
            }
        }
        mrem = mrem - month_len_exec(sm, leap);
        sm = sm + 1;
    }

    let d = (mrem + 1) as u32;
    let m: u32 = if sm < 10 {
        (sm + 3) as u32
    } else {
        (sm - 9) as u32
    };
    let y: i64 = era * 400 + yoe + if sm >= 10 { 1 } else { 0 };

    proof {
        let sy = era as int * 400 + yoe as int;
        lemma_fundamental_div_mod_converse(sy, 400, era as int, yoe as int);
        if m as int == 2 {
            lemma_leap_congruent(era as int, yoe as int + 1);
        }
        assert(days_from_civil(y as int, m as int, d as int) == days);
    }
    (y, m, d)
}

fn is_leap_exec(y: i64) -> (r: bool)
    requires
        0 <= y <= 100_000_000_000_000i64,
    ensures
        r == civil_leap(y as int),
{
    (y % 4 == 0 && y % 100 != 0) || y % 400 == 0
}

fn year_len_exec(yoe: i64) -> (r: i64)
    requires
        0 <= yoe <= 400,
    ensures
        r == sh_year_len(yoe as int),
{
    if is_leap_exec(yoe + 1) {
        366
    } else {
        365
    }
}

fn month_len_exec(m: i64, leap: bool) -> (r: i64)
    requires
        0 <= m <= 11,
    ensures
        r == sh_month_len(m as int, leap),
{
    if m == 0 {
        31
    } else if m == 1 {
        30
    } else if m == 2 {
        31
    } else if m == 3 {
        30
    } else if m == 4 {
        31
    } else if m == 5 {
        31
    } else if m == 6 {
        30
    } else if m == 7 {
        31
    } else if m == 8 {
        30
    } else if m == 9 {
        31
    } else if m == 10 {
        31
    } else {
        if leap {
            29
        } else {
            28
        }
    }
}

proof fn lemma_days_before_sh_month_mono(a: int, b: int, leap: bool)
    requires
        0 <= a <= b,
    ensures
        days_before_sh_month(a, leap) <= days_before_sh_month(b, leap),
    decreases b,
{
    if a < b {
        lemma_days_before_sh_month_mono(a, b - 1, leap);
    }
}

proof fn lemma_month_total(leap: bool)
    ensures
        days_before_sh_month(12, leap) == 365 + if leap {
            1int
        } else {
            0int
        },
{
    reveal_with_fuel(days_before_sh_month, 13);
}


// ---------------------------------------------------------------------------
// Decimal rendering and the ISO-8601 string.
// ---------------------------------------------------------------------------

/// The character of one decimal digit.
pub open spec fn digit_char(d: int) -> char {
    if d == 0 {
        '0'
    } else if d == 1 {
        '1'
    } else if d == 2 {
        '2'
    } else if d == 3 {
        '3'
    } else if d == 4 {
        '4'
    } else if d == 5 {
        '5'
    } else if d == 6 {
        '6'
    } else if d == 7 {
        '7'
    } else if d == 8 {
        '8'
    } else {
        '9'
    }
}

/// The decimal digits of `n`, most significant first, without leading
/// zeros (just "0" for zero).
pub open spec fn dec_digits(n: int) -> Seq<char>
    decreases n,
{
    if n < 10 {
        seq![digit_char(n)]
    } else {
        dec_digits(n / 10).push(digit_char(n % 10))
    }
}

/// Two decimal digits, zero-padded.
pub open spec fn two_digits(n: int) -> Seq<char> {
    seq![digit_char(n / 10), digit_char(n % 10)]
}

/// The year, zero-padded to four digits; wider years keep all digits.
pub open spec fn year_digits(y: int) -> Seq<char> {
    if y < 10000 {
        seq![
            digit_char(y / 1000),
            digit_char((y / 100) % 10),
            digit_char((y / 10) % 10),
            digit_char(y % 10),
        ]
    } else {
        dec_digits(y)
    }
}

/// The ISO-8601 UTC rendering of a civil date and a second of its day.
pub open spec fn iso_chars(y: int, mo: int, dd: int, tsec: int) -> Seq<char> {
    year_digits(y) + seq!['-'] + two_digits(mo) + seq!['-'] + two_digits(dd) + seq!['T']
        + two_digits(tsec / 3600) + seq![':'] + two_digits((tsec % 3600) / 60) + seq![':']
        + two_digits(tsec % 60) + seq!['Z']
}

fn digit_str(d: u64) -> (r: &'static str)
    requires
        d < 10,
    ensures
        r@ == seq![digit_char(d as int)],
{
    if d == 0 {
        proof {
            reveal_strlit("0");
        }
        "0"
    } else if d == 1 {
        proof {
            reveal_strlit("1");
        }
        "1"
    } else if d == 2 {
        proof {
            reveal_strlit("2");
        }
        "2"
    } else if d == 3 {
        proof {
            reveal_strlit("3");
        }
        "3"
    } else if d == 4 {
        proof {
            reveal_strlit("4");
        }
        "4"
    } else if d == 5 {
        proof {
            reveal_strlit("5");
        }
        "5"
    } else if d == 6 {
        proof {
            reveal_strlit("6");
        }
        "6"
    } else if d == 7 {
        proof {
            reveal_strlit("7");
        }
        "7"
    } else if d == 8 {
        proof {
            reveal_strlit("8");
        }
        "8"
    } else {
        proof {
            reveal_strlit("9");
        }
        "9"
    }
}

/// Render `n` in decimal.
pub fn u64_to_string(n: u64) -> (r: String)
    ensures
        r@ == dec_digits(n as int),
    decreases n,
{
    if n < 10 {
        digit_str(n).to_owned()
    } else {
        let mut r = u64_to_string(n / 10);
        r.append(digit_str(n % 10));
        proof {
            assert(r@ =~= dec_digits(n as int));
        }
        r
    }
}

fn push_two_digits(out: &mut String, n: u64)
    requires
        n < 100,
    ensures
        final(out)@ == old(out)@ + two_digits(n as int),
{
    out.append(digit_str(n / 10));
    out.append(digit_str(n % 10));
    proof {
        assert(out@ =~= old(out)@ + two_digits(n as int));
    }
}

/// Format seconds since the Unix epoch as `YYYY-MM-DDTHH:MM:SSZ`: the
/// rendering of the unique civil date whose day count is `secs / 86400`.
pub fn format_system_time(secs: u64) -> (r: String)
    ensures
        ({
            exists|y: int, mo: int, dd: int|
                valid_date(y, mo, dd) && days_from_civil(y, mo, dd) == secs as int / 86400
                    && r@ == #[trigger] iso_chars(y, mo, dd, secs as int % 86400)
        }),
{
    let days = secs / 86400;
    let tsec = secs % 86400;
    let (y, mo, dd) = days_to_date((days) as i64);
    let hours = tsec / 3600;
    let minutes = (tsec % 3600) / 60;
    let seconds = tsec % 60;

    let mut out = String::new();
    if y < 10000 {
        let yy = y as u64;
        out.append(digit_str(yy / 1000));
        out.append(digit_str((yy / 100) % 10));
        out.append(digit_str((yy / 10) % 10));
        out.append(digit_str(yy % 10));
        proof {
            assert(out@ =~= year_digits(y as int));
        }
    } else {
        let ys = u64_to_string(y as u64);
        out.append(ys.as_str());
        proof {
            assert(out@ =~= year_digits(y as int));
        }
    }
    out.append("-");
    push_two_digits(&mut out, mo as u64);
    out.append("-");
    push_two_digits(&mut out, dd as u64);
    out.append("T");
    push_two_digits(&mut out, hours);
    out.append(":");
    push_two_digits(&mut out, minutes);
    out.append(":");
    push_two_digits(&mut out, seconds);
    out.append("Z");
    proof {
        reveal_strlit("-");
        reveal_strlit("T");
        reveal_strlit(":");
        reveal_strlit("Z");
        assert(out@ =~= iso_chars(y as int, mo as int, dd as int, tsec as int));
    }
    out
}


pub proof fn lemma_dec_digits_len(n: int)
    requires
        n >= 0,
    ensures
        dec_digits(n).len() >= 1,
        n >= 10 ==> dec_digits(n).len() >= 2,
    decreases n,
{
    if n >= 10 {
        lemma_dec_digits_len(n / 10);
    }
}

/// Distinct numbers render as distinct decimal strings.
pub proof fn lemma_dec_digits_injective(a: int, b: int)
    requires
        a >= 0,
        b >= 0,
        dec_digits(a) == dec_digits(b),
    ensures
        a == b,
    decreases a,
{
    if a < 10 && b < 10 {
        assert(dec_digits(a)[0] == digit_char(a));
        assert(dec_digits(b)[0] == digit_char(b));
    } else if a < 10 && b >= 10 {
        lemma_dec_digits_len(b / 10);
        assert(dec_digits(b).len() >= 2);
    } else if a >= 10 && b < 10 {
        lemma_dec_digits_len(a / 10);
        assert(dec_digits(a).len() >= 2);
    } else {
        assert(dec_digits(a).last() == digit_char(a % 10));
        assert(dec_digits(b).last() == digit_char(b % 10));
        assert(a % 10 == b % 10);
        assert(dec_digits(a).drop_last() =~= dec_digits(a / 10));
        assert(dec_digits(b).drop_last() =~= dec_digits(b / 10));
        lemma_dec_digits_injective(a / 10, b / 10);
        lemma_fundamental_div_mod(a, 10);
        lemma_fundamental_div_mod(b, 10);
    }
}

} // verus!


