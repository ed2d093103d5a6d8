//! The Inspector's formatting of dates and sizes.
use vstd::prelude::*;
use crate::files::{decimal, decimal_chars};
use crate::text::{string_of, push_str, chars_of, str_eq};
use crate::files::{Entry, Meta};
use crate::icons::{ext_spec, icon_of_ext, image_mime, is_text_like};
use crate::librarian::{lines_spec, lemma_nl_index, nl_index, strip_cr};
use crate::paint::{decode_png, made_from, png_decoded, samples_of, Image};
use std::rc::Rc;

verus! {

fn div_euclid(a: i64, b: i64) -> (q: i64)
    requires
        b > 0,
    ensures
        q == a / b,
{
    if a >= 0 {
        a / b
    } else {
        let m = -(a + 1);
        let q0 = m / b;
        assert(-q0 - 1 == a / b) by (nonlinear_arith)
            requires
                b > 0,
                a < 0,
                m == -a - 1,
                q0 == m / b,
        ;
        -q0 - 1
    }
}

/// Howard Hinnant's civil-from-days, which `fmt_date` computes: (year, month, day) for day
/// `days` since 1970-01-01. `law_civil_is_calendar` shows it is `calendar(days)`.
pub open spec fn civil(days: int) -> (int, int, int) {
    let z = days + 719468;
    let era = z / 146097;
    let doe = z - era * 146097;
    let yoe = (doe - doe / 1460 + doe / 36524 - doe / 146096) / 365;
    let y = yoe + era * 400;
    let doy = doe - (365 * yoe + yoe / 4 - yoe / 100);
    let mp = (5 * doy + 2) / 153;
    let d = doy - (153 * mp + 2) / 5 + 1;
    let m = if mp < 10 { mp + 3 } else { mp - 9 };
    (if m <= 2 { y + 1 } else { y }, m, d)
}

/// Year `y` of the proleptic Gregorian calendar is a leap year.
pub open spec fn leap(y: int) -> bool {
    y % 4 == 0 && (y % 100 != 0 || y % 400 == 0)
}

/// The days of month `m` of year `y`.
pub open spec fn month_len(y: int, m: int) -> int {
    if m == 2 {
        if leap(y) { 29 } else { 28 }
    } else if m == 4 || m == 6 || m == 9 || m == 11 {
        30
    } else {
        31
    }
}

/// The days of year `y` before month `m`.
pub open spec fn before_month(y: int, m: int) -> int {
    (if m > 1 { 31int } else { 0 }) + (if m > 2 { if leap(y) { 29int } else { 28 } } else { 0 }) + (if m > 3 { 31int } else { 0 })
        + (if m > 4 { 30int } else { 0 }) + (if m > 5 { 31int } else { 0 }) + (if m > 6 { 30int } else { 0 }) + (if m > 7 { 31int } else { 0 })
        + (if m > 8 { 31int } else { 0 }) + (if m > 9 { 30int } else { 0 }) + (if m > 10 { 31int } else { 0 }) + (if m > 11 { 30int } else { 0 })
}

/// The leap years among the years before `y`, counted from year 0 (a negative count before it).
pub open spec fn leaps_before(y: int) -> int {
    (y + 3) / 4 - (y + 99) / 100 + (y + 399) / 400
}

/// Day `d` of month `m` of year `y`, counted in days from 1970-01-01.
pub open spec fn day_number(y: int, m: int, d: int) -> int {
    365 * (y - 1970) + leaps_before(y) - leaps_before(1970) + before_month(y, m) + d - 1
}

pub open spec fn valid_date(y: int, m: int, d: int) -> bool {
    1 <= m <= 12 && 1 <= d <= month_len(y, m)
}

/// `civil`'s date within its 400-year era, for day `doe` of the era (which starts on 1 March of
/// a year divisible by 400): (year within the era, month, day).
pub open spec fn era_date(doe: int) -> (int, int, int) {
    let yoe = (doe - doe / 1460 + doe / 36524 - doe / 146096) / 365;
    let doy = doe - (365 * yoe + yoe / 4 - yoe / 100);
    let mp = (5 * doy + 2) / 153;
    let d = doy - (153 * mp + 2) / 5 + 1;
    let m = if mp < 10 { mp + 3 } else { mp - 9 };
    (if m <= 2 { yoe + 1 } else { yoe }, m, d)
}

/// The year within its era of day `doe` of the era, found by Hinnant's formula, lies where the
/// day count says: day `doy` of that (March-based) year, day 365 only in a year with 29 February.
#[verifier::rlimit(50)]
proof fn lemma_year_of_era(doe: int)
    requires
        0 <= doe < 146097,
    ensures
        ({
            let yoe = (doe - doe / 1460 + doe / 36524 - doe / 146096) / 365;
            let doy = doe - (365 * yoe + yoe / 4 - yoe / 100);
            &&& 0 <= yoe <= 399
            &&& 0 <= doy <= 365
            &&& doy == 365 ==> (yoe + 1) % 4 == 0 && ((yoe + 1) % 100 != 0 || yoe == 399)
        }),
{
    let a = doe / 1460;
    let b = doe / 36524;
    let c = doe / 146096;
    let g = doe - a + b - c;
    let yoe = g / 365;
    let k = yoe / 4;
    let h = yoe / 100;
    assert(0 <= a <= 100 && 0 <= b <= 4 && 0 <= c <= 1);
    assert(0 <= yoe <= 399);
    let doy = doe - (365 * yoe + k - h);
    assert(0 <= doy);
    assert(doy <= 365);
    assert(doy == 365 ==> (yoe + 1) % 4 == 0 && ((yoe + 1) % 100 != 0 || yoe == 399));
}

pub open spec fn era_ok(doe: int) -> bool {
    let (y, m, d) = era_date(doe);
    valid_date(y, m, d) && day_number(y, m, d) == doe - 719468
}

/// Every day of the era starting 1 March of year 0 is the date `era_date` gives.
#[verifier::rlimit(50)]
proof fn lemma_era_date(doe: int)
    requires
        0 <= doe < 146097,
    ensures
        era_ok(doe),
{
    lemma_year_of_era(doe);
    let yoe = (doe - doe / 1460 + doe / 36524 - doe / 146096) / 365;
    let doy = doe - (365 * yoe + yoe / 4 - yoe / 100);
    let mp = (5 * doy + 2) / 153;
    let d = doy - (153 * mp + 2) / 5 + 1;
    let m = if mp < 10 { mp + 3 } else { mp - 9 };
    let y = if m <= 2 { yoe + 1 } else { yoe };
    assert(0 <= mp <= 11);
    assert(era_date(doe) == (y, m, d));
    assert(leaps_before(y) == (y + 3) / 4 - (y + 99) / 100 + (y + 399) / 400);
    assert(valid_date(y, m, d));
    assert(day_number(y, m, d) == doe - 719468);
}

proof fn lemma_shift_div(x: int, k: int, m: int)
    requires
        0 < m,
    ensures
        (x + m * k) / m == x / m + k,
        (x + m * k) % m == x % m,
{
    vstd::arithmetic::div_mod::lemma_fundamental_div_mod(x, m);
    let q = x / m;
    let r = x % m;
    assert(x + m * k == m * (q + k) + r) by (nonlinear_arith)
        requires
            x == m * q + r,
    ;
    vstd::arithmetic::div_mod::lemma_div_multiples_vanish_fancy(q + k, r, m);
    vstd::arithmetic::div_mod::lemma_mod_multiples_vanish(q + k, r, m);
    vstd::arithmetic::div_mod::lemma_small_mod(r as nat, m as nat);
}

/// The calendar repeats every 400 years, which hold 146097 days.
proof fn lemma_era_shift(y: int, m: int, d: int, e: int)
    ensures
        valid_date(y + 400 * e, m, d) == valid_date(y, m, d),
        day_number(y + 400 * e, m, d) == day_number(y, m, d) + 146097 * e,
{
    lemma_shift_div(y, 100 * e, 4);
    lemma_shift_div(y, 4 * e, 100);
    lemma_shift_div(y, e, 400);
    lemma_shift_div(y + 3, 100 * e, 4);
    lemma_shift_div(y + 99, 4 * e, 100);
    lemma_shift_div(y + 399, e, 400);
    assert(y + 400 * e == y + 4 * (100 * e));
    assert(y + 400 * e == y + 100 * (4 * e));
    assert(leap(y + 400 * e) == leap(y));
    assert(leaps_before(y + 400 * e) == leaps_before(y) + 97 * e);
}

/// `civil` is the calendar: the date it gives for day `days` is a real date of the proleptic
/// Gregorian calendar, and it is day `days` counted from 1970-01-01.
pub proof fn law_civil_is_the_calendar(days: int)
    ensures
        valid_date(civil(days).0, civil(days).1, civil(days).2),
        day_number(civil(days).0, civil(days).1, civil(days).2) == days,
{
    let z = days + 719468;
    let era = z / 146097;
    let doe = z - era * 146097;
    assert(0 <= doe < 146097) by (nonlinear_arith)
        requires
            era == z / 146097,
            doe == z - era * 146097,
    ;
    lemma_era_date(doe);
    let (y, m, d) = era_date(doe);
    assert(civil(days) == (y + 400 * era, m, d));
    lemma_era_shift(y, m, d, era);
}

/// Day 0 of year `y`, 1 January, counted from 1970-01-01.
pub open spec fn year_start(y: int) -> int {
    365 * (y - 1970) + leaps_before(y) - leaps_before(1970)
}

proof fn lemma_div_step(y: int, m: int)
    requires
        0 < m,
    ensures
        (y + m) / m - (y + m - 1) / m == (if y % m == 0 { 1int } else { 0 }),
{
    lemma_shift_div(y, 1, m);
    lemma_shift_div(y - 1, 1, m);
    vstd::arithmetic::div_mod::lemma_fundamental_div_mod(y, m);
    vstd::arithmetic::div_mod::lemma_fundamental_div_mod(y - 1, m);
    let (q, r) = (y / m, y % m);
    let (q1, r1) = ((y - 1) / m, (y - 1) % m);
    assert(0 <= r < m && 0 <= r1 < m);
    assert(r == 0 ==> q1 == q - 1) by (nonlinear_arith)
        requires
            y == m * q + r,
            y - 1 == m * q1 + r1,
            0 <= r < m,
            0 <= r1 < m,
    ;
    assert(r != 0 ==> q1 == q) by (nonlinear_arith)
        requires
            y == m * q + r,
            y - 1 == m * q1 + r1,
            0 <= r < m,
            0 <= r1 < m,
    ;
}

proof fn lemma_leaps_step(y: int)
    ensures
        leaps_before(y + 1) == leaps_before(y) + (if leap(y) { 1int } else { 0 }),
{
    lemma_div_step(y, 4);
    lemma_div_step(y, 100);
    lemma_div_step(y, 400);
    assert(y % 400 == 0 ==> y % 100 == 0 && y % 4 == 0) by {
        if y % 400 == 0 {
            vstd::arithmetic::div_mod::lemma_fundamental_div_mod(y, 400);
            let q = y / 400;
            lemma_shift_div(0, 100 * q, 4);
            lemma_shift_div(0, 4 * q, 100);
            assert(y == 4 * (100 * q) && y == 100 * (4 * q));
        }
    }
    assert(y % 100 == 0 ==> y % 4 == 0) by {
        if y % 100 == 0 {
            vstd::arithmetic::div_mod::lemma_fundamental_div_mod(y, 100);
            let q = y / 100;
            lemma_shift_div(0, 25 * q, 4);
            assert(y == 4 * (25 * q));
        }
    }
}

proof fn lemma_year_start_mono(a: int, b: int)
    requires
        a < b,
    ensures
        year_start(b) >= year_start(a + 1),
        year_start(a + 1) == year_start(a) + 365 + (if leap(a) { 1int } else { 0 }),
    decreases b - a,
{
    lemma_leaps_step(a);
    if b > a + 1 {
        lemma_year_start_mono(a, b - 1);
        lemma_leaps_step(b - 1);
    }
}

/// Two real dates with the same day number are the same date.
pub proof fn lemma_day_number_injective(y1: int, m1: int, d1: int, y2: int, m2: int, d2: int)
    requires
        valid_date(y1, m1, d1),
        valid_date(y2, m2, d2),
        day_number(y1, m1, d1) == day_number(y2, m2, d2),
    ensures
        y1 == y2 && m1 == m2 && d1 == d2,
{
    assert(0 <= before_month(y1, m1) + d1 - 1 < 365 + (if leap(y1) { 1int } else { 0 }));
    assert(0 <= before_month(y2, m2) + d2 - 1 < 365 + (if leap(y2) { 1int } else { 0 }));
    if y1 < y2 {
        lemma_year_start_mono(y1, y2);
    } else if y2 < y1 {
        lemma_year_start_mono(y2, y1);
    }
    assert(y1 == y2);
    assert(m1 == m2);
}

/// The date of day `days` counted from 1970-01-01: the real date whose day number it is.
pub open spec fn calendar(days: int) -> (int, int, int) {
    choose|t: (int, int, int)| valid_date(t.0, t.1, t.2) && day_number(t.0, t.1, t.2) == days
}

/// `civil` gives the calendar's date.
pub proof fn law_civil_is_calendar(days: int)
    ensures
        civil(days) == calendar(days),
{
    law_civil_is_the_calendar(days);
    let c = civil(days);
    assert(valid_date(c.0, c.1, c.2) && day_number(c.0, c.1, c.2) == days);
    let t = calendar(days);
    lemma_day_number_injective(c.0, c.1, c.2, t.0, t.1, t.2);
}

/// `n` zero-padded to `w` digits, as `{:0w}` writes it (a minus sign counts toward the width).
pub open spec fn padded(n: int, w: nat) -> Seq<char> {
    if n < 0 {
        "-"@ + zeros(decimal((-n) as nat), if w >= 1 { (w - 1) as nat } else { 0 })
    } else {
        zeros(decimal(n as nat), w)
    }
}

/// `digits` with zeros in front up to `w` characters.
pub open spec fn zeros(digits: Seq<char>, w: nat) -> Seq<char> {
    if digits.len() >= w {
        digits
    } else {
        Seq::new((w - digits.len()) as nat, |i: int| '0') + digits
    }
}

pub(crate) fn padded_string(n: i64, w: usize) -> (s: String)
    requires
        n > i64::MIN,
        w <= 8,
    ensures
        s@ == padded(n as int, w as nat),
{
    let neg = n < 0;
    let a: u64 = if neg {
        (-n) as u64
    } else {
        n as u64
    };
    let digits = decimal_chars(a);
    let width = if neg {
        if w >= 1 {
            w - 1
        } else {
            0
        }
    } else {
        w
    };
    let mut v: Vec<char> = Vec::new();
    if neg {
        v.push('-');
    }
    let ghost start = v@;
    if digits.len() < width {
        let fill = width - digits.len();
        let mut i: usize = 0;
        while i < fill
            invariant
                i <= fill,
                v@ == start + Seq::new(i as nat, |k: int| '0'),
            decreases fill - i,
        {
            v.push('0');
            assert(v@ =~= start + Seq::new((i + 1) as nat, |k: int| '0'));
            i += 1;
        }
    }
    let ghost mid = v@;
    let mut j: usize = 0;
    while j < digits.len()
        invariant
            j <= digits@.len(),
            v@ == mid + digits@.take(j as int),
        decreases digits@.len() - j,
    {
        v.push(digits[j]);
        assert(digits@.take(j + 1) == digits@.take(j as int).push(digits@[j as int]));
        j += 1;
    }
    assert(digits@.take(digits@.len() as int) == digits@);
    proof {
        if neg {
            assert(start =~= "-"@) by {
                reveal_strlit("-");
            }
            if digits@.len() < width {
                assert(v@ =~= "-"@ + zeros(digits@, width as nat));
            } else {
                assert(v@ =~= "-"@ + zeros(digits@, width as nat));
            }
        } else {
            assert(start.len() == 0);
            assert(v@ =~= zeros(digits@, width as nat));
        }
    }
    string_of(&v)
}

/// How the Inspector writes a time: `YYYY-MM-DD hh:mm` in UTC, or a dash when there is none.
pub open spec fn date_spec(s: Option<i64>) -> Seq<char> {
    match s {
        None => "—"@,
        Some(s) => {
            let (y, m, d) = calendar(s / 86400);
            let rem = s % 86400;
            padded(y, 4) + "-"@ + padded(m, 2) + "-"@ + padded(d, 2) + " "@ + padded(rem / 3600, 2) + ":"@
                + padded((rem % 3600) / 60, 2)
        },
    }
}

pub(crate) fn rem_euclid(a: i64, b: i64) -> (r: i64)
    requires
        b > 0,
    ensures
        r == a % b,
        0 <= r < b,
{
    if a >= 0 {
        a % b
    } else {
        let m = (-(a + 1)) % b;
        proof {
            let x = (-a - 1) as int;
            let q = x / (b as int);
            vstd::arithmetic::div_mod::lemma_fundamental_div_mod(x, b as int);
            assert(0 <= m < b);
            assert(a == (-q - 1) * b + (b - 1 - m)) by (nonlinear_arith)
                requires
                    x == b * q + m,
                    x == -a - 1,
            ;
            vstd::arithmetic::div_mod::lemma_fundamental_div_mod_converse(a as int, b as int, -q - 1, b - 1 - m);
        }
        b - 1 - m
    }
}

/// `civil` of `days`, computed.
fn civil_of(days: i64) -> (r: (i64, i64, i64))
    requires
        -0x10_0000_0000_0000 <= days <= 0x10_0000_0000_0000,
    ensures
        (r.0 as int, r.1 as int, r.2 as int) == civil(days as int),
        -0x8000 <= r.1 <= 0x8000,
        -0x10_0000 <= r.2 <= 0x10_0000,
{
    let z = days + 719468;
    let era = div_euclid(z, 146097);
    let doe = z - era * 146097;
    assert(0 <= doe < 146097) by (nonlinear_arith)
        requires
            era == z / 146097,
            doe == z - era * 146097,
    ;
    let yoe = (doe - doe / 1460 + doe / 36524 - doe / 146096) / 365;
    assert(0 <= yoe <= 400) by (nonlinear_arith)
        requires
            0 <= doe < 146097,
            yoe == (doe - doe / 1460 + doe / 36524 - doe / 146096) / 365,
    ;
    let y = yoe + era * 400;
    let doy = doe - (365 * yoe + yoe / 4 - yoe / 100);
    assert(-200000 <= doy <= 200000) by (nonlinear_arith)
        requires
            0 <= doe < 146097,
            0 <= yoe <= 400,
            doy == doe - (365 * yoe + yoe / 4 - yoe / 100),
    ;
    let mp = (5 * doy + 2) / 153;
    let d = doy - (153 * mp + 2) / 5 + 1;
    let m = if mp < 10 {
        mp + 3
    } else {
        mp - 9
    };
    let y = if m <= 2 {
        y + 1
    } else {
        y
    };
    (y, m, d)
}

pub fn fmt_date(s: Option<i64>) -> (r: String)
    ensures
        r@ == date_spec(s),
{
    let s = match s {
        None => return String::from_str("—"),
        Some(v) => v,
    };
    let days = div_euclid(s, 86400);
    let rem = rem_euclid(s, 86400);
    assert(-0x10_0000_0000_0000 <= days <= 0x10_0000_0000_0000) by (nonlinear_arith)
        requires
            days == s / 86400,
    ;
    let (y, m, d) = civil_of(days);
    proof {
        law_civil_is_calendar(days as int);
    }
    let mut out = padded_string(y, 4);
    push_str(&mut out, "-");
    push_str(&mut out, padded_string(m, 2).as_str());
    push_str(&mut out, "-");
    push_str(&mut out, padded_string(d, 2).as_str());
    push_str(&mut out, " ");
    push_str(&mut out, padded_string(rem / 3600, 2).as_str());
    push_str(&mut out, ":");
    push_str(&mut out, padded_string((rem % 3600) / 60, 2).as_str());
    out
}

/// Digits with a comma before each digit that has a positive multiple of three digits after it.
pub open spec fn grouped_upto(s: Seq<char>, n: int) -> Seq<char>
    decreases n,
{
    if n <= 0 {
        Seq::empty()
    } else {
        let i = n - 1;
        grouped_upto(s, i) + (if i > 0 && (s.len() - i) % 3 == 0 {
            seq![',']
        } else {
            Seq::empty()
        }) + seq![s[i]]
    }
}

/// A size in bytes with thousands separators: `1,234,567 bytes`.
pub open spec fn size_spec(n: u64) -> Seq<char> {
    grouped_upto(decimal(n as nat), decimal(n as nat).len() as int) + " bytes"@
}

pub fn fmt_size(n: u64) -> (r: String)
    ensures
        r@ == size_spec(n),
{
    let s = decimal_chars(n);
    let mut out: Vec<char> = Vec::new();
    let mut i: usize = 0;
    while i < s.len()
        invariant
            i <= s@.len(),
            s@ == decimal(n as nat),
            out@ == grouped_upto(s@, i as int),
        decreases s@.len() - i,
    {
        let ghost before = out@;
        if i > 0 && (s.len() - i) % 3 == 0 {
            out.push(',');
        }
        out.push(s[i]);
        assert(out@ =~= grouped_upto(s@, i + 1));
        i += 1;
    }
    let mut r = string_of(&out);
    push_str(&mut r, " bytes");
    r
}


proof fn lemma_doy_range(doe: int)
    requires
        0 <= doe < 146097,
    ensures
        ({
            let yoe = (doe - doe / 1460 + doe / 36524 - doe / 146096) / 365;
            let doy = doe - (365 * yoe + yoe / 4 - yoe / 100);
            0 <= doy <= 365
        }),
{
    let a = doe / 1460;
    let b = doe / 36524;
    let c = doe / 146096;
    let t = doe - a + b - c;
    let yoe = t / 365;
    vstd::arithmetic::div_mod::lemma_fundamental_div_mod(doe, 1460);
    vstd::arithmetic::div_mod::lemma_fundamental_div_mod(doe, 36524);
    vstd::arithmetic::div_mod::lemma_fundamental_div_mod(doe, 146096);
    vstd::arithmetic::div_mod::lemma_fundamental_div_mod(t, 365);
    vstd::arithmetic::div_mod::lemma_fundamental_div_mod(yoe, 4);
    vstd::arithmetic::div_mod::lemma_fundamental_div_mod(yoe, 100);
}

/// Every day has a month from 1 to 12 and a day of the month from 1 to 31.
pub proof fn law_civil_in_range(days: int)
    ensures
        1 <= civil(days).1 <= 12,
        1 <= civil(days).2 <= 31,
{
    let z = days + 719468;
    let era = z / 146097;
    let doe = z - era * 146097;
    vstd::arithmetic::div_mod::lemma_fundamental_div_mod(z, 146097);
    assert(0 <= doe < 146097);
    lemma_doy_range(doe);
    let yoe = (doe - doe / 1460 + doe / 36524 - doe / 146096) / 365;
    let doy = doe - (365 * yoe + yoe / 4 - yoe / 100);
    let mp = (5 * doy + 2) / 153;
    vstd::arithmetic::div_mod::lemma_fundamental_div_mod(5 * doy + 2, 153);
    assert(0 <= mp <= 11);
    let q = (153 * mp + 2) / 5;
    vstd::arithmetic::div_mod::lemma_fundamental_div_mod(153 * mp + 2, 5);
    assert(1 <= doy - q + 1 <= 31);
}


// ---- the panel ------------------------------------------------------------------------------------

/// The Inspector's modes, in its popup list; the last two are not implemented.
pub const MODES: usize = 4;

/// The largest text file the Contents mode shows.
pub const TEXT_MAX: u64 = 262144;

/// The most lines of a text file the Contents mode shows.
pub const TEXT_LINES: usize = 200;

pub struct Inspector {
    pub mode: usize,
    pub entry: Option<Entry>,
    pub meta: Option<Result<Meta, String>>,
    pub text: Option<Vec<String>>,
    pub image: Option<Rc<Image>>,
    pub msg: Option<String>,
    pub dir_size: Option<u64>,
    pub computing: bool,
    pub popup_open: bool,
    pub scroll: i32,
}

impl Default for Inspector {
    fn default() -> (i: Inspector)
        ensures
            i.mode == 0,
            i.entry is None,
            i.blank(),
            !i.popup_open,
    {
        Inspector {
            mode: 0,
            entry: None,
            meta: None,
            text: None,
            image: None,
            msg: None,
            dir_size: None,
            computing: false,
            popup_open: false,
            scroll: 0,
        }
    }
}

/// What the Inspector loads for its entry.
#[derive(Clone, Copy, PartialEq, Eq, Debug, Structural)]
pub enum Load {
    /// Nothing: the panel is hidden, or there is no entry, or a message says why not.
    Nothing,
    /// The attributes of the entry's path.
    Meta,
    /// The image file, to be decoded.
    Image,
    /// The head of the text file.
    Text,
}

/// A line of a text file as the Contents mode shows it: each tab four spaces.
pub open spec fn expand_tabs(l: Seq<char>) -> Seq<char>
    decreases l.len(),
{
    if l.len() == 0 {
        seq![]
    } else {
        expand_tabs(l.drop_last()) + if l.last() == '\t' { "    "@ } else { seq![l.last()] }
    }
}

/// The lines the Contents mode shows of `text`: the first 200, tabs expanded.
pub open spec fn shown_lines(text: Seq<char>) -> Seq<Seq<char>> {
    let ls = lines_spec(text);
    let n = if ls.len() > TEXT_LINES { TEXT_LINES as int } else { ls.len() as int };
    Seq::new(n as nat, |i: int| expand_tabs(ls[i]))
}

fn expanded(v: &[char], lo: usize, hi: usize) -> (s: String)
    requires
        lo <= hi <= v@.len(),
    ensures
        s@ == expand_tabs(v@.subrange(lo as int, hi as int)),
{
    let mut out: Vec<char> = Vec::new();
    let mut i = lo;
    while i < hi
        invariant
            lo <= i <= hi <= v@.len(),
            out@ == expand_tabs(v@.subrange(lo as int, i as int)),
        decreases hi - i,
    {
        let ghost before = out@;
        if v[i] == '\t' {
            out.push(' ');
            out.push(' ');
            out.push(' ');
            out.push(' ');
        } else {
            out.push(v[i]);
        }
        proof {
            let t = v@.subrange(lo as int, i + 1);
            assert(t.drop_last() =~= v@.subrange(lo as int, i as int));
            reveal_strlit("    ");
            assert(out@ =~= expand_tabs(t));
        }
        i += 1;
    }
    string_of(out.as_slice())
}

/// The Contents mode's lines of `text`.
pub fn text_lines(text: &str) -> (r: Vec<String>)
    ensures
        r@.len() == shown_lines(text@).len(),
        forall|i: int| 0 <= i < r@.len() ==> #[trigger] r@[i]@ == shown_lines(text@)[i],
{
    let v = chars_of(text);
    let mut out: Vec<String> = Vec::new();
    let mut i: usize = 0;
    let ghost mut taken: Seq<Seq<char>> = seq![];
    assert(v@.skip(0) =~= v@);
    while i < v.len() && out.len() < TEXT_LINES
        invariant
            i <= v@.len(),
            v@ == text@,
            out@.len() == taken.len(),
            out@.len() <= TEXT_LINES,
            lines_spec(text@) == taken + lines_spec(v@.skip(i as int)),
            forall|k: int| 0 <= k < out@.len() ==> #[trigger] out@[k]@ == expand_tabs(taken[k]),
        decreases v@.len() - i,
    {
        let ghost rest = v@.skip(i as int);
        proof {
            lemma_nl_index(rest);
        }
        let mut e = i;
        while e < v.len() && v[e] != '\n'
            invariant
                i <= e <= v@.len(),
                rest == v@.skip(i as int),
                forall|j: int| i <= j < e ==> v@[j] != '\n',
            decreases v@.len() - e,
        {
            e += 1;
        }
        proof {
            if e < v@.len() {
                assert(rest[e - i] == '\n');
                assert(nl_index(rest) == e - i) by {
                    if nl_index(rest) >= 0 && nl_index(rest) < e - i {
                        assert(rest[nl_index(rest)] == v@[i + nl_index(rest)]);
                    }
                    if nl_index(rest) < 0 {
                        assert(rest[e - i] != '\n');
                    }
                }
            } else {
                assert(nl_index(rest) < 0) by {
                    if nl_index(rest) >= 0 {
                        assert(rest[nl_index(rest)] == v@[i + nl_index(rest)]);
                    }
                }
            }
        }
        let mut end = e;
        if e < v.len() && end > i && v[end - 1] == '\r' {
            end -= 1;
        }
        let line = expanded(v.as_slice(), i, end);
        proof {
            let l = if e < v@.len() { strip_cr(rest.take(e - i)) } else { rest };
            assert(v@.subrange(i as int, end as int) =~= l);
            let ls = lines_spec(rest);
            assert(ls[0] == l);
            if e < v@.len() {
                assert(rest.skip(e - i + 1) =~= v@.skip(e + 1));
                assert(ls =~= seq![l] + lines_spec(v@.skip(e + 1)));
            } else {
                assert(ls =~= seq![l]);
                assert(v@.skip(v@.len() as int) =~= Seq::<char>::empty());
                assert(ls =~= seq![l] + lines_spec(v@.skip(v@.len() as int)));
            }
            assert(taken + ls =~= taken.push(l) + ls.drop_first());
            taken = taken.push(l);
        }
        out.push(line);
        i = if e < v.len() {
            e + 1
        } else {
            e
        };
    }
    proof {
        let ls = lines_spec(text@);
        if out@.len() < TEXT_LINES {
            assert(v@.skip(i as int) =~= Seq::<char>::empty());
            assert(ls =~= taken);
        }
        assert(shown_lines(text@).len() == out@.len());
        assert forall|k: int| 0 <= k < out@.len() implies #[trigger] out@[k]@ == shown_lines(text@)[k] by {
            assert(ls[k] == taken[k]);
        }
    }
    out
}

impl Inspector {
    /// Nothing loaded, nothing being computed, at the top.
    pub open spec fn blank(&self) -> bool {
        &&& self.meta is None
        &&& self.text is None
        &&& self.image is None
        &&& self.msg is None
        &&& self.dir_size is None
        &&& !self.computing
        &&& self.scroll == 0
    }

    /// What the panel loads for its entry in its mode, and the message it shows when it cannot.
    pub open spec fn plan_spec(&self, visible: bool) -> (Load, Option<Seq<char>>) {
        match self.entry {
            None => (Load::Nothing, None),
            Some(e) => if !visible {
                (Load::Nothing, None)
            } else if self.mode == 0 {
                (Load::Meta, None)
            } else if e.is_dir {
                (Load::Nothing, Some("No contents viewer for folders"@))
            } else if ext_spec(e.name@) == "png"@ {
                (Load::Image, None)
            } else if (icon_of_ext(ext_spec(e.name@)) == "file-text"@ || icon_of_ext(ext_spec(e.name@))
                == "file-code"@) && e.size < TEXT_MAX {
                (Load::Text, None)
            } else {
                (Load::Nothing, Some("No contents viewer for this type"@))
            },
        }
    }

    /// Clears what was loaded and decides what to load again for the current entry and mode
    /// (the panel shows it only when `visible`).
    pub fn refresh(&mut self, visible: bool) -> (l: Load)
        ensures
            final(self).mode == old(self).mode,
            final(self).entry == old(self).entry,
            final(self).popup_open == old(self).popup_open,
            l == old(self).plan_spec(visible).0,
            final(self).msg matches Some(m) ==> old(self).plan_spec(visible).1 == Some(m@),
            final(self).msg is None ==> old(self).plan_spec(visible).1 is None,
            final(self).meta is None && final(self).text is None && final(self).image is None,
            final(self).dir_size is None && !final(self).computing && final(self).scroll == 0,
    {
        self.meta = None;
        self.text = None;
        self.image = None;
        self.msg = None;
        self.dir_size = None;
        self.computing = false;
        self.scroll = 0;
        if !visible {
            return Load::Nothing;
        }
        let (is_dir, size) = match &self.entry {
            None => return Load::Nothing,
            Some(e) => (e.is_dir, e.size),
        };
        if self.mode == 0 {
            return Load::Meta;
        }
        if is_dir {
            self.msg = Some(String::from_str("No contents viewer for folders"));
            return Load::Nothing;
        }
        let (img, txt) = match &self.entry {
            None => (false, false),
            Some(e) => (image_mime(e.name.as_str()), is_text_like(e.name.as_str())),
        };
        if img {
            Load::Image
        } else if txt && size < TEXT_MAX {
            Load::Text
        } else {
            self.msg = Some(String::from_str("No contents viewer for this type"));
            Load::Nothing
        }
    }

    /// Whether `e` is another entry than the one shown: another path, or the same path changed.
    pub open spec fn differs(&self, e: Option<Entry>) -> bool {
        match (e, self.entry) {
            (Some(a), Some(b)) => !(a.path@ == b.path@ && a.modified == b.modified),
            (None, None) => false,
            _ => true,
        }
    }

    /// Shows `e`; says whether it differs from the entry shown, in which case the panel must be
    /// refreshed.
    pub fn update(&mut self, e: Option<Entry>) -> (changed: bool)
        ensures
            changed == old(self).differs(e),
            changed ==> final(self).entry == e,
            !changed ==> *final(self) == *old(self),
    {
        let same = match (&e, &self.entry) {
            (Some(a), Some(b)) => str_eq(a.path.as_str(), b.path.as_str()) && a.modified == b.modified,
            (None, None) => true,
            _ => false,
        };
        if same {
            return false;
        }
        self.entry = e;
        true
    }

    /// Whether a result for `path` is for the entry shown (an old one is dropped).
    pub fn is_current(&self, path: &str) -> (b: bool)
        ensures
            b == (self.entry matches Some(e) && e.path@ == path@),
    {
        match &self.entry {
            Some(e) => str_eq(e.path.as_str(), path),
            None => false,
        }
    }

    /// A text file read for `path`: its lines, or why it could not be read.
    pub fn set_text(&mut self, path: &str, result: Result<String, String>)
        ensures
            !old(self).is_current_spec(path@) ==> *final(self) == *old(self),
            old(self).is_current_spec(path@) ==> match result {
                Ok(t) => final(self).text matches Some(ls) && ls@.len() == shown_lines(t@).len()
                    && (forall|i: int| 0 <= i < ls@.len() ==> #[trigger] ls@[i]@ == shown_lines(t@)[i])
                    && final(self).msg == old(self).msg,
                Err(m) => final(self).msg == Some(m) && final(self).text == old(self).text,
            },
            final(self).entry == old(self).entry,
            final(self).mode == old(self).mode,
    {
        if !self.is_current(path) {
            return;
        }
        match result {
            Ok(t) => {
                self.text = Some(text_lines(t.as_str()));
            },
            Err(m) => {
                self.msg = Some(m);
            },
        }
    }

    /// An image file read for `path`: the decoded image, or why it could not be read or decoded.
    pub fn set_image(&mut self, path: &str, result: Result<Vec<u8>, String>)
        ensures
            !old(self).is_current_spec(path@) ==> *final(self) == *old(self),
            old(self).is_current_spec(path@) ==> match result {
                Err(m) => final(self).msg == Some(m) && final(self).image == old(self).image,
                Ok(b) => match png_decoded(b@) {
                    Err(e) => final(self).msg matches Some(m) && m@ == e && final(self).image
                        == old(self).image,
                    Ok((w, h, c, d)) => if samples_of(c) == 0 {
                        final(self).msg matches Some(m) && m@ == "unsupported PNG color type"@
                            && final(self).image == old(self).image
                    } else {
                        final(self).image matches Some(img) && made_from(*img, w, h, c, d)
                            && final(self).msg == old(self).msg
                    },
                },
            },
            final(self).entry == old(self).entry,
            final(self).mode == old(self).mode,
            final(self).text == old(self).text,
    {
        if !self.is_current(path) {
            return;
        }
        let decoded = match result {
            Ok(b) => decode_png(b.as_slice()),
            Err(m) => Err(m),
        };
        match decoded {
            Ok(img) => {
                self.image = Some(Rc::new(img));
            },
            Err(m) => {
                self.msg = Some(m);
            },
        }
    }

    pub open spec fn is_current_spec(&self, path: Seq<char>) -> bool {
        self.entry matches Some(e) && e.path@ == path
    }

    /// The size of a folder, measured for `path`.
    pub fn set_dir_size(&mut self, path: &str, result: Result<u64, String>)
        ensures
            !old(self).is_current_spec(path@) ==> *final(self) == *old(self),
            old(self).is_current_spec(path@) ==> !final(self).computing && match result {
                Ok(n) => final(self).dir_size == Some(n) && final(self).msg == old(self).msg,
                Err(m) => final(self).msg == Some(m) && final(self).dir_size == old(self).dir_size,
            },
            final(self).entry == old(self).entry,
    {
        if !self.is_current(path) {
            return;
        }
        self.computing = false;
        match result {
            Ok(n) => {
                self.dir_size = Some(n);
            },
            Err(m) => {
                self.msg = Some(m);
            },
        }
    }

    /// Picks mode `i` from the popup list, which closes; the modes past Contents do nothing.
    /// Says whether the mode was taken, in which case the panel must be refreshed.
    pub fn set_mode(&mut self, i: usize) -> (taken: bool)
        ensures
            !final(self).popup_open,
            taken == (i < 2),
            final(self).mode == (if i < 2 { i } else { old(self).mode }),
            final(self).entry == old(self).entry,
    {
        self.popup_open = false;
        if i >= 2 {
            return false;
        }
        self.mode = i;
        true
    }
}

} // verus!
