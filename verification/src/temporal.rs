//! Text of DuckDB's date, time, timestamp and interval values, as
//! `CAST(value AS VARCHAR)` gives it.

use vstd::prelude::*;

use crate::decimal::{
    decimal, pad_zeros, padded, push_padded, push_padded_signed, push_signed, signed_decimal,
};
use crate::text::{chars_of, push_char, push_str, string_of};
use vstd::arithmetic::div_mod::{
    lemma_div_is_ordered, lemma_div_is_ordered_by_denominator, lemma_div_pos_is_pos,
    lemma_fundamental_div_mod,
    lemma_fundamental_div_mod_converse,
};

verus! {

/// The unit of a time or timestamp value.
#[derive(Clone, Copy, Debug, PartialEq, Eq, Structural)]
pub enum TimeUnit {
    Second,
    Millisecond,
    Microsecond,
    Nanosecond,
}

/// Nanoseconds per unit.
pub open spec fn unit_nanos(unit: TimeUnit) -> int {
    match unit {
        TimeUnit::Second => 1_000_000_000,
        TimeUnit::Millisecond => 1_000_000,
        TimeUnit::Microsecond => 1_000,
        TimeUnit::Nanosecond => 1,
    }
}

/// `value` units, in nanoseconds.
pub fn time_unit_value_to_nanos(unit: TimeUnit, value: i64) -> (r: i128)
    ensures
        r == value * unit_nanos(unit),
{
    match unit {
        TimeUnit::Second => (value as i128) * 1_000_000_000,
        TimeUnit::Millisecond => (value as i128) * 1_000_000,
        TimeUnit::Microsecond => (value as i128) * 1_000,
        TimeUnit::Nanosecond => value as i128,
    }
}

/// What Rust's `/` and `%` give on a signed dividend and a positive divisor.
proof fn lemma_trunc_div_mod(a: int, b: int, q: int, r: int)
    requires
        b > 0,
        a >= 0 ==> q == a / b && r == a % b,
        a < 0 ==> q == -((-a) / b) && r == -((-a) % b),
    ensures
        q * b + r == a,
        -b < r < b,
        a >= 0 ==> r >= 0,
        r < 0 ==> q <= 0,
        r < 0 ==> q > a,
        a >= 0 ==> 0 <= q <= a,
        a < 0 ==> a <= q <= 0,
{
    if a >= 0 {
        lemma_fundamental_div_mod(a, b);
        lemma_div_pos_is_pos(a, b);
        lemma_div_is_ordered_by_denominator(a, 1, b);
    } else {
        lemma_fundamental_div_mod(-a, b);
        lemma_div_pos_is_pos(-a, b);
        lemma_div_is_ordered_by_denominator(-a, 1, b);
        assert(q * b == -(((-a) / b) * b)) by (nonlinear_arith)
            requires
                q == -((-a) / b),
        ;
        if r < 0 {
            assert(q * b <= q) by (nonlinear_arith)
                requires
                    q <= 0,
                    b >= 1,
            ;
        }
    }
}

/// Floor division: the quotient rounded down and a remainder in `0..b`.
pub fn div_mod_floor_i128(a: i128, b: i128) -> (r: (i128, i128))
    requires
        b > 0,
    ensures
        r.0 == a / b,
        r.1 == a % b,
        r.0 * b + r.1 == a,
        0 <= r.1 < b,
{
    let mut q = a / b;
    let mut r = a % b;
    proof {
        lemma_trunc_div_mod(a as int, b as int, q as int, r as int);
    }
    if r < 0 {
        proof {
            assert((q - 1) * b + (r + b) == q * b + r) by (nonlinear_arith);
        }
        q = q - 1;
        r = r + b;
    }
    proof {
        lemma_fundamental_div_mod_converse(a as int, b as int, q as int, r as int);
    }
    (q, r)
}


// ---------------------------------------------------------------------------
// Dates

/// Year of era, day of year and month index (March = 0) of the day `doe`
/// of a 400-year era that starts on 0000-03-01.
pub open spec fn year_of_era(doe: int) -> int {
    (doe - doe / 1460 + doe / 36524 - doe / 146096) / 365
}

pub open spec fn day_of_year(doe: int) -> int {
    let yoe = year_of_era(doe);
    doe - (365 * yoe + yoe / 4 - yoe / 100)
}

pub open spec fn month_index(doy: int) -> int {
    (5 * doy + 2) / 153
}

/// The civil date (year, month, day) of the day `days` after 1970-01-01, in
/// the proleptic Gregorian calendar, computed by eras of 400 years.
pub open spec fn civil_from_days_model(days: int) -> (int, int, int) {
    let z = days + 719468;
    let era = z / 146097;
    let doe = z - era * 146097;
    let yoe = year_of_era(doe);
    let doy = day_of_year(doe);
    let mp = month_index(doy);
    let d = doy - (153 * mp + 2) / 5 + 1;
    let m = if mp < 10 {
        mp + 3
    } else {
        mp - 9
    };
    (yoe + era * 400 + if m <= 2 {
        1int
    } else {
        0int
    }, m, d)
}

proof fn lemma_era_day_ranges(doe: u32)
    requires
        doe < 146097,
    ensures
        0 <= year_of_era(doe as int) <= 399,
        0 <= day_of_year(doe as int) <= 365,
        0 <= month_index(day_of_year(doe as int)) <= 11,
        1 <= day_of_year(doe as int) - (153 * month_index(day_of_year(doe as int)) + 2) / 5 + 1
            <= 31,
{
    let yoe: u32 = ((doe - doe / 1460 + doe / 36524 - doe / 146096) / 365) as u32;
    assert(doe < 146097 ==> (doe - doe / 1460 + doe / 36524 - doe / 146096) / 365 <= 399
        && doe / 1460 <= doe) by (bit_vector);
    assert(yoe == year_of_era(doe as int));
    assert(doe < 146097 && yoe == (doe - doe / 1460 + doe / 36524 - doe / 146096) / 365
        ==> 365 * yoe + yoe / 4 - yoe / 100 <= doe && doe - (365 * yoe + yoe / 4 - yoe / 100)
        <= 365) by (bit_vector);
    let doy: u32 = (doe - (365 * yoe + yoe / 4 - yoe / 100)) as u32;
    assert(doy == day_of_year(doe as int));
    assert(doy <= 365 ==> (5 * doy + 2) / 153 <= 11 && (153 * ((5 * doy + 2) / 153) + 2) / 5
        <= doy && doy - (153 * ((5 * doy + 2) / 153) + 2) / 5 + 1 <= 31) by (bit_vector);
}

/// Splits `z` into its 400-year era and its day within that era.
fn era_split(z: i64) -> (r: (i64, i64))
    requires
        z >= i64::MIN + 146096,
    ensures
        r.0 == z / 146097,
        r.1 == z % 146097,
        0 <= r.1 < 146097,
{
    let era = if z >= 0 {
        z / 146_097
    } else {
        (z - 146_096) / 146_097
    };
    proof {
        if z < 0 {
            let n = (z - 146_096) as int;
            let rn = -((-n) % 146097);
            lemma_trunc_div_mod(n, 146097, era as int, rn);
        } else {
            lemma_trunc_div_mod(z as int, 146097, era as int, (z % 146097) as int);
        }
        lemma_fundamental_div_mod_converse(z as int, 146097, era as int, z - era * 146097);
    }
    (era, z - era * 146_097)
}

/// The civil date within an era: (year of era, month, day).
fn date_in_era(doe: i64) -> (r: (i64, i64, i64))
    requires
        0 <= doe < 146097,
    ensures
        r.0 == year_of_era(doe as int),
        r.1 == (if month_index(day_of_year(doe as int)) < 10 {
            month_index(day_of_year(doe as int)) + 3
        } else {
            month_index(day_of_year(doe as int)) - 9
        }),
        r.2 == day_of_year(doe as int) - (153 * month_index(day_of_year(doe as int)) + 2) / 5 + 1,
        0 <= r.0 <= 399,
        1 <= r.1 <= 12,
        1 <= r.2 <= 31,
{
    proof { lemma_era_day_ranges(doe as u32); }
    let yoe = (doe - doe / 1_460 + doe / 36_524 - doe / 146_096) / 365;
    let doy = doe - (365 * yoe + yoe / 4 - yoe / 100);
    let mp = (5 * doy + 2) / 153;
    let d = doy - (153 * mp + 2) / 5 + 1;
    let m = mp + if mp < 10 {
        3
    } else {
        -9
    };
    (yoe, m, d)
}

/// Converts days since 1970-01-01 to a civil date (year, month, day).
fn civil_from_days(days_since_epoch: i64) -> (r: (i32, u32, u32))
    requires
        i64::MIN + 146096 <= days_since_epoch + 719468 <= i64::MAX,
    ensures
        r.0 == civil_from_days_model(days_since_epoch as int).0 as i32,
        r.1 == civil_from_days_model(days_since_epoch as int).1,
        r.2 == civil_from_days_model(days_since_epoch as int).2,
        1 <= r.1 <= 12,
        1 <= r.2 <= 31,
{
    let z = days_since_epoch + 719_468;
    let (era, doe) = era_split(z);
    let (yoe, m, d) = date_in_era(doe);
    proof {
        lemma_fundamental_div_mod(z as int, 146097);
        if era >= 0 {
            assert(era * 400 <= era * 146097) by (nonlinear_arith)
                requires
                    era >= 0,
            ;
        } else {
            assert(era * 400 >= era * 146097) by (nonlinear_arith)
                requires
                    era < 0,
            ;
        }
    }
    let y = yoe + era * 400;
    let year = y + if m <= 2 {
        1
    } else {
        0
    };
    (year as i32, m as u32, d as u32)
}


// ---------------------------------------------------------------------------
// Times of day

/// Hours, minutes and seconds of a second of the day.
fn split_hms(secs_of_day: i64) -> (r: (u32, u32, u32))
    requires
        0 <= secs_of_day < 86400,
    ensures
        r.0 == secs_of_day / 3600,
        r.1 == (secs_of_day % 3600) / 60,
        r.2 == secs_of_day % 60,
{
    let s = secs_of_day as u64;
    let hh = (s / 3600) as u32;
    let mm = ((s % 3600) / 60) as u32;
    let ss = (s % 60) as u32;
    (hh, mm, ss)
}

/// `s` without its trailing `0`s.
pub open spec fn strip_trailing_zeros(s: Seq<char>) -> Seq<char>
    decreases s.len(),
{
    if s.len() > 0 && s.last() == '0' {
        strip_trailing_zeros(s.drop_last())
    } else {
        s
    }
}

/// Number of fractional digits that a unit can carry.
pub open spec fn frac_width(unit: TimeUnit) -> int {
    match unit {
        TimeUnit::Second => 0,
        TimeUnit::Millisecond => 3,
        TimeUnit::Microsecond => 6,
        TimeUnit::Nanosecond => 9,
    }
}

/// The fractional digits of `nanos` (below one second) at the precision of
/// `unit`, without trailing zeros.
pub open spec fn fraction_text(nanos: int, unit: TimeUnit) -> Seq<char> {
    if nanos == 0 || unit == TimeUnit::Second {
        Seq::empty()
    } else {
        strip_trailing_zeros(
            pad_zeros(decimal((nanos / unit_nanos(unit)) as nat), frac_width(unit)),
        )
    }
}

/// `.` and the fractional digits, or nothing when there are none.
pub open spec fn fraction_suffix(nanos: int, unit: TimeUnit) -> Seq<char> {
    if fraction_text(nanos, unit).len() == 0 {
        Seq::empty()
    } else {
        seq!['.'] + fraction_text(nanos, unit)
    }
}

/// Fractional digits of a sub-second nanosecond count.
fn format_fractional_nanos(nanos: u32, unit: TimeUnit) -> (r: String)
    requires
        nanos < 1_000_000_000,
    ensures
        r@ == fraction_text(nanos as int, unit),
{
    if nanos == 0 {
        return String::new();
    }
    let (width, value): (usize, u32) = match unit {
        TimeUnit::Second => {
            return String::new();
        },
        TimeUnit::Millisecond => (3, nanos / 1_000_000),
        TimeUnit::Microsecond => (6, nanos / 1_000),
        TimeUnit::Nanosecond => (9, nanos),
    };
    let mut s = String::new();
    push_padded(&mut s, value as u128, width);
    let mut v = chars_of(s.as_str());
    let ghost full = v@;
    assert(Seq::<char>::empty() + pad_zeros(decimal(value as nat), width as int) =~= full);
    while v.len() > 0 && v[v.len() - 1] == '0'
        invariant
            strip_trailing_zeros(v@) == strip_trailing_zeros(full),
        decreases v.len(),
    {
        v.pop();
    }
    string_of(&v)
}

/// `hh:mm:ss` of a second of the day.
pub open spec fn hms_text(secs_of_day: int) -> Seq<char> {
    pad_zeros(decimal((secs_of_day / 3600) as nat), 2) + seq![':'] + pad_zeros(
        decimal(((secs_of_day % 3600) / 60) as nat),
        2,
    ) + seq![':'] + pad_zeros(decimal((secs_of_day % 60) as nat), 2)
}

fn push_hms(out: &mut String, secs_of_day: i64)
    requires
        0 <= secs_of_day < 86400,
    ensures
        final(out)@ == old(out)@ + hms_text(secs_of_day as int),
{
    let (hh, mm, ss) = split_hms(secs_of_day);
    push_padded(out, hh as u128, 2);
    push_char(out, ':');
    push_padded(out, mm as u128, 2);
    push_char(out, ':');
    push_padded(out, ss as u128, 2);
    assert(final(out)@ =~= old(out)@ + hms_text(secs_of_day as int));
}

fn push_fraction(out: &mut String, nanos: u32, unit: TimeUnit)
    requires
        nanos < 1_000_000_000,
    ensures
        final(out)@ == old(out)@ + fraction_suffix(nanos as int, unit),
{
    let frac = format_fractional_nanos(nanos, unit);
    let fv = chars_of(frac.as_str());
    if fv.len() > 0 {
        push_char(out, '.');
        push_str(out, frac.as_str());
        assert(old(out)@.push('.') + frac@ =~= old(out)@ + fraction_suffix(nanos as int, unit));
    } else {
        assert(old(out)@ =~= old(out)@ + fraction_suffix(nanos as int, unit));
    }
}

/// The time of day of an instant given in nanoseconds, with the fraction at
/// the precision of `unit`.
pub open spec fn time_text(nanos: int, unit: TimeUnit) -> Seq<char> {
    let secs = nanos / 1_000_000_000;
    hms_text(secs % 86400) + fraction_suffix(nanos % 1_000_000_000, unit)
}

fn format_hms_nanos(nanos: i128, unit: TimeUnit) -> (r: String)
    ensures
        r@ == time_text(nanos as int, unit),
{
    let (secs, sub_nanos) = div_mod_floor_i128(nanos, 1_000_000_000);
    let (_, secs_of_day) = div_mod_floor_i128(secs, 86_400);
    let mut out = String::new();
    push_hms(&mut out, secs_of_day as i64);
    push_fraction(&mut out, sub_nanos as u32, unit);
    assert(out@ =~= time_text(nanos as int, unit));
    out
}

/// Text of a `TIME` value.
pub fn format_time64(unit: TimeUnit, value: i64) -> (r: String)
    ensures
        r@ == time_text(value * unit_nanos(unit), unit),
{
    let nanos = time_unit_value_to_nanos(unit, value);
    format_hms_nanos(nanos, unit)
}

// ---------------------------------------------------------------------------
// Dates and timestamps

/// `yyyy-mm-dd`, the year as `{:04}` writes an `i32`.
pub open spec fn date_text(y: i32, m: int, d: int) -> Seq<char> {
    padded(y as int, 4) + seq!['-'] + pad_zeros(decimal(m as nat), 2) + seq!['-'] + pad_zeros(
        decimal(d as nat),
        2,
    )
}

/// The civil date of a day count, as a `(year as i32, month, day)` triple.
pub open spec fn civil_date(days: int) -> (i32, int, int) {
    let c = civil_from_days_model(days);
    (c.0 as i32, c.1, c.2)
}

fn push_date(out: &mut String, days: i64)
    requires
        i64::MIN + 146096 <= days + 719468 <= i64::MAX,
    ensures
        final(out)@ == old(out)@ + date_text(
            civil_date(days as int).0,
            civil_date(days as int).1,
            civil_date(days as int).2,
        ),
{
    let (y, m, d) = civil_from_days(days);
    push_padded_signed(out, y as i64, 4);
    push_char(out, '-');
    push_padded(out, m as u128, 2);
    push_char(out, '-');
    push_padded(out, d as u128, 2);
    assert(final(out)@ =~= old(out)@ + date_text(y, m as int, d as int));
}

/// Text of a `DATE` value.
pub open spec fn date32_text(days: int) -> Seq<char> {
    date_text(civil_date(days).0, civil_date(days).1, civil_date(days).2)
}

/// Text of a `DATE` value (days since 1970-01-01).
pub fn format_date32(days_since_epoch: i32) -> (r: String)
    ensures
        r@ == date32_text(days_since_epoch as int),
{
    let mut out = String::new();
    push_date(&mut out, days_since_epoch as i64);
    assert(out@ =~= date32_text(days_since_epoch as int));
    out
}

/// Text of a `TIMESTAMP` value: date, a space, time of day and fraction.
pub open spec fn timestamp_text(value: int, unit: TimeUnit) -> Seq<char> {
    let nanos = value * unit_nanos(unit);
    let secs = nanos / 1_000_000_000;
    date32_text(secs / 86400) + seq![' '] + hms_text(secs % 86400) + fraction_suffix(
        nanos % 1_000_000_000,
        unit,
    )
}

/// Text of a `TIMESTAMP` value.
pub fn format_timestamp(unit: TimeUnit, value: i64) -> (r: String)
    ensures
        r@ == timestamp_text(value as int, unit),
{
    let nanos = time_unit_value_to_nanos(unit, value);
    let (secs, sub_nanos) = div_mod_floor_i128(nanos, 1_000_000_000);
    let (days, secs_of_day) = div_mod_floor_i128(secs, 86_400);
    proof {
        assert(-9223372036854775808 * 1_000_000_000 <= nanos <= 9223372036854775807
            * 1_000_000_000) by (nonlinear_arith)
            requires
                nanos == value * unit_nanos(unit),
                1 <= unit_nanos(unit) <= 1_000_000_000,
                i64::MIN <= value <= i64::MAX,
        ;
        lemma_div_is_ordered(-9223372036854775808 * 1_000_000_000, nanos as int, 1_000_000_000);
        lemma_div_is_ordered(nanos as int, 9223372036854775807int * 1_000_000_000, 1_000_000_000);
        lemma_div_is_ordered(-9223372036854775808, secs as int, 86400);
        lemma_div_is_ordered(secs as int, 9223372036854775807int, 86400);
    }
    let mut out = String::new();
    push_date(&mut out, days as i64);
    push_char(&mut out, ' ');
    push_hms(&mut out, secs_of_day as i64);
    push_fraction(&mut out, sub_nanos as u32, unit);
    assert(out@ =~= timestamp_text(value as int, unit));
    out
}

// ---------------------------------------------------------------------------
// Intervals

/// Rust's `/` on integers: the quotient rounded toward zero.
pub open spec fn trunc_div(a: int, b: int) -> int {
    if a >= 0 {
        a / b
    } else {
        -((-a) / b)
    }
}

/// Rust's `%` on integers: the remainder with the sign of `a`.
pub open spec fn trunc_rem(a: int, b: int) -> int {
    if a >= 0 {
        a % b
    } else {
        -((-a) % b)
    }
}

/// `value unit`, with an `s` unless the value is 1 or -1.
pub open spec fn pluralize_text(value: int, unit: Seq<char>) -> Seq<char> {
    signed_decimal(value) + seq![' '] + unit + if value == 1 || value == -1 {
        Seq::empty()
    } else {
        seq!['s']
    }
}

/// Formats a count with its unit.
fn pluralize(value: i32, unit: &str) -> (r: String)
    ensures
        r@ == pluralize_text(value as int, unit@),
{
    let is_unit = value == 1 || value == -1;
    let mut out = String::new();
    push_signed(&mut out, value as i128);
    push_char(&mut out, ' ');
    push_str(&mut out, unit);
    if !is_unit {
        push_char(&mut out, 's');
    }
    assert(out@ =~= pluralize_text(value as int, unit@));
    out
}

/// The time part of an interval: `[-]hh:mm:ss[.fraction]`, the hours not
/// limited to a day.
pub open spec fn interval_time_text(nanos: int) -> Seq<char> {
    let abs = if nanos < 0 {
        -nanos
    } else {
        nanos
    };
    let total = abs / 1_000_000_000;
    (if nanos < 0 {
        seq!['-']
    } else {
        Seq::empty()
    }) + pad_zeros(decimal((total / 3600) as nat), 2) + seq![':'] + pad_zeros(
        decimal(((total % 3600) / 60) as nat),
        2,
    ) + seq![':'] + pad_zeros(decimal((total % 60) as nat), 2) + fraction_suffix(
        abs % 1_000_000_000,
        TimeUnit::Nanosecond,
    )
}

fn format_interval_time(nanos: i64) -> (r: String)
    ensures
        r@ == interval_time_text(nanos as int),
{
    let mut out = String::new();
    if nanos < 0 {
        push_char(&mut out, '-');
    }
    let abs: u128 = if nanos >= 0 {
        nanos as u128
    } else if nanos == i64::MIN {
        9223372036854775808u128
    } else {
        (-nanos) as u128
    };
    let total_secs = abs / 1_000_000_000;
    let sub_nanos = (abs % 1_000_000_000) as u32;
    let hh = total_secs / 3600;
    let mm = (total_secs % 3600) / 60;
    let ss = total_secs % 60;
    push_padded(&mut out, hh, 2);
    push_char(&mut out, ':');
    push_padded(&mut out, mm, 2);
    push_char(&mut out, ':');
    push_padded(&mut out, ss, 2);
    push_fraction(&mut out, sub_nanos, TimeUnit::Nanosecond);
    assert(out@ =~= interval_time_text(nanos as int));
    out
}

/// The parts of an interval's text: years, months, days (each when not zero)
/// and the time (when not zero, or when nothing else was written).
pub open spec fn interval_parts(months: int, days: int, nanos: int) -> Seq<Seq<char>> {
    let years = trunc_div(months, 12);
    let rem_months = trunc_rem(months, 12);
    let p1 = if months != 0 && years != 0 {
        seq![pluralize_text(years, "year"@)]
    } else {
        Seq::empty()
    };
    let p2 = if months != 0 && rem_months != 0 {
        seq![pluralize_text(rem_months, "month"@)]
    } else {
        Seq::empty()
    };
    let p3 = if days != 0 {
        seq![pluralize_text(days, "day"@)]
    } else {
        Seq::empty()
    };
    let ps = p1 + p2 + p3;
    if nanos != 0 || ps.len() == 0 {
        ps.push(interval_time_text(nanos))
    } else {
        ps
    }
}

/// `parts` joined by single spaces.
pub open spec fn join_space(parts: Seq<Seq<char>>) -> Seq<char>
    decreases parts.len(),
{
    if parts.len() == 0 {
        Seq::empty()
    } else if parts.len() == 1 {
        parts[0]
    } else {
        join_space(parts.drop_last()) + seq![' '] + parts.last()
    }
}

/// Joins strings with single spaces (`[String]::join(" ")`).
pub fn join_with_space(parts: &Vec<String>) -> (r: String)
    ensures
        r@ == join_space(parts@.map_values(|p: String| p@)),
{
    let ghost views = parts@.map_values(|p: String| p@);
    let mut out = String::new();
    let n = parts.len();
    for i in 0..n
        invariant
            n == parts.len(),
            views == parts@.map_values(|p: String| p@),
            out@ == join_space(views.take(i as int)),
    {
        let ghost before = out@;
        if i > 0 {
            push_char(&mut out, ' ');
        }
        push_str(&mut out, parts[i].as_str());
        proof {
            let t = views.take(i + 1);
            assert(t.drop_last() =~= views.take(i as int));
            assert(t.last() == parts@[i as int]@);
            if i == 0 {
                assert(out@ =~= parts@[0]@);
                assert(t.len() == 1);
            } else {
                assert(out@ =~= before + seq![' '] + t.last());
            }
        }
    }
    assert(views.take(n as int) =~= views);
    out
}

/// Text of an `INTERVAL` value.
pub open spec fn interval_text(months: int, days: int, nanos: int) -> Seq<char> {
    join_space(interval_parts(months, days, nanos))
}

/// Text of an `INTERVAL` value.
pub fn format_interval(months: i32, days: i32, nanos: i64) -> (r: String)
    ensures
        r@ == interval_text(months as int, days as int, nanos as int),
{
    let mut parts: Vec<String> = Vec::new();
    let years = months / 12;
    let rem_months = months % 12;
    proof {
        lemma_trunc_div_mod(months as int, 12, years as int, rem_months as int);
    }
    if months != 0 {
        if years != 0 {
            parts.push(pluralize(years, "year"));
        }
        if rem_months != 0 {
            parts.push(pluralize(rem_months, "month"));
        }
    }
    if days != 0 {
        parts.push(pluralize(days, "day"));
    }
    if nanos != 0 || parts.len() == 0 {
        parts.push(format_interval_time(nanos));
    }
    proof {
        assert(parts@.map_values(|p: String| p@) =~= interval_parts(
            months as int,
            days as int,
            nanos as int,
        ));
    }
    join_with_space(&parts)
}


// ---------------------------------------------------------------------------
// The calendar

/// Leap years of the proleptic Gregorian calendar.
pub open spec fn is_leap_year(y: int) -> bool {
    (y % 4 == 0 && y % 100 != 0) || y % 400 == 0
}

/// Days in month `m` (1 to 12) of year `y`.
pub open spec fn days_in_month(y: int, m: int) -> int {
    if m == 2 {
        if is_leap_year(y) {
            29
        } else {
            28
        }
    } else if m == 4 || m == 6 || m == 9 || m == 11 {
        30
    } else {
        31
    }
}

/// Days of year `y` before the first of month `m`.
pub open spec fn days_before_month(y: int, m: int) -> int {
    (if m == 1 {
        0int
    } else if m == 2 {
        31
    } else if m == 3 {
        59
    } else if m == 4 {
        90
    } else if m == 5 {
        120
    } else if m == 6 {
        151
    } else if m == 7 {
        181
    } else if m == 8 {
        212
    } else if m == 9 {
        243
    } else if m == 10 {
        273
    } else if m == 11 {
        304
    } else {
        334
    }) + if m > 2 && is_leap_year(y) {
        1int
    } else {
        0int
    }
}

/// Leap years in `0..y` (negated count of those in `y..0` when `y < 0`).
pub open spec fn leap_years_before(y: int) -> int {
    (y + 3) / 4 - (y + 99) / 100 + (y + 399) / 400
}

/// The day number of a civil date, counted from 1970-01-01.
pub open spec fn days_from_civil(y: int, m: int, d: int) -> int {
    365 * y + leap_years_before(y) + days_before_month(y, m) + d - 1 - 719528
}

proof fn lemma_leap_count(y: u32)
    requires
        y <= 399,
    ensures
        leap_years_before(y as int) + (if is_leap_year(y as int) {
            1int
        } else {
            0int
        }) == y / 4 - y / 100 + 1,
        leap_years_before(y + 1) == leap_years_before(y as int) + (if is_leap_year(y as int) {
            1int
        } else {
            0int
        }),
{
    assert(y <= 399 ==> (y + 3) / 4 - (y + 99) / 100 + (y + 399) / 400 + (if (y % 4 == 0 && y
        % 100 != 0) || y % 400 == 0 {
        1u32
    } else {
        0u32
    }) == y / 4 - y / 100 + 1 && (y + 4) / 4 - (y + 100) / 100 + (y + 400) / 400 == (y + 3) / 4
        - (y + 99) / 100 + (y + 399) / 400 + (if (y % 4 == 0 && y % 100 != 0) || y % 400 == 0 {
        1u32
    } else {
        0u32
    })) by (bit_vector);
}

proof fn lemma_last_day_of_era_year(doe: u32, yoe: u32)
    requires
        doe < 146097,
        yoe == year_of_era(doe as int),
        day_of_year(doe as int) == 365,
    ensures
        is_leap_year(yoe + 1),
{
    assert(doe < 146097 && yoe == (doe - doe / 1460 + doe / 36524 - doe / 146096) / 365 && doe - (
    365 * yoe + yoe / 4 - yoe / 100) == 365 ==> (((yoe + 1) % 4 == 0 && (yoe + 1) % 100 != 0) || (
    yoe + 1) % 400 == 0)) by (bit_vector);
}

proof fn lemma_date_in_era(doe: u32)
    requires
        doe < 146097,
    ensures
        ({
            let yoe = year_of_era(doe as int);
            let doy = day_of_year(doe as int);
            let mp = month_index(doy);
            let d = doy - (153 * mp + 2) / 5 + 1;
            let m = if mp < 10 {
                mp + 3
            } else {
                mp - 9
            };
            let y = yoe + if m <= 2 {
                1int
            } else {
                0int
            };
            &&& 1 <= d <= days_in_month(y, m)
            &&& 365 * y + leap_years_before(y) + days_before_month(y, m) + d - 1 == doe + 60
        }),
{
    lemma_era_day_ranges(doe);
    let yoe = year_of_era(doe as int);
    let doy = day_of_year(doe as int);
    let mp = month_index(doy);
    let d = doy - (153 * mp + 2) / 5 + 1;
    let m = if mp < 10 {
        mp + 3
    } else {
        mp - 9
    };
    let y = yoe + if m <= 2 {
        1int
    } else {
        0int
    };
    lemma_leap_count(yoe as u32);
    lemma_fundamental_div_mod(5 * doy + 2, 153);
    assert(doe == 365 * yoe + yoe / 4 - yoe / 100 + doy);
    if doy == 365 {
        lemma_last_day_of_era_year(doe, yoe as u32);
    }
    if mp == 0 {
        assert((153 * mp + 2) / 5 == 0);
    } else if mp == 1 {
        assert((153 * mp + 2) / 5 == 31);
    } else if mp == 2 {
        assert((153 * mp + 2) / 5 == 61);
    } else if mp == 3 {
        assert((153 * mp + 2) / 5 == 92);
    } else if mp == 4 {
        assert((153 * mp + 2) / 5 == 122);
    } else if mp == 5 {
        assert((153 * mp + 2) / 5 == 153);
    } else if mp == 6 {
        assert((153 * mp + 2) / 5 == 184);
    } else if mp == 7 {
        assert((153 * mp + 2) / 5 == 214);
    } else if mp == 8 {
        assert((153 * mp + 2) / 5 == 245);
    } else if mp == 9 {
        assert((153 * mp + 2) / 5 == 275);
    } else if mp == 10 {
        assert((153 * mp + 2) / 5 == 306);
    } else {
        assert((153 * mp + 2) / 5 == 337);
    }
}

proof fn lemma_div_shift(x: int, d: int, k: int)
    requires
        d > 0,
    ensures
        (x + k * d) / d == x / d + k,
        (x + k * d) % d == x % d,
{
    lemma_fundamental_div_mod(x, d);
    assert(x + k * d == (x / d + k) * d + x % d) by (nonlinear_arith)
        requires
            x == d * (x / d) + x % d,
    ;
    lemma_fundamental_div_mod_converse(x + k * d, d, x / d + k, x % d);
}

proof fn lemma_era_shift(y: int, e: int)
    ensures
        leap_years_before(y + 400 * e) == leap_years_before(y) + 97 * e,
        is_leap_year(y + 400 * e) == is_leap_year(y),
        days_in_month(y + 400 * e, 2) == days_in_month(y, 2),
{
    lemma_div_shift(y + 3, 4, 100 * e);
    lemma_div_shift(y + 99, 100, 4 * e);
    lemma_div_shift(y + 399, 400, e);
    lemma_div_shift(y, 4, 100 * e);
    lemma_div_shift(y, 100, 4 * e);
    lemma_div_shift(y, 400, e);
}

/// `civil_from_days` gives the calendar date: the month and day are valid in
/// the proleptic Gregorian calendar, and that date is `days` days after
/// 1970-01-01.
pub proof fn lemma_civil_from_days(days: int)
    ensures
        ({
            let (y, m, d) = civil_from_days_model(days);
            &&& 1 <= m <= 12
            &&& 1 <= d <= days_in_month(y, m)
            &&& days_from_civil(y, m, d) == days
        }),
{
    let z = days + 719468;
    let era = z / 146097;
    let doe = z - era * 146097;
    lemma_fundamental_div_mod(z, 146097);
    assert(0 <= doe < 146097);
    lemma_era_day_ranges(doe as u32);
    lemma_date_in_era(doe as u32);
    let yoe = year_of_era(doe);
    let doy = day_of_year(doe);
    let mp = month_index(doy);
    let m = if mp < 10 {
        mp + 3
    } else {
        mp - 9
    };
    let y0 = yoe + if m <= 2 {
        1int
    } else {
        0int
    };
    lemma_era_shift(y0, era);
    let (y, mm, dd) = civil_from_days_model(days);
    assert(y == y0 + 400 * era);
    assert(days_before_month(y, m) == days_before_month(y0, m));
    assert(days_in_month(y, m) == days_in_month(y0, m));
}

/// A valid date of the proleptic Gregorian calendar.
pub open spec fn is_valid_date(y: int, m: int, d: int) -> bool {
    1 <= m <= 12 && 1 <= d <= days_in_month(y, m)
}

/// The calendar day after `(y, m, d)`.
pub open spec fn next_day(y: int, m: int, d: int) -> (int, int, int) {
    if d < days_in_month(y, m) {
        (y, m, d + 1)
    } else if m < 12 {
        (y, m + 1, 1)
    } else {
        (y + 1, 1, 1)
    }
}

/// Days of year `y`.
pub open spec fn days_in_year(y: int) -> int {
    if is_leap_year(y) {
        366
    } else {
        365
    }
}

/// The day number of January 1 of year `y`, counted from 1970-01-01.
pub open spec fn year_start(y: int) -> int {
    days_from_civil(y, 1, 1)
}

proof fn lemma_year_step(y: int)
    ensures
        year_start(y + 1) == year_start(y) + days_in_year(y),
{
    assert((y + 4) / 4 == (y + 3) / 4 + if y % 4 == 0 {
        1int
    } else {
        0int
    });
    assert((y + 100) / 100 == (y + 99) / 100 + if y % 100 == 0 {
        1int
    } else {
        0int
    });
    assert((y + 400) / 400 == (y + 399) / 400 + if y % 400 == 0 {
        1int
    } else {
        0int
    });
    assert(y % 400 == 0 ==> y % 100 == 0);
    assert(y % 100 == 0 ==> y % 4 == 0);
}

/// Years start in order: a later year starts at least a year's days later.
proof fn lemma_year_start_ordered(y1: int, y2: int)
    requires
        y1 < y2,
    ensures
        year_start(y1) + days_in_year(y1) <= year_start(y2),
    decreases y2 - y1,
{
    lemma_year_step(y1);
    if y1 + 1 < y2 {
        lemma_year_start_ordered(y1 + 1, y2);
    }
}

/// A valid date lies within its year.
proof fn lemma_date_in_year(y: int, m: int, d: int)
    requires
        is_valid_date(y, m, d),
    ensures
        year_start(y) <= days_from_civil(y, m, d) < year_start(y) + days_in_year(y),
{
}

/// Two valid dates with the same day number are the same date.
proof fn lemma_days_from_civil_injective(y1: int, m1: int, d1: int, y2: int, m2: int, d2: int)
    requires
        is_valid_date(y1, m1, d1),
        is_valid_date(y2, m2, d2),
        days_from_civil(y1, m1, d1) == days_from_civil(y2, m2, d2),
    ensures
        y1 == y2 && m1 == m2 && d1 == d2,
{
    lemma_date_in_year(y1, m1, d1);
    lemma_date_in_year(y2, m2, d2);
    if y1 < y2 {
        lemma_year_start_ordered(y1, y2);
    } else if y2 < y1 {
        lemma_year_start_ordered(y2, y1);
    }
    assert(y1 == y2);
}

/// The day after a valid date is valid and has the next day number.
proof fn lemma_next_day(y: int, m: int, d: int)
    requires
        is_valid_date(y, m, d),
    ensures
        ({
            let (y2, m2, d2) = next_day(y, m, d);
            is_valid_date(y2, m2, d2) && days_from_civil(y2, m2, d2) == days_from_civil(y, m, d)
                + 1
        }),
{
    if d == days_in_month(y, m) && m == 12 {
        lemma_year_step(y);
    }
}

/// `civil_from_days` steps through the calendar one day at a time: the date
/// of `days + 1` is the day after the date of `days`.
pub proof fn lemma_civil_from_days_next_day(days: int)
    ensures
        ({
            let (y, m, d) = civil_from_days_model(days);
            civil_from_days_model(days + 1) == next_day(y, m, d)
        }),
{
    lemma_civil_from_days(days);
    lemma_civil_from_days(days + 1);
    let (y, m, d) = civil_from_days_model(days);
    let (y1, m1, d1) = civil_from_days_model(days + 1);
    lemma_next_day(y, m, d);
    let (y2, m2, d2) = next_day(y, m, d);
    lemma_days_from_civil_injective(y1, m1, d1, y2, m2, d2);
}

/// The unit words of an interval agree with their counts: a whole number of
/// years, a number of months under a year, or a number of days is written as
/// its count and the unit word, singular exactly when the count is 1 or -1.
pub proof fn lemma_interval_unit_words(c: int)
    requires
        c != 0,
    ensures
        interval_text(12 * c, 0, 0) == signed_decimal(c) + if c == 1 || c == -1 {
            " year"@
        } else {
            " years"@
        },
        -12 < c < 12 ==> interval_text(c, 0, 0) == signed_decimal(c) + if c == 1 || c == -1 {
            " month"@
        } else {
            " months"@
        },
        interval_text(0, c, 0) == signed_decimal(c) + if c == 1 || c == -1 {
            " day"@
        } else {
            " days"@
        },
{
    reveal_strlit("year");
    reveal_strlit(" year");
    reveal_strlit(" years");
    reveal_strlit("month");
    reveal_strlit(" month");
    reveal_strlit(" months");
    reveal_strlit("day");
    reveal_strlit(" day");
    reveal_strlit(" days");
    assert(trunc_div(12 * c, 12) == c);
    assert(trunc_rem(12 * c, 12) == 0);
    let y = interval_parts(12 * c, 0, 0);
    assert(y =~= seq![pluralize_text(c, "year"@)]);
    assert(pluralize_text(c, "year"@) =~= signed_decimal(c) + if c == 1 || c == -1 {
        " year"@
    } else {
        " years"@
    });
    if -12 < c < 12 {
        assert(trunc_div(c, 12) == 0);
        assert(trunc_rem(c, 12) == c);
        assert(interval_parts(c, 0, 0) =~= seq![pluralize_text(c, "month"@)]);
        assert(pluralize_text(c, "month"@) =~= signed_decimal(c) + if c == 1 || c == -1 {
            " month"@
        } else {
            " months"@
        });
    }
    assert(interval_parts(0, c, 0) =~= seq![pluralize_text(c, "day"@)]);
    assert(pluralize_text(c, "day"@) =~= signed_decimal(c) + if c == 1 || c == -1 {
        " day"@
    } else {
        " days"@
    });
}

} // verus!
