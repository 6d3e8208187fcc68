//! Sizes and times for people.

use chrono::{Local, TimeZone};
use vstd::prelude::*;
use crate::number::{decimal, decimal_of, digit, signed_decimal, signed_decimal_of};
use crate::text::opt_view;

verus! {

// ---- sizes -------------------------------------------------------------------------

/// `n / unit` rounded to the nearest whole number, and to the even one of two
/// that are equally near.
pub open spec fn rounded(n: int, unit: int) -> int {
    let q = n / unit;
    let r = n % unit;
    if 2 * r > unit || (2 * r == unit && q % 2 == 1) {
        q + 1
    } else {
        q
    }
}

/// The unit of `n` where it is kept in 53 bits: the smallest power of two, times
/// `unit`, of which `n` holds less than 2^53.
pub open spec fn grain(n: int, unit: int) -> int
    decreases n,
{
    if n < 0x20_0000_0000_0000 {
        unit
    } else {
        grain(n / 2, 2 * unit)
    }
}

/// `n` in 53 bits: sizes are divided as numbers of that precision.
pub open spec fn in_53_bits(n: int) -> int {
    rounded(n, grain(n, 1)) * grain(n, 1)
}

/// `n` in tenths of `unit`.
pub open spec fn tenths(n: int, unit: int) -> int {
    rounded(10 * in_53_bits(n), unit)
}

/// A number of tenths with its decimal point.
pub open spec fn with_point(t: int) -> Seq<char> {
    decimal((t / 10) as nat) + "."@ + seq![digit((t % 10) as nat)]
}

/// A size in bytes, kilobytes or megabytes, with one digit behind the point.
pub open spec fn size_text(n: int) -> Seq<char> {
    if n >= 1_048_576 {
        with_point(tenths(n, 1_048_576)) + "M"@
    } else if n >= 1024 {
        with_point(tenths(n, 1024)) + "K"@
    } else {
        signed_decimal(n) + "B"@
    }
}

/// `n / unit` rounded to the nearest whole number, and to the even one of two
/// that are equally near.
fn round(n: u128, unit: u128) -> (q: u128)
    requires
        unit > 0,
        n <= 0xffff_ffff_ffff_ffff_ffff,
    ensures
        q == rounded(n as int, unit as int),
        q <= n + 1,
{
    let q: u128 = n / unit;
    let r: u128 = n % unit;
    assert(q <= n) by (nonlinear_arith)
        requires
            q == n / unit,
            unit > 0,
    ;
    if r > unit - r || (r == unit - r && q % 2 == 1) {
        q + 1
    } else {
        q
    }
}

/// `n` in 53 bits.
fn narrow(n: u64) -> (r: u128)
    ensures
        r == in_53_bits(n as int),
        r <= 2 * n,
{
    let mut m: u64 = n;
    let mut unit: u64 = 1;
    while m >= 0x20_0000_0000_0000
        invariant
            grain(n as int, 1) == grain(m as int, unit as int),
            unit > 0,
            unit * m <= n,
        decreases m,
    {
        let half: u64 = m / 2;
        assert(2 * unit * half <= unit * m) by (nonlinear_arith)
            requires
                2 * half <= m,
                unit > 0,
        ;
        assert(2 * unit <= unit * m) by (nonlinear_arith)
            requires
                m >= 2,
                unit > 0,
        ;
        assert((2 * unit) * half == 2 * unit * half);
        m = half;
        unit = 2 * unit;
    }
    let q = round(n as u128, unit as u128);
    let ghost r = rounded(n as int, unit as int);
    assert(r * unit <= 2 * n && 0 <= r * unit) by {
        assert(n as int == unit * (n as int / unit as int) + n as int % unit as int)
            by (nonlinear_arith)
            requires
                unit > 0,
        ;
        let whole = n as int / unit as int;
        let rest = n as int % unit as int;
        assert(r == whole || (r == whole + 1 && 2 * rest >= unit));
        assert(whole >= 0) by (nonlinear_arith)
            requires
                whole == n as int / unit as int,
                unit > 0,
        ;
        assert(unit * whole >= 0) by (nonlinear_arith)
            requires
                whole >= 0,
                unit > 0,
        ;
        if r == whole {
            assert(whole * unit == unit * whole) by (nonlinear_arith);
            assert(rest >= 0) by (nonlinear_arith)
                requires
                    rest == n as int % unit as int,
                    unit > 0,
            ;
        } else {
            assert((whole + 1) * unit == unit * whole + unit) by (nonlinear_arith);
        }
    }
    q * unit as u128
}

/// A number of tenths with its decimal point.
fn point(t: u64) -> (s: String)
    ensures
        s@ == with_point(t as int),
{
    let mut s = decimal_of(t / 10);
    s.append(".");
    let d = decimal_of(t % 10);
    assert(decimal((t % 10) as nat) == seq![digit((t % 10) as nat)]);
    s.append(d.as_str());
    s
}

/// `n` in tenths of `unit`, with the decimal point.
fn in_tenths(n: u64, unit: u64) -> (s: String)
    requires
        unit >= 1024,
    ensures
        s@ == with_point(tenths(n as int, unit as int)),
{
    let m = narrow(n);
    let t = round(10 * m, unit as u128);
    assert(t <= 0xffff_ffff_ffff_ffff) by {
        let q = (10 * m) / unit as int;
        assert(q <= (10 * m) / 1024) by (nonlinear_arith)
            requires
                q == (10 * m) / unit as int,
                unit >= 1024,
                m >= 0,
        ;
        assert(t <= q + 1);
    }
    point(t as u64)
}

/// A size for people: `512B`, `1.5K`, `3.2M`.
pub fn human_size(n: i64) -> (s: String)
    ensures
        s@ == size_text(n as int),
{
    if n >= 1_048_576 {
        let mut s = in_tenths(n as u64, 1_048_576);
        s.append("M");
        s
    } else if n >= 1024 {
        let mut s = in_tenths(n as u64, 1024);
        s.append("K");
        s
    } else {
        let mut s = signed_decimal_of(n);
        s.append("B");
        s
    }
}

/// Where 53 bits hold a size, the text is that of the size itself, rounded to
/// tenths.
pub proof fn small_sizes_are_exact(n: int)
    requires
        0 <= n < 0x20_0000_0000_0000,
    ensures
        in_53_bits(n) == n,
{
    assert(n / 1 == n && n % 1 == 0);
}

// ---- times -------------------------------------------------------------------------

/// The whole seconds of `ns` nanoseconds, towards zero.
pub open spec fn whole_seconds(ns: int) -> int {
    if ns >= 0 {
        ns / 1_000_000_000
    } else {
        -((-ns) / 1_000_000_000)
    }
}

/// The whole seconds of `ns` nanoseconds, towards zero.
pub fn seconds_of(ns: i64) -> (secs: i64)
    ensures
        secs == whole_seconds(ns as int),
        -9_223_372_037 < secs < 9_223_372_037,
{
    let wide: i128 = ns as i128;
    if wide >= 0 {
        (wide / 1_000_000_000) as i64
    } else {
        -((-wide) / 1_000_000_000) as i64
    }
}

/// Whether `s` has the form `YYYY-MM-DD HH:MM:SS`.
pub open spec fn time_shaped(s: Seq<char>) -> bool {
    &&& s.len() == 19
    &&& forall|i: int|
        0 <= i < 19 ==> if i == 4 || i == 7 {
            #[trigger] s[i] == '-'
        } else if i == 10 {
            s[i] == ' '
        } else if i == 13 || i == 16 {
            s[i] == ':'
        } else {
            '0' <= s[i] <= '9'
        }
}

/// The number that the `n` characters of `s` from `i` on write in decimal.
pub open spec fn number_at(s: Seq<char>, i: int, n: int) -> int
    decreases n,
{
    if n <= 0 {
        0
    } else {
        10 * number_at(s, i, n - 1) + (s[i + n - 1] as int - '0' as int)
    }
}

/// The days from the start of 1970 to a date of the Gregorian calendar. Years are
/// counted from March, so that the day that leap years have more is their last.
pub open spec fn days_to(year: int, month: int, day: int) -> int {
    let y = if month <= 2 {
        year - 1
    } else {
        year
    };
    let m = if month <= 2 {
        month + 9
    } else {
        month - 3
    };
    365 * y + y / 4 - y / 100 + y / 400 + (153 * m + 2) / 5 + day - 1 - 719_468
}

/// The seconds from the start of 1970 to the time that `s` writes in the form
/// `YYYY-MM-DD HH:MM:SS`, were it the time in UTC.
pub open spec fn civil_seconds(s: Seq<char>) -> int {
    days_to(number_at(s, 0, 4), number_at(s, 5, 2), number_at(s, 8, 2)) * 86_400 + number_at(
        s,
        11,
        2,
    ) * 3_600 + number_at(s, 14, 2) * 60 + number_at(s, 17, 2)
}

/// `TimeZone::timestamp_opt` on `chrono::Local`, in the form
/// `YYYY-MM-DD HH:MM:SS`. The seconds are those of nanoseconds in 64 bits: for
/// these there is always one time, in a year of four digits. It is the time in UTC
/// moved by the offset of the time zone, which is less than a day either way. Which
/// offset that is the machine decides, so that no more is claimed of it.
#[verifier::external_body]
fn local_time(secs: i64) -> (s: Option<String>)
    requires
        -9_223_372_037 < secs < 9_223_372_037,
    ensures
        s is Some,
        time_shaped(s->0@),
        -86_400 < civil_seconds(s->0@) - secs < 86_400,
{
    let t = Local.timestamp_opt(secs, 0).single()?;
    Some(t.format("%Y-%m-%d %H:%M:%S").to_string())
}

/// The text for a time of which the calendar made `local`.
pub open spec fn time_text(local: Option<Seq<char>>, secs: int) -> Seq<char> {
    match local {
        Some(s) => s,
        None => "@"@ + signed_decimal(secs),
    }
}

/// The text for a time of which the calendar made `local`.
pub fn time_or_seconds(local: Option<String>, secs: i64) -> (s: String)
    ensures
        s@ == time_text(opt_view(local), secs as int),
{
    match local {
        Some(s) => s,
        None => {
            let mut s = "@".to_owned();
            let d = signed_decimal_of(secs);
            s.append(d.as_str());
            s
        },
    }
}

/// A time stamp as the local time, in the form `YYYY-MM-DD HH:MM:SS`. How far it is
/// from the time in UTC the time zone of the machine decides: less than a day.
pub fn fmt_ts(ns: i64) -> (s: String)
    ensures
        time_shaped(s@),
        -86_400 < civil_seconds(s@) - whole_seconds(ns as int) < 86_400,
{
    let secs = seconds_of(ns);
    time_or_seconds(local_time(secs), secs)
}

} // verus!
