//! Naive wall-clock datetimes for archived photos.
//!
//! A photo timestamp carries no timezone: it is the instant the camera wrote,
//! split into calendar fields. This module defines the calendar (proleptic
//! Gregorian, years 0 through 9999), conversions between calendar fields and
//! seconds since the Unix epoch, and the parser for the `YYYY-MM-DD HH:MM:SS`
//! rendering that EXIF datetime tags use.
use vstd::prelude::*;

verus! {

/// A wall-clock datetime without a timezone.
#[derive(Clone, Copy, Debug, PartialEq, Eq, Structural)]
pub struct PhotoDateTime {
    pub year: u16,
    pub month: u8,
    pub day: u8,
    pub hour: u8,
    pub minute: u8,
    pub second: u8,
}

/// Seconds from year 0 (proleptic Gregorian) to the Unix epoch.
pub const YEAR0_TO_EPOCH_SECS: u64 = 62167219200;

/// Seconds from year 0 to the start of year 10000: the first instant this
/// calendar no longer represents.
pub const YEAR0_TO_YEAR10000_SECS: u64 = 315569520000;

/// Seconds from the Unix epoch to the start of year 10000: the first file
/// timestamp whose UTC rendering no longer fits four year digits.
pub const EPOCH_TO_YEAR10000_SECS: u64 = 253402300800;

pub open spec fn is_leap_year(y: int) -> bool {
    y % 4 == 0 && (y % 100 != 0 || y % 400 == 0)
}

pub open spec fn year_len(y: int) -> int {
    if is_leap_year(y) {
        366
    } else {
        365
    }
}

pub open spec fn days_in_month(y: int, m: int) -> int
    recommends
        1 <= m <= 12,
{
    if m == 2 {
        if is_leap_year(y) {
            29
        } else {
            28
        }
    } else if m == 4 || m == 6 || m == 9 || m == 11 {
        30
    } else {
        31
    }
}

/// Days from the start of year 0 to the start of year `y`.
pub open spec fn days_before_year(y: int) -> int
    decreases y,
{
    if y <= 0 {
        0
    } else {
        days_before_year(y - 1) + year_len(y - 1)
    }
}

/// Days from the start of year `y` to the start of its month `m`.
pub open spec fn days_before_month(y: int, m: int) -> int
    decreases m,
{
    if m <= 1 {
        0
    } else {
        days_before_month(y, m - 1) + days_in_month(y, m - 1)
    }
}

/// Days from the start of year 0 to the calendar day `y`-`m`-`d`.
pub open spec fn days_of_date(y: int, m: int, d: int) -> int {
    days_before_year(y) + days_before_month(y, m) + (d - 1)
}

/// Whether the fields of `dt` denote a real calendar instant of this
/// calendar's range.
pub open spec fn valid_dt(dt: PhotoDateTime) -> bool {
    &&& dt.year <= 9999
    &&& 1 <= dt.month <= 12
    &&& 1 <= dt.day <= days_in_month(dt.year as int, dt.month as int)
    &&& dt.hour < 24
    &&& dt.minute < 60
    &&& dt.second < 60
}

/// Seconds from the start of year 0 to `dt`.
pub open spec fn secs_of_dt(dt: PhotoDateTime) -> int {
    days_of_date(dt.year as int, dt.month as int, dt.day as int) * 86400 + dt.hour * 3600
        + dt.minute * 60 + dt.second
}

/// Seconds from the Unix epoch to `dt`; negative before 1970.
pub open spec fn epoch_secs_of_dt(dt: PhotoDateTime) -> int {
    secs_of_dt(dt) - YEAR0_TO_EPOCH_SECS
}

/// Leap years strictly before year `y` (year 0 itself is a leap year).
pub open spec fn leap_count_upto(y: int) -> int {
    if y <= 0 {
        0
    } else {
        1 + (y - 1) / 4 - (y - 1) / 100 + (y - 1) / 400
    }
}

proof fn lemma_div_step(n: int, d: int)
    requires
        n >= 1,
        d >= 1,
    ensures
        n / d - (n - 1) / d == if n % d == 0 {
            1int
        } else {
            0int
        },
{
    let q = n / d;
    let r = n % d;
    vstd::arithmetic::div_mod::lemma_fundamental_div_mod(n, d);
    if r == 0 {
        assert(n - 1 == (q - 1) * d + (d - 1)) by (nonlinear_arith)
            requires
                n == d * q,
        ;
        vstd::arithmetic::div_mod::lemma_fundamental_div_mod_converse(n - 1, d, q - 1, d - 1);
    } else {
        assert(n - 1 == q * d + (r - 1)) by (nonlinear_arith)
            requires
                n == d * q + r,
        ;
        vstd::arithmetic::div_mod::lemma_fundamental_div_mod_converse(n - 1, d, q, r - 1);
    }
}

proof fn lemma_mod_multiple(k: int, a: int, b: int)
    requires
        a >= 1,
        b >= 1,
    ensures
        (k * (a * b)) % a == 0,
{
    assert(k * (a * b) == (k * b) * a) by (nonlinear_arith);
    vstd::arithmetic::div_mod::lemma_mod_multiples_basic(k * b, a);
}

/// The recursive day count agrees with the closed leap-count form.
proof fn lemma_dby_closed(y: int)
    requires
        y >= 0,
    ensures
        days_before_year(y) == 365 * y + leap_count_upto(y),
    decreases y,
{
    if y == 0 {
    } else if y == 1 {
        assert(days_before_year(0) == 0);
        assert(days_before_year(1) == year_len(0));
        assert(year_len(0) == 366);
    } else {
        lemma_dby_closed(y - 1);
        let n = y - 1;
        lemma_div_step(n, 4);
        lemma_div_step(n, 100);
        lemma_div_step(n, 400);
        if n % 100 == 0 {
            vstd::arithmetic::div_mod::lemma_fundamental_div_mod(n, 100);
            lemma_mod_multiple(n / 100, 4, 25);
            assert(n == (n / 100) * (4 * 25)) by (nonlinear_arith)
                requires
                    n == 100 * (n / 100),
            ;
        }
        if n % 400 == 0 {
            vstd::arithmetic::div_mod::lemma_fundamental_div_mod(n, 400);
            lemma_mod_multiple(n / 400, 100, 4);
            assert(n == (n / 400) * (100 * 4)) by (nonlinear_arith)
                requires
                    n == 400 * (n / 400),
            ;
        }
    }
}

proof fn lemma_days_before_year_10000()
    ensures
        days_before_year(10000) == 3652425,
{
    lemma_dby_closed(10000);
}

/// The months of a year sum to its length.
proof fn lemma_year_month_sum(y: int)
    ensures
        days_before_month(y, 12) + days_in_month(y, 12) == year_len(y),
{
    assert(days_before_month(y, 1) == 0);
    assert(days_before_month(y, 2) == 31);
    assert(days_before_month(y, 3) == 31 + days_in_month(y, 2));
    assert(days_before_month(y, 4) == 62 + days_in_month(y, 2));
    assert(days_before_month(y, 5) == 92 + days_in_month(y, 2));
    assert(days_before_month(y, 6) == 123 + days_in_month(y, 2));
    assert(days_before_month(y, 7) == 153 + days_in_month(y, 2));
    assert(days_before_month(y, 8) == 184 + days_in_month(y, 2));
    assert(days_before_month(y, 9) == 215 + days_in_month(y, 2));
    assert(days_before_month(y, 10) == 245 + days_in_month(y, 2));
    assert(days_before_month(y, 11) == 276 + days_in_month(y, 2));
    assert(days_before_month(y, 12) == 306 + days_in_month(y, 2));
}

pub fn is_leap_year_exec(y: u16) -> (r: bool)
    ensures
        r == is_leap_year(y as int),
{
    y % 4 == 0 && (y % 100 != 0 || y % 400 == 0)
}

pub fn year_len_exec(y: u16) -> (r: u16)
    ensures
        r == year_len(y as int),
{
    if is_leap_year_exec(y) {
        366
    } else {
        365
    }
}

pub fn days_in_month_exec(y: u16, m: u8) -> (r: u8)
    requires
        1 <= m <= 12,
    ensures
        r == days_in_month(y as int, m as int),
{
    if m == 2 {
        if is_leap_year_exec(y) {
            29
        } else {
            28
        }
    } else if m == 4 || m == 6 || m == 9 || m == 11 {
        30
    } else {
        31
    }
}

/// The year reached from year `y` after advancing `rem` days, together with
/// the days left over; stops at year 9999.
pub open spec fn year_cursor(y: int, rem: int) -> (int, int)
    decreases 9999 - y,
    when y <= 9999
{
    if y < 9999 && rem >= year_len(y) {
        year_cursor(y + 1, rem - year_len(y))
    } else {
        (y, rem)
    }
}

/// The month reached from month `m` of year `y` after advancing `rem` days,
/// together with the days left over; stops at December.
pub open spec fn month_cursor(y: int, m: int, rem: int) -> (int, int)
    decreases 12 - m,
    when m <= 12
{
    if m < 12 && rem >= days_in_month(y, m) {
        month_cursor(y, m + 1, rem - days_in_month(y, m))
    } else {
        (m, rem)
    }
}

/// The datetime `secs` seconds after the start of year 0.
pub open spec fn dt_of_total_secs(secs: int) -> PhotoDateTime {
    let days = secs / 86400;
    let tod = secs % 86400;
    let (y, yrem) = year_cursor(0, days);
    let (m, mrem) = month_cursor(y, 1, yrem);
    PhotoDateTime {
        year: y as u16,
        month: m as u8,
        day: (mrem + 1) as u8,
        hour: (tod / 3600) as u8,
        minute: (tod / 60 % 60) as u8,
        second: (tod % 60) as u8,
    }
}

/// Splits seconds from year 0 into calendar fields.
///
/// The result is the unique valid datetime whose distance from year 0 is
/// `total` seconds.
pub fn dt_from_total_secs(total: u64) -> (r: PhotoDateTime)
    requires
        total < YEAR0_TO_YEAR10000_SECS,
    ensures
        r == dt_of_total_secs(total as int),
        valid_dt(r),
        secs_of_dt(r) == total,
{
    proof {
        lemma_days_before_year_10000();
    }
    let days: u64 = total / 86400;
    let tod: u64 = total % 86400;
    assert(days < 3652425);
    assert(total == days * 86400 + tod && tod < 86400) by (nonlinear_arith)
        requires
            days == total / 86400,
            tod == total % 86400,
            total < 315569520000u64,
    ;

    let mut y: u16 = 0;
    let mut yrem: u64 = days;
    while y < 9999 && yrem >= year_len_exec(y) as u64
        invariant
            y <= 9999,
            days < 3652425,
            days_before_year(y as int) + yrem == days,
            year_cursor(y as int, yrem as int) == year_cursor(0, days as int),
        decreases yrem,
    {
        yrem = yrem - year_len_exec(y) as u64;
        y = y + 1;
    }
    proof {
        if y == 9999 && yrem >= year_len(9999) {
            assert(days_before_year(10000) == days_before_year(9999) + year_len(9999));
            assert(false);
        }
        assert(year_cursor(y as int, yrem as int) == (y as int, yrem as int));
    }
    assert(yrem < year_len(y as int));

    let mut m: u8 = 1;
    let mut mrem: u16 = yrem as u16;
    while m < 12 && mrem >= days_in_month_exec(y, m) as u16
        invariant
            1 <= m <= 12,
            y <= 9999,
            days_before_month(y as int, m as int) + mrem == yrem,
            yrem < year_len(y as int),
            yrem == days - days_before_year(y as int),
            days_before_year(y as int) + yrem == days,
            month_cursor(y as int, m as int, mrem as int) == month_cursor(
                y as int,
                1,
                yrem as int,
            ),
        decreases mrem,
    {
        mrem = mrem - days_in_month_exec(y, m) as u16;
        m = m + 1;
    }
    proof {
        if m == 12 && mrem >= days_in_month(y as int, 12) {
            lemma_year_month_sum(y as int);
            assert(false);
        }
        assert(month_cursor(y as int, m as int, mrem as int) == (m as int, mrem as int));
    }
    assert(mrem < days_in_month(y as int, m as int));

    let d: u8 = (mrem + 1) as u8;
    let hour: u8 = (tod / 3600) as u8;
    let minute: u8 = (tod / 60 % 60) as u8;
    let second: u8 = (tod % 60) as u8;
    let r = PhotoDateTime { year: y, month: m, day: d, hour, minute, second };
    proof {
        assert(tod == 3600 * (tod as int / 3600) + 60 * (tod as int / 60 % 60) + tod as int % 60
            && tod as int / 3600 < 24 && tod as int / 60 % 60 < 60 && tod as int % 60 < 60)
            by (nonlinear_arith)
            requires
                tod < 86400,
        ;
        assert(days_of_date(y as int, m as int, d as int) == days);
        assert(secs_of_dt(r) == days * 86400 + tod as int / 3600 * 3600 + tod as int / 60 % 60 * 60
            + tod as int % 60);
        assert(secs_of_dt(r) == total);
    }
    r
}

/// The datetime `fts` seconds after the Unix epoch, in UTC.
pub fn dt_from_unix_secs(fts: u64) -> (r: PhotoDateTime)
    requires
        fts < EPOCH_TO_YEAR10000_SECS,
    ensures
        r == dt_of_total_secs(fts + YEAR0_TO_EPOCH_SECS),
        valid_dt(r),
        epoch_secs_of_dt(r) == fts,
{
    dt_from_total_secs(fts + YEAR0_TO_EPOCH_SECS)
}

/// Seconds from the Unix epoch to `dt`; negative for datetimes before 1970.
pub fn epoch_secs_exec(dt: &PhotoDateTime) -> (r: i64)
    requires
        valid_dt(*dt),
    ensures
        r == epoch_secs_of_dt(*dt),
{
    let mut acc: u32 = 0;
    let mut y: u16 = 0;
    while y < dt.year
        invariant
            y <= dt.year,
            dt.year <= 9999,
            acc == days_before_year(y as int),
            acc <= 366 * (y as int),
        decreases dt.year - y,
    {
        acc = acc + year_len_exec(y) as u32;
        y = y + 1;
    }
    let mut m: u8 = 1;
    while m < dt.month
        invariant
            1 <= m <= dt.month,
            valid_dt(*dt),
            acc == days_before_year(dt.year as int) + days_before_month(dt.year as int, m as int),
            acc <= 366 * (dt.year as int) + 31 * (m as int),
        decreases dt.month - m,
    {
        acc = acc + days_in_month_exec(dt.year, m) as u32;
        m = m + 1;
    }
    let days: u64 = acc as u64 + (dt.day - 1) as u64;
    let total: u64 = days * 86400 + dt.hour as u64 * 3600 + dt.minute as u64 * 60
        + dt.second as u64;
    assert(total == secs_of_dt(*dt));
    total as i64 - YEAR0_TO_EPOCH_SECS as i64
}

/// The epoch-seconds value `ts` as calendar fields, when it falls inside
/// this calendar's range (years 0 through 9999); `None` outside it.
pub fn dt_from_epoch_opt(ts: i64) -> (r: Option<PhotoDateTime>)
    ensures
        match r {
            Some(dt) => {
                &&& -(YEAR0_TO_EPOCH_SECS as int) <= ts
                &&& (ts as int) < EPOCH_TO_YEAR10000_SECS as int
                &&& dt == dt_of_total_secs(ts + YEAR0_TO_EPOCH_SECS)
                &&& valid_dt(dt)
                &&& epoch_secs_of_dt(dt) == ts
            },
            None => ts < -(YEAR0_TO_EPOCH_SECS as int) || ts as int
                >= EPOCH_TO_YEAR10000_SECS as int,
        },
{
    if ts < -(YEAR0_TO_EPOCH_SECS as i64) || ts >= EPOCH_TO_YEAR10000_SECS as i64 {
        return None;
    }
    let total: u64 = (ts + YEAR0_TO_EPOCH_SECS as i64) as u64;
    let dt = dt_from_total_secs(total);
    Some(dt)
}

/// Whether `c` is a decimal digit character.
pub open spec fn is_digit_char(c: char) -> bool {
    c == '0' || c == '1' || c == '2' || c == '3' || c == '4' || c == '5' || c == '6' || c == '7'
        || c == '8' || c == '9'
}

/// The value of a decimal digit character.
pub open spec fn digit_val(c: char) -> int
    recommends
        is_digit_char(c),
{
    if c == '0' {
        0
    } else if c == '1' {
        1
    } else if c == '2' {
        2
    } else if c == '3' {
        3
    } else if c == '4' {
        4
    } else if c == '5' {
        5
    } else if c == '6' {
        6
    } else if c == '7' {
        7
    } else if c == '8' {
        8
    } else {
        9
    }
}

/// The two-digit decimal value at position `i` of `s`.
pub open spec fn two_digit_val(s: Seq<char>, i: int) -> int {
    digit_val(s[i]) * 10 + digit_val(s[i + 1])
}

/// Whether `s` is a `YYYY-MM-DD HH:MM:SS` rendering of a valid datetime.
pub open spec fn is_exif_dt_chars(s: Seq<char>) -> bool {
    &&& s.len() == 19
    &&& is_digit_char(s[0]) && is_digit_char(s[1]) && is_digit_char(s[2]) && is_digit_char(s[3])
    &&& s[4] == '-'
    &&& is_digit_char(s[5]) && is_digit_char(s[6])
    &&& s[7] == '-'
    &&& is_digit_char(s[8]) && is_digit_char(s[9])
    &&& s[10] == ' '
    &&& is_digit_char(s[11]) && is_digit_char(s[12])
    &&& s[13] == ':'
    &&& is_digit_char(s[14]) && is_digit_char(s[15])
    &&& s[16] == ':'
    &&& is_digit_char(s[17]) && is_digit_char(s[18])
    &&& valid_dt(exif_dt_chars_value(s))
}

/// The datetime denoted by a `YYYY-MM-DD HH:MM:SS` rendering.
pub open spec fn exif_dt_chars_value(s: Seq<char>) -> PhotoDateTime {
    PhotoDateTime {
        year: (two_digit_val(s, 0) * 100 + two_digit_val(s, 2)) as u16,
        month: two_digit_val(s, 5) as u8,
        day: two_digit_val(s, 8) as u8,
        hour: two_digit_val(s, 11) as u8,
        minute: two_digit_val(s, 14) as u8,
        second: two_digit_val(s, 17) as u8,
    }
}

fn digit_val_exec(c: char) -> (r: Option<u8>)
    ensures
        match r {
            Some(d) => is_digit_char(c) && d == digit_val(c) && d < 10,
            None => !is_digit_char(c),
        },
{
    match c {
        '0' => Some(0),
        '1' => Some(1),
        '2' => Some(2),
        '3' => Some(3),
        '4' => Some(4),
        '5' => Some(5),
        '6' => Some(6),
        '7' => Some(7),
        '8' => Some(8),
        '9' => Some(9),
        _ => None,
    }
}

fn two_digit_exec(s: &str, i: usize) -> (r: Option<u8>)
    requires
        i <= 17,
        i + 2 <= s@.len(),
    ensures
        match r {
            Some(v) => is_digit_char(s@[i as int]) && is_digit_char(s@[i + 1]) && v
                == two_digit_val(s@, i as int) && v < 100,
            None => !(is_digit_char(s@[i as int]) && is_digit_char(s@[i + 1])),
        },
{
    let hi = digit_val_exec(s.get_char(i));
    let lo = digit_val_exec(s.get_char(i + 1));
    match (hi, lo) {
        (Some(h), Some(l)) => Some(h * 10 + l),
        _ => None,
    }
}

/// Parses the `YYYY-MM-DD HH:MM:SS` rendering that EXIF datetime tags use.
///
/// Returns the denoted datetime exactly when `s` has that shape and denotes
/// a real calendar instant.
pub fn parse_exif_datetime(s: &str) -> (r: Option<PhotoDateTime>)
    ensures
        match r {
            Some(dt) => is_exif_dt_chars(s@) && dt == exif_dt_chars_value(s@),
            None => !is_exif_dt_chars(s@),
        },
{
    if s.unicode_len() != 19 {
        return None;
    }
    if s.get_char(4) != '-' || s.get_char(7) != '-' || s.get_char(10) != ' ' || s.get_char(13)
        != ':' || s.get_char(16) != ':' {
        return None;
    }
    let y_hi = two_digit_exec(s, 0);
    let y_lo = two_digit_exec(s, 2);
    let mo = two_digit_exec(s, 5);
    let da = two_digit_exec(s, 8);
    let ho = two_digit_exec(s, 11);
    let mi = two_digit_exec(s, 14);
    let se = two_digit_exec(s, 17);
    match (y_hi, y_lo, mo, da, ho, mi, se) {
        (Some(yh), Some(yl), Some(mo), Some(da), Some(ho), Some(mi), Some(se)) => {
            let year: u16 = yh as u16 * 100 + yl as u16;
            let dt = PhotoDateTime { year, month: mo, day: da, hour: ho, minute: mi, second: se };
            if mo < 1 || mo > 12 {
                return None;
            }
            if da < 1 || da > days_in_month_exec(year, mo) {
                return None;
            }
            if ho >= 24 || mi >= 60 || se >= 60 {
                return None;
            }
            Some(dt)
        },
        _ => None,
    }
}

} // verus!
