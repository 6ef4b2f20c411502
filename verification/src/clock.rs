//! SQLite-style timestamps ("YYYY-MM-DD HH:MM:SS", UTC) computed from the
//! number of seconds since the Unix epoch, with the proleptic Gregorian
//! calendar.
use vstd::prelude::*;
use vstd::string::StringExecFns;

use crate::text::{
    decimal, lemma_padded_len, lemma_padded_ordered, lemma_text_before_common,
    lemma_text_before_extend, pow10, push_char, push_decimal_padded, text_before, zero_padded,
};

verus! {

// ----------------------------------------------------------------------
// The calendar
// ----------------------------------------------------------------------

/// Gregorian leap-year rule.
pub open spec fn is_leap_year(y: int) -> bool {
    (y % 4 == 0 && y % 100 != 0) || y % 400 == 0
}

/// Number of days in year `y`.
pub open spec fn year_length(y: int) -> int {
    if is_leap_year(y) {
        366
    } else {
        365
    }
}

/// Number of days in month `m` (1 to 12) of year `y`.
pub open spec fn month_length(y: int, m: int) -> int {
    if m == 2 {
        if is_leap_year(y) {
            29
        } else {
            28
        }
    } else if m == 4 || m == 6 || m == 9 || m == 11 {
        30
    } else {
        31
    }
}

/// Days from 1970-01-01 to the first day of year `y`.
pub open spec fn days_before_year(y: int) -> int
    decreases y - 1970,
{
    if y <= 1970 {
        0
    } else {
        days_before_year(y - 1) + year_length(y - 1)
    }
}

/// Days from the first day of year `y` to the first day of month `m`.
pub open spec fn days_before_month(y: int, m: int) -> int
    decreases m,
{
    if m <= 1 {
        0
    } else {
        days_before_month(y, m - 1) + month_length(y, m - 1)
    }
}

/// `y-m-d` is a valid date from 1970 on, and it is `days` days after
/// 1970-01-01.
pub open spec fn is_date_of_day(days: int, y: int, m: int, d: int) -> bool {
    &&& y >= 1970
    &&& 1 <= m <= 12
    &&& 1 <= d <= month_length(y, m)
    &&& days_before_year(y) + days_before_month(y, m) + d - 1 == days
}

/// `YYYY-MM-DD HH:MM:SS`, each field zero-padded to its width (wider
/// numbers are written in full).
pub open spec fn datetime_text(y: nat, m: nat, d: nat, hh: nat, mm: nat, ss: nat) -> Seq<char> {
    zero_padded(decimal(y), 4) + seq!['-'] + zero_padded(decimal(m), 2) + seq!['-']
        + zero_padded(decimal(d), 2) + seq![' '] + zero_padded(decimal(hh), 2) + seq![':']
        + zero_padded(decimal(mm), 2) + seq![':'] + zero_padded(decimal(ss), 2)
}

/// `t` is the timestamp of day `days` at `hh:mm:ss`.
pub open spec fn is_datetime_text(days: nat, hh: nat, mm: nat, ss: nat, t: Seq<char>) -> bool {
    exists|y: nat, m: nat, d: nat|
        is_date_of_day(days as int, y as int, m as int, d as int) && t == datetime_text(
            y,
            m,
            d,
            hh,
            mm,
            ss,
        )
}

/// `t` is the timestamp of the moment `secs` seconds after the epoch.
pub open spec fn is_unix_datetime_text(secs: nat, t: Seq<char>) -> bool {
    let rest = secs % 86400;
    is_datetime_text(secs / 86400, rest / 3600, (rest % 3600) / 60, rest % 60, t)
}

proof fn lemma_year_is_months(y: int)
    ensures
        days_before_month(y, 13) == year_length(y),
{
    reveal_with_fuel(days_before_month, 13);
}

/// Gregorian leap-year rule.
pub fn is_leap(y: i64) -> (r: bool)
    ensures
        r == is_leap_year(y as int),
{
    (y % 4 == 0 && y % 100 != 0) || y % 400 == 0
}

fn year_len(y: u64) -> (n: u64)
    ensures
        n == year_length(y as int),
{
    if (y % 4 == 0 && y % 100 != 0) || y % 400 == 0 {
        366
    } else {
        365
    }
}

fn month_len(y: u64, m: u64) -> (n: u64)
    ensures
        n == month_length(y as int, m as int),
{
    if m == 2 {
        if (y % 4 == 0 && y % 100 != 0) || y % 400 == 0 {
            29
        } else {
            28
        }
    } else if m == 4 || m == 6 || m == 9 || m == 11 {
        30
    } else {
        31
    }
}

/// Formats day number `days` after 1970-01-01 and the time of day as
/// `YYYY-MM-DD HH:MM:SS`.
pub fn format_iso(days: u64, hours: u64, mins: u64, secs: u64) -> (r: String)
    ensures
        is_datetime_text(days as nat, hours as nat, mins as nat, secs as nat, r@),
{
    let mut y: u64 = 1970;
    let mut remaining: u64 = days;
    loop
        invariant
            1970 <= y,
            (y - 1970) * 365 + remaining <= days,
            remaining <= days,
            remaining + days_before_year(y as int) == days,
        ensures
            remaining < year_length(y as int),
            1970 <= y,
            remaining + days_before_year(y as int) == days,
        decreases remaining,
    {
        let len = year_len(y);
        if remaining < len {
            break ;
        }
        remaining = remaining - len;
        y = y + 1;
    }
    let mut m: u64 = 1;
    proof {
        lemma_year_is_months(y as int);
    }
    while remaining >= month_len(y, m)
        invariant
            1 <= m <= 12,
            1970 <= y,
            remaining + days_before_year(y as int) + days_before_month(y as int, m as int) == days,
            remaining + days_before_month(y as int, m as int) < year_length(y as int),
            days_before_month(y as int, 13) == year_length(y as int),
        decreases 12 - m,
    {
        remaining = remaining - month_len(y, m);
        m = m + 1;
        if m > 12 {
            assert(false);
        }
    }
    let d = remaining + 1;
    let mut out = String::new();
    push_decimal_padded(&mut out, y, 4);
    push_char(&mut out, '-');
    push_decimal_padded(&mut out, m, 2);
    push_char(&mut out, '-');
    push_decimal_padded(&mut out, d, 2);
    push_char(&mut out, ' ');
    push_decimal_padded(&mut out, hours, 2);
    push_char(&mut out, ':');
    push_decimal_padded(&mut out, mins, 2);
    push_char(&mut out, ':');
    push_decimal_padded(&mut out, secs, 2);
    assert(is_date_of_day(days as int, y as int, m as int, d as int));
    assert(out@ =~= datetime_text(y as nat, m as nat, d as nat, hours as nat, mins as nat, secs as nat));
    out
}

/// The timestamp of the moment `secs` seconds after the Unix epoch.
pub fn format_unix_seconds(secs: u64) -> (r: String)
    ensures
        is_unix_datetime_text(secs as nat, r@),
{
    let days = secs / 86400;
    let time_secs = secs % 86400;
    let hours = time_secs / 3600;
    let mins = (time_secs % 3600) / 60;
    let s = time_secs % 60;
    format_iso(days, hours, mins, s)
}

/// Declares std's clock reading to Verus, as an opaque value.
#[verifier::external_type_specification]
#[verifier::external_body]
pub struct ExSystemTime(std::time::SystemTime);

/// Declares std's error for a clock reading earlier than a given time.
#[verifier::external_type_specification]
#[verifier::external_body]
pub struct ExSystemTimeError(std::time::SystemTimeError);

/// The system clock's current reading (`SystemTime::now`).  Nothing is
/// promised of it: it is the time.
#[verifier::external_body]
fn system_now() -> std::time::SystemTime {
    std::time::SystemTime::now()
}

/// How long after the Unix epoch the reading `t` is
/// (`SystemTime::duration_since(UNIX_EPOCH)`), or the error when `t` is
/// earlier.  Nothing is promised of which it is: that depends on the
/// reading, which is opaque here.
#[verifier::external_body]
fn since_epoch(t: &std::time::SystemTime) -> std::result::Result<
    core::time::Duration,
    std::time::SystemTimeError,
> {
    t.duration_since(std::time::UNIX_EPOCH)
}

/// The whole seconds of a duration (`Duration::as_secs`).  The duration is
/// opaque here, so nothing is promised of the number.
#[verifier::external_body]
fn whole_seconds(d: &core::time::Duration) -> u64 {
    d.as_secs()
}

/// Seconds since the Unix epoch according to the system clock, or `None`
/// when the clock reads earlier than the epoch.
fn system_unix_seconds() -> Option<u64> {
    match since_epoch(&system_now()) {
        Ok(d) => Some(whole_seconds(&d)),
        Err(_) => None,
    }
}

/// The timestamp of a clock reading: the moment `secs` seconds after the
/// epoch, or the epoch itself for a reading earlier than the epoch.
pub open spec fn is_reading_text(reading: Option<u64>, t: Seq<char>) -> bool {
    match reading {
        Some(secs) => is_unix_datetime_text(secs as nat, t),
        None => t == "1970-01-01 00:00:00"@,
    }
}

/// The timestamp of a clock reading (seconds since the epoch, or `None`
/// when the clock reads earlier than the epoch, which gives the epoch).
pub fn timestamp_text(reading: Option<u64>) -> (r: String)
    ensures
        is_reading_text(reading, r@),
{
    match reading {
        Some(secs) => format_unix_seconds(secs),
        None => String::from_str("1970-01-01 00:00:00"),
    }
}

/// The current UTC time as `YYYY-MM-DD HH:MM:SS`; the epoch itself when
/// the system clock reads earlier than the epoch.
pub fn chrono_now() -> (r: String)
    ensures
        exists|reading: Option<u64>| is_reading_text(reading, r@),
{
    timestamp_text(system_unix_seconds())
}

// ----------------------------------------------------------------------
// Laws of the timestamp text
// ----------------------------------------------------------------------

/// Leap years before year `y` counted from year 1.
spec fn leap_years_before(y: int) -> int {
    (y - 1) / 4 - (y - 1) / 100 + (y - 1) / 400
}

proof fn lemma_days_before_year_closed(y: int)
    requires
        y >= 1970,
    ensures
        days_before_year(y) == 365 * (y - 1970) + leap_years_before(y) - leap_years_before(1970),
    decreases y - 1970,
{
    if y > 1970 {
        lemma_days_before_year_closed(y - 1);
        let x = y - 1;
        assert(x / 4 - (x - 1) / 4 == (if x % 4 == 0 { 1int } else { 0int }));
        assert(x / 100 - (x - 1) / 100 == (if x % 100 == 0 { 1int } else { 0int }));
        assert(x / 400 - (x - 1) / 400 == (if x % 400 == 0 { 1int } else { 0int }));
    }
}

/// Day 2932897 after 1970-01-01 is the first day of year 10000.
pub proof fn lemma_first_day_of_year_10000()
    ensures
        days_before_year(10000) == 2932897,
{
    lemma_days_before_year_closed(10000);
    assert(leap_years_before(10000) == 2424);
    assert(leap_years_before(1970) == 477);
}

proof fn lemma_years_grow(y: int, y2: int)
    requires
        1970 <= y < y2,
    ensures
        days_before_year(y2) >= days_before_year(y) + year_length(y),
    decreases y2 - y,
{
    if y2 > y + 1 {
        lemma_years_grow(y, y2 - 1);
    }
}

proof fn lemma_months_grow(y: int, m: int, m2: int)
    requires
        1 <= m < m2,
    ensures
        days_before_month(y, m2) >= days_before_month(y, m) + month_length(y, m),
    decreases m2 - m,
{
    if m2 > m + 1 {
        lemma_months_grow(y, m, m2 - 1);
    }
}

proof fn lemma_months_nonneg(y: int, m: int)
    ensures
        days_before_month(y, m) >= 0,
    decreases m,
{
    if m > 1 {
        lemma_months_nonneg(y, m - 1);
    }
}

proof fn lemma_day_within_year(days: int, y: int, m: int, d: int)
    requires
        is_date_of_day(days, y, m, d),
    ensures
        days_before_year(y) <= days < days_before_year(y) + year_length(y),
{
    lemma_year_is_months(y);
    lemma_months_nonneg(y, m);
    if m < 13 {
        lemma_months_grow(y, m, 13);
    }
}

/// Later days have later dates: `(y, m, d)` grows in the order of year,
/// then month, then day.
proof fn lemma_dates_ordered(
    days1: int,
    y1: int,
    m1: int,
    d1: int,
    days2: int,
    y2: int,
    m2: int,
    d2: int,
)
    requires
        is_date_of_day(days1, y1, m1, d1),
        is_date_of_day(days2, y2, m2, d2),
        days1 < days2,
    ensures
        y1 < y2 || (y1 == y2 && (m1 < m2 || (m1 == m2 && d1 < d2))),
{
    lemma_day_within_year(days1, y1, m1, d1);
    lemma_day_within_year(days2, y2, m2, d2);
    if y1 > y2 {
        lemma_years_grow(y2, y1);
    }
    if y1 == y2 && m1 > m2 {
        lemma_months_grow(y1, m2, m1);
    }
}

proof fn lemma_year_below(days: int, y: int, m: int, d: int)
    requires
        is_date_of_day(days, y, m, d),
        days < days_before_year(10000),
    ensures
        y < 10000,
{
    lemma_day_within_year(days, y, m, d);
    if y > 10000 {
        lemma_years_grow(10000, y);
    }
}

proof fn lemma_field_widths(days: nat, y: nat, m: nat, d: nat, hh: nat, mm: nat, ss: nat)
    requires
        is_date_of_day(days as int, y as int, m as int, d as int),
        days < days_before_year(10000),
        hh < 100,
        mm < 100,
        ss < 100,
    ensures
        y < pow10(4),
        m < pow10(2),
        d < pow10(2),
        hh < pow10(2),
        mm < pow10(2),
        ss < pow10(2),
{
    lemma_year_below(days as int, y as int, m as int, d as int);
    reveal_with_fuel(pow10, 5);
}

/// A timestamp of a day before 2932897 (up to 9999-12-31) whose time
/// fields have at most two digits is nineteen characters long,
/// `YYYY-MM-DD HH:MM:SS`.
pub proof fn lemma_timestamp_length(days: nat, hh: nat, mm: nat, ss: nat, t: Seq<char>)
    requires
        is_datetime_text(days, hh, mm, ss, t),
        days < 2932897,
        hh < 100,
        mm < 100,
        ss < 100,
    ensures
        t.len() == 19,
{
    lemma_first_day_of_year_10000();
    let (y, m, d) = choose|y: nat, m: nat, d: nat|
        is_date_of_day(days as int, y as int, m as int, d as int) && t == datetime_text(
            y,
            m,
            d,
            hh,
            mm,
            ss,
        );
    lemma_field_widths(days, y, m, d, hh, mm, ss);
    lemma_padded_len(y, 4);
    lemma_padded_len(m, 2);
    lemma_padded_len(d, 2);
    lemma_padded_len(hh, 2);
    lemma_padded_len(mm, 2);
    lemma_padded_len(ss, 2);
}

/// The date part of a timestamp followed by the rest: `Y-M-D` then `rest`.
spec fn date_shape(py: Seq<char>, pm: Seq<char>, pd: Seq<char>, rest: Seq<char>) -> Seq<char> {
    py + seq!['-'] + pm + seq!['-'] + pd + rest
}

/// The time part of a timestamp: ` HH:MM:SS`.
spec fn time_shape(ph: Seq<char>, pm: Seq<char>, ps: Seq<char>) -> Seq<char> {
    seq![' '] + ph + seq![':'] + pm + seq![':'] + ps
}

proof fn lemma_concat_shape(
    a: Seq<char>,
    b: Seq<char>,
    c: Seq<char>,
    d: Seq<char>,
    e: Seq<char>,
    f: Seq<char>,
)
    ensures
        a + seq!['-'] + b + seq!['-'] + c + seq![' '] + d + seq![':'] + e + seq![':'] + f
            == date_shape(a, b, c, time_shape(d, e, f)),
{
    assert(a + seq!['-'] + b + seq!['-'] + c + seq![' '] + d + seq![':'] + e + seq![':'] + f
        =~= date_shape(a, b, c, time_shape(d, e, f)));
}

proof fn lemma_datetime_shape(y: nat, m: nat, d: nat, hh: nat, mm: nat, ss: nat)
    ensures
        datetime_text(y, m, d, hh, mm, ss) == date_shape(
            zero_padded(decimal(y), 4),
            zero_padded(decimal(m), 2),
            zero_padded(decimal(d), 2),
            time_shape(
                zero_padded(decimal(hh), 2),
                zero_padded(decimal(mm), 2),
                zero_padded(decimal(ss), 2),
            ),
        ),
{
    lemma_concat_shape(
        zero_padded(decimal(y), 4),
        zero_padded(decimal(m), 2),
        zero_padded(decimal(d), 2),
        zero_padded(decimal(hh), 2),
        zero_padded(decimal(mm), 2),
        zero_padded(decimal(ss), 2),
    );
}

proof fn lemma_year_decides(
    py1: Seq<char>,
    pm1: Seq<char>,
    pd1: Seq<char>,
    r1: Seq<char>,
    py2: Seq<char>,
    pm2: Seq<char>,
    pd2: Seq<char>,
    r2: Seq<char>,
)
    requires
        py1.len() == py2.len(),
        text_before(py1, py2),
    ensures
        text_before(date_shape(py1, pm1, pd1, r1), date_shape(py2, pm2, pd2, r2)),
{
    let x1 = seq!['-'] + pm1 + seq!['-'] + pd1 + r1;
    let x2 = seq!['-'] + pm2 + seq!['-'] + pd2 + r2;
    assert(date_shape(py1, pm1, pd1, r1) =~= py1 + x1);
    assert(date_shape(py2, pm2, pd2, r2) =~= py2 + x2);
    lemma_text_before_extend(py1, py2, x1, x2);
}

proof fn lemma_month_decides(
    py: Seq<char>,
    pm1: Seq<char>,
    pd1: Seq<char>,
    r1: Seq<char>,
    pm2: Seq<char>,
    pd2: Seq<char>,
    r2: Seq<char>,
)
    requires
        pm1.len() == pm2.len(),
        text_before(pm1, pm2),
    ensures
        text_before(date_shape(py, pm1, pd1, r1), date_shape(py, pm2, pd2, r2)),
{
    let head = py + seq!['-'];
    let x1 = seq!['-'] + pd1 + r1;
    let x2 = seq!['-'] + pd2 + r2;
    assert(date_shape(py, pm1, pd1, r1) =~= head + (pm1 + x1));
    assert(date_shape(py, pm2, pd2, r2) =~= head + (pm2 + x2));
    lemma_text_before_extend(pm1, pm2, x1, x2);
    lemma_text_before_common(head, pm1 + x1, pm2 + x2);
}

proof fn lemma_day_decides(
    py: Seq<char>,
    pm: Seq<char>,
    pd1: Seq<char>,
    r1: Seq<char>,
    pd2: Seq<char>,
    r2: Seq<char>,
)
    requires
        pd1.len() == pd2.len(),
        text_before(pd1, pd2),
    ensures
        text_before(date_shape(py, pm, pd1, r1), date_shape(py, pm, pd2, r2)),
{
    let head = py + seq!['-'] + pm + seq!['-'];
    assert(date_shape(py, pm, pd1, r1) =~= head + (pd1 + r1));
    assert(date_shape(py, pm, pd2, r2) =~= head + (pd2 + r2));
    lemma_text_before_extend(pd1, pd2, r1, r2);
    lemma_text_before_common(head, pd1 + r1, pd2 + r2);
}

proof fn lemma_datetime_texts_ordered(
    y1: nat,
    m1: nat,
    d1: nat,
    hh1: nat,
    mm1: nat,
    ss1: nat,
    y2: nat,
    m2: nat,
    d2: nat,
    hh2: nat,
    mm2: nat,
    ss2: nat,
)
    requires
        y1 < pow10(4),
        y2 < pow10(4),
        m1 < pow10(2),
        m2 < pow10(2),
        d1 < pow10(2),
        d2 < pow10(2),
        y1 < y2 || (y1 == y2 && (m1 < m2 || (m1 == m2 && d1 < d2))),
    ensures
        text_before(
            datetime_text(y1, m1, d1, hh1, mm1, ss1),
            datetime_text(y2, m2, d2, hh2, mm2, ss2),
        ),
{
    lemma_datetime_shape(y1, m1, d1, hh1, mm1, ss1);
    lemma_datetime_shape(y2, m2, d2, hh2, mm2, ss2);
    let r1 = time_shape(
        zero_padded(decimal(hh1), 2),
        zero_padded(decimal(mm1), 2),
        zero_padded(decimal(ss1), 2),
    );
    let r2 = time_shape(
        zero_padded(decimal(hh2), 2),
        zero_padded(decimal(mm2), 2),
        zero_padded(decimal(ss2), 2),
    );
    if y1 < y2 {
        lemma_padded_ordered(y1, y2, 4);
        lemma_padded_len(y1, 4);
        lemma_padded_len(y2, 4);
        lemma_year_decides(
            zero_padded(decimal(y1), 4),
            zero_padded(decimal(m1), 2),
            zero_padded(decimal(d1), 2),
            r1,
            zero_padded(decimal(y2), 4),
            zero_padded(decimal(m2), 2),
            zero_padded(decimal(d2), 2),
            r2,
        );
    } else if m1 < m2 {
        lemma_padded_ordered(m1, m2, 2);
        lemma_padded_len(m1, 2);
        lemma_padded_len(m2, 2);
        lemma_month_decides(
            zero_padded(decimal(y1), 4),
            zero_padded(decimal(m1), 2),
            zero_padded(decimal(d1), 2),
            r1,
            zero_padded(decimal(m2), 2),
            zero_padded(decimal(d2), 2),
            r2,
        );
    } else {
        lemma_padded_ordered(d1, d2, 2);
        lemma_padded_len(d1, 2);
        lemma_padded_len(d2, 2);
        lemma_day_decides(
            zero_padded(decimal(y1), 4),
            zero_padded(decimal(m1), 2),
            zero_padded(decimal(d1), 2),
            r1,
            zero_padded(decimal(d2), 2),
            r2,
        );
    }
}

/// Timestamps of later days come later as text, whatever the times of
/// day, for days before 2932897 (up to 9999-12-31) and time fields of at
/// most two digits.
pub proof fn lemma_timestamps_ordered_by_day(
    days1: nat,
    hh1: nat,
    mm1: nat,
    ss1: nat,
    t1: Seq<char>,
    days2: nat,
    hh2: nat,
    mm2: nat,
    ss2: nat,
    t2: Seq<char>,
)
    requires
        is_datetime_text(days1, hh1, mm1, ss1, t1),
        is_datetime_text(days2, hh2, mm2, ss2, t2),
        days1 < days2,
        days2 < 2932897,
        hh1 < 100,
        mm1 < 100,
        ss1 < 100,
        hh2 < 100,
        mm2 < 100,
        ss2 < 100,
    ensures
        text_before(t1, t2),
{
    lemma_first_day_of_year_10000();
    let (y1, m1, d1) = choose|y: nat, m: nat, d: nat|
        is_date_of_day(days1 as int, y as int, m as int, d as int) && t1 == datetime_text(
            y,
            m,
            d,
            hh1,
            mm1,
            ss1,
        );
    let (y2, m2, d2) = choose|y: nat, m: nat, d: nat|
        is_date_of_day(days2 as int, y as int, m as int, d as int) && t2 == datetime_text(
            y,
            m,
            d,
            hh2,
            mm2,
            ss2,
        );
    lemma_field_widths(days1, y1, m1, d1, hh1, mm1, ss1);
    lemma_field_widths(days2, y2, m2, d2, hh2, mm2, ss2);
    lemma_dates_ordered(
        days1 as int,
        y1 as int,
        m1 as int,
        d1 as int,
        days2 as int,
        y2 as int,
        m2 as int,
        d2 as int,
    );
    lemma_datetime_texts_ordered(y1, m1, d1, hh1, mm1, ss1, y2, m2, d2, hh2, mm2, ss2);
}

} // verus!
