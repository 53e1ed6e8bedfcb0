use vstd::prelude::*;
use vstd::arithmetic::div_mod::lemma_hoist_over_denominator;
use crate::clock::{duration_as_secs, since_unix_epoch, system_now};
use crate::text::{push_str, string_of};

verus! {

// ---------------------------------------------------------------------------
// The proleptic Gregorian calendar
// ---------------------------------------------------------------------------

/// Seconds in a day.
pub const SECS_PER_DAY: u64 = 86400;

/// The shift from UTC to the displayed time zone (UTC+8), in seconds.
pub const UTC8_OFFSET: u64 = 28800;

pub open spec fn is_leap(y: int) -> bool {
    y % 4 == 0 && (y % 100 != 0 || y % 400 == 0)
}

pub open spec fn days_in_month(y: int, m: int) -> int {
    if m == 2 {
        if is_leap(y) { 29 } else { 28 }
    } else if m == 4 || m == 6 || m == 9 || m == 11 {
        30
    } else {
        31
    }
}

/// A day that exists in the calendar.
pub open spec fn valid_date(y: int, m: int, d: int) -> bool {
    1 <= m <= 12 && 1 <= d <= days_in_month(y, m)
}

/// The number of leap years among the years `1..=y`, for `y >= 0`.
pub open spec fn leaps_through(y: int) -> int {
    y / 4 - y / 100 + y / 400
}

/// Days of year `y` before the first of month `m`.
pub open spec fn days_before_month(y: int, m: int) -> int {
    let common: int = if m == 1 {
        0
    } else if m == 2 {
        31
    } else if m == 3 {
        59
    } else if m == 4 {
        90
    } else if m == 5 {
        120
    } else if m == 6 {
        151
    } else if m == 7 {
        181
    } else if m == 8 {
        212
    } else if m == 9 {
        243
    } else if m == 10 {
        273
    } else if m == 11 {
        304
    } else {
        334
    };
    if m > 2 && is_leap(y) {
        common + 1
    } else {
        common
    }
}

/// The number of days from 1970-01-01 to the day `y-m-d`.
pub open spec fn days_since_epoch(y: int, m: int, d: int) -> int {
    365 * (y - 1970) + leaps_through(y - 1) - leaps_through(1969) + days_before_month(y, m) + d - 1
}

/// The calendar day `n` days after 1970-01-01 (for `n >= 0`), computed by
/// counting in 400-year eras of years that start on the first of March.
pub open spec fn date_of_day(n: int) -> (int, int, int) {
    let z = n + 719468;
    let era = z / 146097;
    let doe = z - era * 146097;
    let yoe = (doe - doe / 1460 + doe / 36524 - doe / 146096) / 365;
    let y = yoe + era * 400;
    let doy = doe - (365 * yoe + yoe / 4 - yoe / 100);
    let mp = (5 * doy + 2) / 153;
    let d = doy - (153 * mp + 2) / 5 + 1;
    let m = if mp < 10 { mp + 3 } else { mp - 9 };
    (if m <= 2 { y + 1 } else { y }, m, d)
}

// ---------------------------------------------------------------------------
// Lemmas on the calendar
// ---------------------------------------------------------------------------

/// Within an era, the year of the era and the day of that year.
proof fn lemma_year_of_era(doe: u32)
    requires
        doe < 146097,
    ensures
        ({
            let yoe = (doe - doe / 1460 + doe / 36524 - doe / 146096) / 365;
            let start = 365 * yoe + yoe / 4 - yoe / 100;
            &&& 0 <= yoe <= 399
            &&& start <= doe
            &&& doe - start <= 365
            &&& doe - start == 365 ==> ((yoe + 1) % 4 == 0 && ((yoe + 1) % 100 != 0 || yoe == 399))
        }),
{
    assert(doe < 146097 ==> ({
        let yoe = (doe - doe / 1460 + doe / 36524 - doe / 146096) / 365;
        let start = 365 * yoe + yoe / 4 - yoe / 100;
        &&& yoe <= 399
        &&& start <= doe
        &&& doe - start <= 365
        &&& doe - start == 365 ==> ((yoe + 1) % 4 == 0 && ((yoe + 1) % 100 != 0 || yoe == 399))
    })) by (bit_vector);
}

/// Within a year that starts on the first of March, the month and the day
/// of the month.
proof fn lemma_month_of_year(doy: u32)
    requires
        doy <= 365,
    ensures
        ({
            let mp = (5 * doy + 2) / 153;
            let start = (153 * mp + 2) / 5;
            &&& mp <= 11
            &&& start <= doy
            &&& doy - start <= 30
            &&& (mp == 1 || mp == 3 || mp == 6 || mp == 8) ==> doy - start <= 29
            &&& mp == 11 ==> (doy - start <= 27 || (doy - start == 28 && doy == 365))
        }),
{
    assert(doy <= 365 ==> ({
        let mp = (5 * doy + 2) / 153;
        let start = (153 * mp + 2) / 5;
        &&& mp <= 11
        &&& start <= doy
        &&& doy - start <= 30
        &&& (mp == 1 || mp == 3 || mp == 6 || mp == 8) ==> doy - start <= 29
        &&& mp == 11 ==> (doy - start <= 27 || (doy - start == 28 && doy == 365))
    })) by (bit_vector);
}

/// One more year adds one leap year to the count exactly when it is a leap year.
proof fn lemma_leaps_step(y: int)
    ensures
        leaps_through(y) == leaps_through(y - 1) + if is_leap(y) { 1int } else { 0int },
{
}

/// The leap years counted through a year given by its era and year of era.
proof fn lemma_leaps_of_era(era: int, yoe: int)
    requires
        era >= 0,
        0 <= yoe < 400,
    ensures
        leaps_through(era * 400 + yoe) == era * 97 + yoe / 4 - yoe / 100,
        is_leap(era * 400 + yoe) <==> (yoe % 4 == 0 && (yoe % 100 != 0 || yoe == 0)),
{
    lemma_hoist_over_denominator(yoe, era * 100, 4);
    lemma_hoist_over_denominator(yoe, era * 4, 100);
    lemma_hoist_over_denominator(yoe, era, 400);
    assert((era * 400 + yoe) % 4 == yoe % 4);
    assert((era * 400 + yoe) % 100 == yoe % 100);
    assert((era * 400 + yoe) % 400 == yoe % 400);
}

/// `date_of_day` names a real calendar day, and that day lies `n` days after
/// 1970-01-01.
pub proof fn lemma_date_of_day(n: int)
    requires
        n >= 0,
    ensures
        valid_date(date_of_day(n).0, date_of_day(n).1, date_of_day(n).2),
        days_since_epoch(date_of_day(n).0, date_of_day(n).1, date_of_day(n).2) == n,
{
    let z = n + 719468;
    let era = z / 146097;
    let doe = z - era * 146097;
    assert(0 <= doe < 146097);
    lemma_year_of_era(doe as u32);
    let yoe = (doe - doe / 1460 + doe / 36524 - doe / 146096) / 365;
    let y = yoe + era * 400;
    let doy = doe - (365 * yoe + yoe / 4 - yoe / 100);
    lemma_month_of_year(doy as u32);
    let mp = (5 * doy + 2) / 153;
    let d = doy - (153 * mp + 2) / 5 + 1;
    let m = if mp < 10 { mp + 3 } else { mp - 9 };
    let t = date_of_day(n);
    assert(t == (if m <= 2 { y + 1 } else { y }, m, d));
    lemma_leaps_of_era(era, yoe);
    if yoe < 399 {
        lemma_leaps_of_era(era, yoe + 1);
    } else {
        lemma_leaps_of_era(era + 1, 0);
    }
    assert(leaps_through(1969) == 477);
    if mp < 10 {
        lemma_leaps_step(y);
        assert(days_since_epoch(t.0, t.1, t.2) == n);
    } else {
        assert(days_since_epoch(t.0, t.1, t.2) == n);
    }
}

/// A day of a year lies no later than the last day of that year.
proof fn lemma_day_of_year_bound(y: int, m: int, d: int)
    requires
        valid_date(y, m, d),
    ensures
        0 <= days_before_month(y, m) + d - 1 <= 364 + if is_leap(y) { 1int } else { 0int },
{
}

/// Of two days in one year, the one in the earlier month comes first.
proof fn lemma_month_order(y: int, m1: int, d1: int, m2: int, d2: int)
    requires
        valid_date(y, m1, d1),
        valid_date(y, m2, d2),
        m1 < m2,
    ensures
        days_before_month(y, m1) + d1 < days_before_month(y, m2) + d2,
{
}

/// A later year starts at least one year's length after an earlier one.
proof fn lemma_year_order(y1: int, y2: int)
    requires
        y1 < y2,
    ensures
        days_since_epoch(y2, 1, 1) - days_since_epoch(y1, 1, 1) >= 365 + if is_leap(y1) {
            1int
        } else {
            0int
        },
{
    lemma_leaps_step(y1);
    let a = y1;
    let b = y2 - 1;
    assert(b / 4 >= a / 4);
    assert(b / 400 >= a / 400);
    assert(b / 100 - a / 100 <= (b - a) / 100 + 1);
}

/// Later calendar days lie more days after 1970-01-01.
pub proof fn lemma_days_increasing(y1: int, m1: int, d1: int, y2: int, m2: int, d2: int)
    requires
        valid_date(y1, m1, d1),
        valid_date(y2, m2, d2),
        y1 < y2 || (y1 == y2 && (m1 < m2 || (m1 == m2 && d1 < d2))),
    ensures
        days_since_epoch(y1, m1, d1) < days_since_epoch(y2, m2, d2),
{
    if y1 < y2 {
        lemma_day_of_year_bound(y1, m1, d1);
        lemma_day_of_year_bound(y2, m2, d2);
        lemma_year_order(y1, y2);
    } else if m1 < m2 {
        lemma_month_order(y1, m1, d1, m2, d2);
    }
}

/// The calendar day that lies `n` days after 1970-01-01 is `date_of_day(n)`
/// and no other.
pub proof fn lemma_date_unique(n: int, y: int, m: int, d: int)
    requires
        n >= 0,
        valid_date(y, m, d),
        days_since_epoch(y, m, d) == n,
    ensures
        (y, m, d) == date_of_day(n),
{
    lemma_date_of_day(n);
    let t = date_of_day(n);
    if y < t.0 || (y == t.0 && (m < t.1 || (m == t.1 && d < t.2))) {
        lemma_days_increasing(y, m, d, t.0, t.1, t.2);
    } else if t.0 < y || (y == t.0 && (t.1 < m || (m == t.1 && t.2 < d))) {
        lemma_days_increasing(t.0, t.1, t.2, y, m, d);
    }
}

// ---------------------------------------------------------------------------
// Dates of timestamps
// ---------------------------------------------------------------------------

/// The calendar date `(year, month, day)` of a count of seconds since
/// 1970-01-01 00:00 in the displayed time zone.
pub fn ymd(secs_utc8: u64) -> (r: (i64, u32, u32))
    ensures
        (r.0 as int, r.1 as int, r.2 as int) == date_of_day(secs_utc8 as int / 86400),
        valid_date(r.0 as int, r.1 as int, r.2 as int),
        days_since_epoch(r.0 as int, r.1 as int, r.2 as int) == secs_utc8 / 86400,
        r.0 >= 1970,
{
    proof {
        lemma_date_of_day(secs_utc8 as int / 86400);
    }
    let z: i64 = (secs_utc8 / SECS_PER_DAY) as i64 + 719468;
    let era: i64 = if z >= 0 {
        z
    } else {
        z - 146096
    } / 146097;
    let doe: u64 = (z - era * 146097) as u64;
    proof {
        lemma_year_of_era(doe as u32);
    }
    let yoe: u64 = (doe - doe / 1460 + doe / 36524 - doe / 146096) / 365;
    let y: i64 = yoe as i64 + era * 400;
    let doy: u64 = doe - (365 * yoe + yoe / 4 - yoe / 100);
    proof {
        lemma_month_of_year(doy as u32);
    }
    let mp: u64 = (5 * doy + 2) / 153;
    let d: u32 = (doy - (153 * mp + 2) / 5 + 1) as u32;
    let m: u32 = if mp < 10 {
        mp + 3
    } else {
        mp - 9
    } as u32;
    (if m <= 2 {
        y + 1
    } else {
        y
    }, m, d)
}

// ---------------------------------------------------------------------------
// Decimal numbers
// ---------------------------------------------------------------------------

/// The decimal digit `d`, for `0 <= d < 10`.
pub open spec fn digit(d: int) -> char {
    seq!['0', '1', '2', '3', '4', '5', '6', '7', '8', '9'][d]
}

/// The decimal notation of `n` without leading zeros (`{}`).
pub open spec fn decimal(n: nat) -> Seq<char>
    decreases n,
{
    if n < 10 {
        seq![digit(n as int)]
    } else {
        decimal(n / 10).push(digit((n % 10) as int))
    }
}

/// The decimal notation of `n` padded with zeros to two digits (`{:02}`).
pub open spec fn pad2(n: nat) -> Seq<char> {
    if n < 10 {
        seq!['0', digit(n as int)]
    } else {
        decimal(n)
    }
}

fn digit_char(d: u64) -> (c: char)
    requires
        d < 10,
    ensures
        c == digit(d as int),
{
    match d {
        0 => '0',
        1 => '1',
        2 => '2',
        3 => '3',
        4 => '4',
        5 => '5',
        6 => '6',
        7 => '7',
        8 => '8',
        _ => '9',
    }
}

/// Appends the decimal notation of `n`.
pub fn push_decimal(out: &mut Vec<char>, n: u64)
    ensures
        final(out)@ == old(out)@ + decimal(n as nat),
    decreases n,
{
    if n >= 10 {
        push_decimal(out, n / 10);
    }
    out.push(digit_char(n % 10));
    proof {
        if n < 10 {
            assert(n % 10 == n);
        }
    }
}

/// Appends the decimal notation of `n`, padded with zeros to two digits.
pub fn push_pad2(out: &mut Vec<char>, n: u64)
    ensures
        final(out)@ == old(out)@ + pad2(n as nat),
{
    if n < 10 {
        out.push('0');
        out.push(digit_char(n));
    } else {
        push_decimal(out, n);
    }
}

// ---------------------------------------------------------------------------
// Timestamps as text
// ---------------------------------------------------------------------------

/// How a note's timestamp `secs` (UTC, seconds since 1970) is shown at time
/// `now`: the time of day alone for today, month, day and time for another
/// day of this year, and the full date for another year; all in UTC+8.
pub open spec fn time_text(secs: int, now: int) -> Seq<char> {
    let s = secs + 28800;
    let n = now + 28800;
    let t = date_of_day(s / 86400);
    let nt = date_of_day(n / 86400);
    let hh = ((s % 86400) / 3600) as nat;
    let mm = ((s % 3600) / 60) as nat;
    if t == nt {
        pad2(hh) + ":"@ + pad2(mm)
    } else if t.0 == nt.0 {
        pad2(t.1 as nat) + "-"@ + pad2(t.2 as nat) + " "@ + pad2(hh) + ":"@ + pad2(mm)
    } else {
        decimal(t.0 as nat) + "-"@ + pad2(t.1 as nat) + "-"@ + pad2(t.2 as nat)
    }
}

/// How long ago `secs` was at time `now`, in words: "just now", minutes,
/// hours, "yesterday", days, or months of thirty days.
pub open spec fn ago_text(secs: int, now: int) -> Seq<char> {
    let diff: int = if now >= secs { now - secs } else { 0 };
    if diff < 60 {
        "刚刚"@
    } else if diff < 3600 {
        decimal((diff / 60) as nat) + " 分钟前"@
    } else if diff < 86400 {
        decimal((diff / 3600) as nat) + " 小时前"@
    } else if diff < 172800 {
        "昨天"@
    } else if diff < 2592000 {
        decimal((diff / 86400) as nat) + " 天前"@
    } else {
        decimal((diff / 2592000) as nat) + " 个月前"@
    }
}

// ---------------------------------------------------------------------------
// Laws of the timestamp texts
// ---------------------------------------------------------------------------

/// A decimal digit is no dash.
proof fn lemma_digit_not_dash(d: int)
    requires
        0 <= d < 10,
    ensures
        digit(d) != '-',
{
    let ds = seq!['0', '1', '2', '3', '4', '5', '6', '7', '8', '9'];
    assert(ds[d] != '-');
}

/// Decimal numbers hold no dash.
proof fn lemma_decimal_no_dash(n: nat)
    ensures
        forall|i: int| 0 <= i < decimal(n).len() ==> decimal(n)[i] != '-',
    decreases n,
{
    if n < 10 {
        lemma_digit_not_dash(n as int);
    } else {
        lemma_decimal_no_dash(n / 10);
        lemma_digit_not_dash((n % 10) as int);
        let p = decimal(n / 10);
        assert(decimal(n) == p.push(digit((n % 10) as int)));
        assert forall|i: int| 0 <= i < decimal(n).len() implies decimal(n)[i] != '-' by {
            if i < p.len() {
                assert(decimal(n)[i] == p[i]);
            }
        }
    }
}

proof fn lemma_pad2_no_dash(n: nat)
    ensures
        forall|i: int| 0 <= i < pad2(n).len() ==> pad2(n)[i] != '-',
{
    lemma_decimal_no_dash(n);
    if n < 10 {
        lemma_digit_not_dash(n as int);
    }
}

/// The day numbers of two instants name the same calendar date exactly when
/// they are the same day.
proof fn lemma_same_date_same_day(a: int, b: int)
    requires
        a >= 0,
        b >= 0,
    ensures
        date_of_day(a) == date_of_day(b) <==> a == b,
{
    lemma_date_of_day(a);
    lemma_date_of_day(b);
}

/// What a note card shows for a timestamp `secs` seen at `now`, in UTC+8:
/// where both lie on the same calendar day, the hour and minute of `secs`
/// alone; on another day of the same year, its month and day, then its hour
/// and minute; in another year, its full date. The bare time of day (the only
/// form without a dash) is shown exactly for the same calendar day.
pub proof fn law_time_text(secs: int, now: int)
    requires
        secs >= 0,
        now >= 0,
    ensures
        ({
            let s = secs + 28800;
            let n = now + 28800;
            let date = date_of_day(s / 86400);
            let hh = (s % 86400) / 3600;
            let mm = (s % 3600) / 60;
            let same_year = date.0 == date_of_day(n / 86400).0;
            let text = time_text(secs, now);
            &&& 0 <= hh < 24 && 0 <= mm < 60
            &&& s / 86400 == n / 86400 ==> text == pad2(hh as nat) + ":"@ + pad2(mm as nat)
            &&& s / 86400 != n / 86400 && same_year ==> text == pad2(date.1 as nat) + "-"@ + pad2(
                date.2 as nat,
            ) + " "@ + pad2(hh as nat) + ":"@ + pad2(mm as nat)
            &&& !same_year ==> text == decimal(date.0 as nat) + "-"@ + pad2(date.1 as nat) + "-"@
                + pad2(date.2 as nat)
            &&& (forall|i: int| 0 <= i < text.len() ==> text[i] != '-') <==> s / 86400 == n / 86400
        }),
{
    let s = secs + 28800;
    let n = now + 28800;
    let date = date_of_day(s / 86400);
    let hh = (s % 86400) / 3600;
    let mm = (s % 3600) / 60;
    lemma_same_date_same_day(s / 86400, n / 86400);
    reveal_strlit("-");
    reveal_strlit(":");
    reveal_strlit(" ");
    let text = time_text(secs, now);
    lemma_pad2_no_dash(hh as nat);
    lemma_pad2_no_dash(mm as nat);
    if s / 86400 == n / 86400 {
        let a = pad2(hh as nat);
        let b = pad2(mm as nat);
        assert forall|i: int| 0 <= i < text.len() implies text[i] != '-' by {
            if i < a.len() {
                assert(text[i] == a[i]);
            } else if i == a.len() {
            } else {
                assert(text[i] == b[i - a.len() - 1]);
            }
        }
    } else if date.0 == date_of_day(n / 86400).0 {
        assert(text[pad2(date.1 as nat).len() as int] == '-');
    } else {
        assert(text[decimal(date.0 as nat).len() as int] == '-');
    }
}

/// How long ago a timestamp was: "just now" under a minute; the whole number
/// of minutes (1 to 59) under an hour; of hours (1 to 23) under a day;
/// "yesterday" under two days; the whole number of days (2 to 29) under thirty
/// days; else of thirty-day months (at least 1). A timestamp ahead of `now`
/// counts as just now.
pub proof fn law_ago_text(secs: int, now: int)
    ensures
        ({
            let d = now - secs;
            let text = ago_text(secs, now);
            &&& d < 60 ==> text == "刚刚"@
            &&& 60 <= d < 3600 ==> text == decimal((d / 60) as nat) + " 分钟前"@ && 1 <= d / 60 < 60
            &&& 3600 <= d < 86400 ==> text == decimal((d / 3600) as nat) + " 小时前"@ && 1 <= d / 3600
                < 24
            &&& 86400 <= d < 172800 ==> text == "昨天"@
            &&& 172800 <= d < 2592000 ==> text == decimal((d / 86400) as nat) + " 天前"@ && 2 <= d
                / 86400 < 30
            &&& 2592000 <= d ==> text == decimal((d / 2592000) as nat) + " 个月前"@ && 1 <= d
                / 2592000
        }),
{
}

/// The largest timestamp whose shift to UTC+8 still fits in a `u64`.
pub const MAX_TIMESTAMP: u64 = 18446744073709522815;

/// A clock reading in seconds, a clock set before 1970 counting as 0.
pub fn secs_or_zero(r: Option<u64>) -> (s: u64)
    ensures
        s == match r {
            Some(x) => x,
            None => 0,
        },
{
    match r {
        Some(x) => x,
        None => 0,
    }
}

/// The current time, in whole seconds since 1970-01-01 00:00 UTC; 0 where the
/// system clock is set before 1970. Nothing more is stated of the reading,
/// which depends on the clock.
pub fn now_secs() -> u64 {
    let t = system_now();
    let secs = match since_unix_epoch(&t) {
        Some(d) => Some(duration_as_secs(&d)),
        None => None,
    };
    secs_or_zero(secs)
}

/// A clock reading kept within the range that `fmt_time_at` accepts.
fn clock_secs() -> (r: u64)
    ensures
        r <= MAX_TIMESTAMP,
{
    let now = now_secs();
    if now > MAX_TIMESTAMP {
        MAX_TIMESTAMP
    } else {
        now
    }
}

/// The timestamp `secs` as shown on a note card at time `now`.
pub fn fmt_time_at(secs: u64, now: u64) -> (r: String)
    requires
        secs <= MAX_TIMESTAMP,
        now <= MAX_TIMESTAMP,
    ensures
        r@ == time_text(secs as int, now as int),
{
    let s = secs + UTC8_OFFSET;
    let n = now + UTC8_OFFSET;
    let (y, m, d) = ymd(s);
    let (ny, nm, nd) = ymd(n);
    let hh = (s % SECS_PER_DAY) / 3600;
    let mm = (s % 3600) / 60;
    let mut out: Vec<char> = Vec::new();
    if y == ny && m == nm && d == nd {
        push_pad2(&mut out, hh);
        push_str(&mut out, ":");
        push_pad2(&mut out, mm);
    } else if y == ny {
        push_pad2(&mut out, m as u64);
        push_str(&mut out, "-");
        push_pad2(&mut out, d as u64);
        push_str(&mut out, " ");
        push_pad2(&mut out, hh);
        push_str(&mut out, ":");
        push_pad2(&mut out, mm);
    } else {
        push_decimal(&mut out, y as u64);
        push_str(&mut out, "-");
        push_pad2(&mut out, m as u64);
        push_str(&mut out, "-");
        push_pad2(&mut out, d as u64);
    }
    string_of(&out)
}

/// The timestamp `secs` as shown on a note card now. A clock reading beyond
/// `MAX_TIMESTAMP` is taken as `MAX_TIMESTAMP`.
pub fn fmt_time(secs: u64) -> (r: String)
    requires
        secs <= MAX_TIMESTAMP,
    ensures
        exists|now: u64| now <= MAX_TIMESTAMP && r@ == time_text(secs as int, now as int),
{
    let now = clock_secs();
    fmt_time_at(secs, now)
}

/// How long ago `secs` was at time `now`.
pub fn fmt_ago_at(secs: u64, now: u64) -> (r: String)
    ensures
        r@ == ago_text(secs as int, now as int),
{
    let diff = now.saturating_sub(secs);
    let mut out: Vec<char> = Vec::new();
    if diff < 60 {
        push_str(&mut out, "刚刚");
    } else if diff < 3600 {
        push_decimal(&mut out, diff / 60);
        push_str(&mut out, " 分钟前");
    } else if diff < 86400 {
        push_decimal(&mut out, diff / 3600);
        push_str(&mut out, " 小时前");
    } else if diff < 172800 {
        push_str(&mut out, "昨天");
    } else if diff < 86400 * 30 {
        push_decimal(&mut out, diff / 86400);
        push_str(&mut out, " 天前");
    } else {
        push_decimal(&mut out, diff / (86400 * 30));
        push_str(&mut out, " 个月前");
    }
    string_of(&out)
}

/// How long ago `secs` was, now.
pub fn fmt_ago(secs: u64) -> (r: String)
    ensures
        exists|now: u64| r@ == ago_text(secs as int, now as int),
{
    let now = now_secs();
    fmt_ago_at(secs, now)
}

} // verus!
