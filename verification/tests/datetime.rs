use runote::datetime::{fmt_ago, fmt_ago_at, fmt_time, fmt_time_at, now_secs, secs_or_zero, ymd};

#[test]
fn ymd_epoch() {
    assert_eq!(ymd(0), (1970, 1, 1));
    assert_eq!(ymd(86399), (1970, 1, 1));
    assert_eq!(ymd(86400), (1970, 1, 2));
    assert_eq!(ymd(31536000), (1971, 1, 1));
}

#[test]
fn ymd_leap_days() {
    assert_eq!(ymd(951782400), (2000, 2, 29));
    assert_eq!(ymd(1709251200), (2024, 3, 1));
    assert_eq!(ymd(1709251200 - 86400), (2024, 2, 29));
    assert_eq!(ymd(4107456000), (2100, 2, 28));
    assert_eq!(ymd(4107542400), (2100, 3, 1));
    assert_eq!(ymd(946598400), (1999, 12, 31));
}

#[test]
fn ymd_consecutive_days_are_consecutive_dates() {
    let mut prev = ymd(0);
    for day in 1..1000u64 {
        let cur = ymd(day * 86400 * 37);
        assert!(cur > prev);
        prev = cur;
    }
}

#[test]
fn fmt_time_today_shows_time_of_day() {
    // 2024-05-06 13:07 UTC is 21:07 in UTC+8.
    assert_eq!(fmt_time_at(1715000820, 1715000820 + 3600), "21:07");
}

#[test]
fn fmt_time_this_year_shows_month_and_day() {
    assert_eq!(fmt_time_at(1715000820, 1715000820 + 10 * 86400), "05-06 21:07");
}

#[test]
fn fmt_time_other_year_shows_date() {
    assert_eq!(fmt_time_at(1715000820, 1715000820 + 400 * 86400), "2024-05-06");
    assert_eq!(fmt_time_at(0, 1715000820), "1970-01-01");
}

#[test]
fn fmt_time_pads_small_numbers() {
    // 1970-01-01 00:00 UTC is 08:00 in UTC+8.
    assert_eq!(fmt_time_at(0, 0), "08:00");
    assert_eq!(fmt_time_at(60 * 5, 86400 * 40), "01-01 08:05");
}

#[test]
fn fmt_time_uses_utc8_date() {
    // 2024-05-06 16:30 UTC is already 2024-05-07 00:30 in UTC+8.
    let s = 1715000820 - 13 * 3600 - 7 * 60 + 16 * 3600 + 30 * 60;
    assert_eq!(fmt_time_at(s, s), "00:30");
    assert_eq!(fmt_time_at(s, s + 40 * 86400), "05-07 00:30");
}

#[test]
fn fmt_ago_buckets() {
    assert_eq!(fmt_ago_at(0, 30), "刚刚");
    assert_eq!(fmt_ago_at(0, 59), "刚刚");
    assert_eq!(fmt_ago_at(0, 60), "1 分钟前");
    assert_eq!(fmt_ago_at(0, 120), "2 分钟前");
    assert_eq!(fmt_ago_at(0, 7200), "2 小时前");
    assert_eq!(fmt_ago_at(0, 100000), "昨天");
    assert_eq!(fmt_ago_at(0, 86400 * 3), "3 天前");
    assert_eq!(fmt_ago_at(0, 86400 * 29 + 86399), "29 天前");
    assert_eq!(fmt_ago_at(0, 86400 * 65), "2 个月前");
}

#[test]
fn fmt_ago_future_is_just_now() {
    assert_eq!(fmt_ago_at(100, 50), "刚刚");
}

#[test]
fn clock_functions_read_the_clock() {
    assert!(now_secs() > 1_600_000_000);
    assert_eq!(fmt_ago(now_secs() + 3600), "刚刚");
    assert!(fmt_ago(0).ends_with("个月前"));
    assert_eq!(fmt_time(0), "1970-01-01");
}

#[test]
fn clock_before_1970_reads_zero() {
    assert_eq!(secs_or_zero(None), 0);
    assert_eq!(secs_or_zero(Some(1_700_000_000)), 1_700_000_000);
}
