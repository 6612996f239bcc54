//! Schedules: parsing, matching and searching.

use rand::{Rng, SeedableRng};

use crontab_rs::calendar::WallTime;
use crontab_rs::schedule::{parse_plain_number, Schedule, ScheduleError};

fn at(y: i32, mo: u32, d: u32, h: u32, mi: u32) -> WallTime {
    WallTime { year: y, month: mo, day: d, hour: h, minute: mi, second: 0 }
}

fn sched(s: &str) -> Schedule {
    Schedule::parse(s).unwrap_or_else(|e| panic!("{s}: {}", e.message()))
}

#[test]
fn every_minute() {
    let s = sched("* * * * *");
    assert!(s.matches(&at(2026, 9, 14, 17, 9)));
    assert!(s.is_wild());
}

#[test]
fn specific_time() {
    let s = sched("30 2 * * *");
    assert!(s.matches(&at(2026, 9, 14, 2, 30)));
    assert!(!s.matches(&at(2026, 9, 14, 2, 31)));
    assert!(!s.matches(&at(2026, 9, 14, 3, 30)));
    assert!(!s.is_wild());
}

#[test]
fn lists_ranges_steps() {
    let s = sched("0,15,30,45 9-17 * * 1-5");
    assert!(s.matches(&at(2026, 9, 14, 9, 15))); // Monday
    assert!(!s.matches(&at(2026, 9, 14, 9, 16)));
    assert!(!s.matches(&at(2026, 9, 13, 9, 15))); // Sunday
    assert!(!s.matches(&at(2026, 9, 14, 18, 0)));

    let s = sched("*/15 */2 * * *");
    assert!(s.matches(&at(2026, 1, 1, 0, 0)));
    assert!(s.matches(&at(2026, 1, 1, 4, 45)));
    assert!(!s.matches(&at(2026, 1, 1, 3, 0)));
    assert!(!s.matches(&at(2026, 1, 1, 4, 10)));
    assert!(s.is_wild());

    let s = sched("5/20 * * * *");
    for m in [5, 25, 45] {
        assert!(s.matches(&at(2026, 1, 1, 0, m)), "{m}");
    }
    assert!(!s.matches(&at(2026, 1, 1, 0, 0)));

    let s = sched("1-10/3 * * * *");
    for m in [1, 4, 7, 10] {
        assert!(s.matches(&at(2026, 1, 1, 0, m)), "{m}");
    }
    assert!(!s.matches(&at(2026, 1, 1, 0, 13)));
}

#[test]
fn names() {
    let s = sched("0 0 * jan,MAR,december mon-Fri");
    assert!(s.matches(&at(2026, 1, 5, 0, 0)));
    assert!(s.matches(&at(2026, 3, 2, 0, 0)));
    assert!(s.matches(&at(2026, 12, 7, 0, 0)));
    assert!(!s.matches(&at(2026, 2, 2, 0, 0)));
    assert!(!s.matches(&at(2026, 1, 4, 0, 0))); // Sunday
    assert_eq!(
        Schedule::parse("0 0 * * foo"),
        Err(ScheduleError::BadDayOfWeek)
    );
    assert_eq!(Schedule::parse("0 0 * xyz *"), Err(ScheduleError::BadMonth));
}

#[test]
fn sunday_seven() {
    let s = sched("0 0 * * 7");
    assert!(s.matches(&at(2026, 9, 13, 0, 0)));
    let s = sched("0 0 * * 5-7");
    assert!(s.matches(&at(2026, 9, 13, 0, 0)));
    assert!(s.matches(&at(2026, 9, 11, 0, 0)));
    assert!(!s.matches(&at(2026, 9, 10, 0, 0)));
}

#[test]
fn dom_dow_or_semantics() {
    // Both restricted: fires on the 13th OR on Fridays.
    let s = sched("0 0 13 * 5");
    assert!(s.matches(&at(2026, 9, 13, 0, 0))); // 13th (Sunday)
    assert!(s.matches(&at(2026, 9, 11, 0, 0))); // Friday 11th
    assert!(!s.matches(&at(2026, 9, 14, 0, 0)));

    // dom is `*/2` -> star flag set -> AND semantics.
    let s = sched("0 0 */2 * 5");
    assert!(!s.matches(&at(2026, 9, 13, 0, 0)));
    assert!(s.matches(&at(2026, 9, 11, 0, 0))); // Friday, odd day 11
    assert!(!s.matches(&at(2026, 9, 18, 0, 0))); // Friday, even day 18
}

#[test]
fn shortcuts() {
    assert!(sched("@hourly").matches(&at(2026, 5, 5, 7, 0)));
    assert!(!sched("@hourly").matches(&at(2026, 5, 5, 7, 1)));
    assert!(sched("@daily").matches(&at(2026, 5, 5, 0, 0)));
    assert!(sched("@midnight").matches(&at(2026, 5, 5, 0, 0)));
    assert!(sched("@weekly").matches(&at(2026, 9, 13, 0, 0)));
    assert!(!sched("@weekly").matches(&at(2026, 9, 14, 0, 0)));
    assert!(sched("@monthly").matches(&at(2026, 9, 1, 0, 0)));
    assert!(sched("@yearly").matches(&at(2026, 1, 1, 0, 0)));
    assert!(sched("@ANNUALLY").matches(&at(2026, 1, 1, 0, 0)));
    assert!(!sched("@yearly").matches(&at(2026, 2, 1, 0, 0)));
    let r = sched("@reboot");
    assert!(r.is_reboot());
    assert!(!r.matches(&at(2026, 1, 1, 0, 0)));
    assert_eq!(
        Schedule::parse("@bogus"),
        Err(ScheduleError::BadTimeSpecifier)
    );
}

#[test]
fn prefix_returns_remainder() {
    let (s, rest) = Schedule::parse_prefix("  5 4 * * *   root  /bin/echo hi").unwrap();
    assert_eq!(rest, "root  /bin/echo hi");
    assert!(s.matches(&at(2026, 1, 1, 4, 5)));
    let (_, rest) = Schedule::parse_prefix("@daily\tfoo").unwrap();
    assert_eq!(rest, "foo");
}

#[test]
fn errors() {
    assert_eq!(Schedule::parse("60 * * * *"), Err(ScheduleError::BadMinute));
    assert_eq!(Schedule::parse("* 24 * * *"), Err(ScheduleError::BadHour));
    assert_eq!(
        Schedule::parse("* * 0 * *"),
        Err(ScheduleError::BadDayOfMonth)
    );
    assert_eq!(
        Schedule::parse("* * 32 * *"),
        Err(ScheduleError::BadDayOfMonth)
    );
    assert_eq!(Schedule::parse("* * * 13 *"), Err(ScheduleError::BadMonth));
    assert_eq!(
        Schedule::parse("* * * * 8"),
        Err(ScheduleError::BadDayOfWeek)
    );
    assert_eq!(
        Schedule::parse("*/0 * * * *"),
        Err(ScheduleError::BadMinute)
    );
    assert_eq!(
        Schedule::parse("5-3 * * * *"),
        Err(ScheduleError::BadMinute)
    );
    assert_eq!(
        Schedule::parse("1,,2 * * * *"),
        Err(ScheduleError::BadMinute)
    );
    assert_eq!(Schedule::parse("* * * *"), Err(ScheduleError::BadDayOfWeek));
    assert_eq!(
        Schedule::parse("* * * * * extra"),
        Err(ScheduleError::BadTimeSpecifier)
    );
    assert_eq!(Schedule::parse("a * * * *"), Err(ScheduleError::BadMinute));
}

/// Parses a schedule with one draw for every random range.
fn parse_drawn<'a>(
    s: &'a str,
    rng: &mut rand::rngs::StdRng,
) -> Result<(Schedule, &'a str), ScheduleError> {
    let requests = Schedule::random_requests(s)?;
    let draws: Vec<Vec<u32>> = requests
        .iter()
        .map(|field| field.iter().map(|&(lo, hi)| rng.random_range(lo..=hi)).collect())
        .collect();
    Schedule::parse_prefix_with(s, &draws)
}

#[test]
fn random_ranges() {
    let mut rng = rand::rngs::StdRng::seed_from_u64(7);
    for _ in 0..50 {
        let (s, _) = parse_drawn("10~20 * * * *", &mut rng).unwrap();
        let fired: Vec<u32> = (0..60)
            .filter(|m| s.matches(&at(2026, 1, 1, 0, *m)))
            .collect();
        assert_eq!(fired.len(), 1);
        assert!((10..=20).contains(&fired[0]));
    }
    let (s, _) = parse_drawn("~ ~ * * *", &mut rng).unwrap();
    let fired = (0..60)
        .filter(|m| s.matches(&at(2026, 1, 1, 0, *m)))
        .count();
    assert!(fired <= 1);
    assert!(!s.is_wild());

    let (s, _) = parse_drawn("0~59/10 * * * *", &mut rng).unwrap();
    let fired: Vec<u32> = (0..60)
        .filter(|m| s.matches(&at(2026, 1, 1, 0, *m)))
        .collect();
    assert_eq!(fired.len(), 6, "{fired:?}");
    assert!(fired[0] < 10);
    assert!(fired.windows(2).all(|w| w[1] - w[0] == 10));

    assert_eq!(
        parse_drawn("20~10 * * * *", &mut rng).map(|_| ()),
        Err(ScheduleError::BadMinute)
    );
}

#[test]
fn next_after_search() {
    let s = sched("30 2 * * *");
    assert_eq!(
        s.next_after(&at(2026, 9, 14, 2, 30), 5),
        Some(at(2026, 9, 15, 2, 30))
    );
    assert_eq!(
        s.next_after(&at(2026, 9, 14, 2, 29), 5),
        Some(at(2026, 9, 14, 2, 30))
    );
    let s = sched("0 0 29 2 *");
    assert_eq!(
        s.next_after(&at(2026, 1, 1, 0, 0), 5),
        Some(at(2028, 2, 29, 0, 0))
    );
    let s = sched("0 0 31 2 *");
    assert_eq!(s.next_after(&at(2026, 1, 1, 0, 0), 5), None);
    let s = sched("* * * * *");
    assert_eq!(
        s.next_after(&at(2026, 12, 31, 23, 59), 5),
        Some(at(2027, 1, 1, 0, 0))
    );
    assert_eq!(sched("@reboot").next_after(&at(2026, 1, 1, 0, 0), 5), None);
}

#[test]
fn schedule_messages() {
    for (e, text) in [
        (ScheduleError::BadMinute, "bad minute"),
        (ScheduleError::BadHour, "bad hour"),
        (ScheduleError::BadDayOfMonth, "bad day-of-month"),
        (ScheduleError::BadMonth, "bad month"),
        (ScheduleError::BadDayOfWeek, "bad day-of-week"),
        (ScheduleError::BadTimeSpecifier, "bad time specifier"),
    ] {
        assert_eq!(e.message(), text);
    }
}

#[test]
fn seconds_do_not_matter() {
    let s = sched("30 2 * * *");
    for second in [0, 1, 59] {
        assert!(s.matches(&WallTime { second, ..at(2026, 9, 14, 2, 30) }));
    }
}

#[test]
fn reboot_never_fires() {
    let r = Schedule::reboot();
    assert!(r.is_reboot() && !r.is_wild());
    for m in 0..60 {
        assert!(!r.matches(&at(2026, 1, 1, 0, m)));
    }
    assert_eq!(r.next_after(&at(2026, 1, 1, 0, 0), 5), None);
}

#[test]
fn random_range_takes_the_drawn_value() {
    let requests = Schedule::random_requests("10~20 ~ * * *").unwrap();
    assert_eq!(requests, vec![vec![(10, 20)], vec![(0, 23)], vec![(0, 0)], vec![(0, 0)], vec![(0, 0)]]);
    let draws = vec![vec![17], vec![5], vec![0], vec![0], vec![0]];
    let (s, rest) = Schedule::parse_prefix_with("10~20 ~ * * * cmd", &draws).unwrap();
    assert_eq!(rest, "cmd");
    for h in 0..24 {
        for m in 0..60 {
            assert_eq!(s.matches(&at(2026, 1, 1, h, m)), h == 5 && m == 17);
        }
    }
}

#[test]
fn a_random_schedule_keeps_within_its_range() {
    for _ in 0..20 {
        let s = sched("10~12 3 * * *");
        let fired: Vec<u32> = (0..60).filter(|m| s.matches(&at(2026, 1, 1, 3, *m))).collect();
        assert_eq!(fired.len(), 1);
        assert!((10..=12).contains(&fired[0]));
    }
}

#[test]
fn plain_numbers() {
    let n = |s: &str| parse_plain_number(&s.chars().collect::<Vec<char>>());
    assert_eq!(n("0"), Some(0));
    assert_eq!(n("0042"), Some(42));
    // Numbers wrap as in C.
    assert_eq!(n("2147483647"), Some(i32::MAX));
    assert_eq!(n("2147483648"), Some(i32::MIN));
    assert_eq!(n("4294967295"), Some(-1));
    assert_eq!(n("4294967296"), Some(0));
    assert_eq!(n("4294967301"), Some(5));
    assert_eq!(n("9223372036854775807"), Some(-1));
    assert_eq!(n("99999999999999999999999"), Some(-1));
    assert_eq!(n(""), None);
    assert_eq!(n("+1"), None);
    assert_eq!(n("1a"), None);
}

#[test]
fn large_numbers_follow_c() {
    assert_eq!(Schedule::parse("4294967301 4294967296 * * *"), Schedule::parse("5 0 * * *"));
    assert_eq!(Schedule::parse("4294967295 * * * *"), Err(ScheduleError::BadMinute));
    assert_eq!(Schedule::parse("*/4294967298 * * * *"), Schedule::parse("*/2 * * * *"));
    assert_eq!(Schedule::parse("*/4294967295 * * * *"), Err(ScheduleError::BadMinute));
    assert_eq!(Schedule::parse("*/4294967296 * * * *"), Err(ScheduleError::BadMinute));
}

#[test]
fn bounds_of_random_ranges_may_lie_outside_the_field() {
    let first = |s: &str| Schedule::random_requests(s).map(|r| r[0][0]);
    assert_eq!(first("50~70 * * * *"), Ok((50, 59)));
    assert_eq!(first("4294967295~5 * * * *"), Ok((0, 5)));
    assert_eq!(first("~99 * * * *"), Ok((0, 59)));
    assert_eq!(first("60~70 * * * *"), Err(ScheduleError::BadMinute));
    assert_eq!(first("70~50 * * * *"), Err(ScheduleError::BadMinute));
    assert_eq!(first("a~5 * * * *"), Err(ScheduleError::BadMinute));
    let month = Schedule::random_requests("* * 0~3 feb~13 *").unwrap();
    assert_eq!((month[2][0], month[3][0]), ((1, 3), (2, 12)));
    for _ in 0..20 {
        let s = sched("55~1000 * * * *");
        let fired: Vec<u32> = (0..60).filter(|m| s.matches(&at(2026, 1, 1, 3, *m))).collect();
        assert!(fired.len() == 1 && fired[0] >= 55);
    }
}

#[test]
fn shortcuts_are_their_fields() {
    for (short, fields) in [
        ("@yearly", "0 0 1 1 *"),
        ("@annually", "0 0 1 1 *"),
        ("@monthly", "0 0 1 * *"),
        ("@weekly", "0 0 * * 0"),
        ("@daily", "0 0 * * *"),
        ("@Midnight", "0 0 * * *"),
        ("@hourly", "0 * * * *"),
    ] {
        assert_eq!(sched(short), sched(fields), "{short}");
    }
    assert_eq!(sched("@reboot"), Schedule::reboot());
}

#[test]
fn ways_to_write_the_same() {
    for (a, b) in [
        ("0 0 * * 7", "0 0 * * 0"),
        ("0 0 * * 5-7", "0 0 * * 0,5,6"),
        ("0 0 * * 5-7", "0 0 * * 0,5-6"),
        ("0 0 * jan,MAR,dec mon-Fri", "0 0 * 1,3,12 1-5"),
        ("10-20 * * * *", "10-20/1 * * * *"),
        ("*/7 0 * * *", "0-59/7 0 * * *"),
    ] {
        // A leading star counts apart from what it admits.
        if a.starts_with('*') {
            for m in 0..60 {
                let t = at(2026, 1, 1, 0, m);
                assert_eq!(sched(a).matches(&t), sched(b).matches(&t));
            }
        } else {
            assert_eq!(sched(a), sched(b), "{a}");
        }
    }
}

#[test]
fn search_crosses_months_and_years() {
    let s = sched("0 12 1 1 *");
    assert_eq!(s.next_after(&at(2026, 1, 1, 12, 0), 5), Some(at(2027, 1, 1, 12, 0)));
    assert_eq!(s.next_after(&at(2026, 1, 1, 12, 0), 0), None);
    let s = sched("59 23 31 12 *");
    assert_eq!(s.next_after(&at(2026, 3, 3, 3, 3), 5), Some(at(2026, 12, 31, 23, 59)));
}
