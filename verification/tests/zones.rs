//! Time zones: zone files, POSIX strings and the cache.

use nix::fcntl::{open, OFlag};
use nix::sys::stat::{fstat, stat, Mode};
use nix::unistd::read;

use crontab_rs::calendar::WallTime;
use crontab_rs::posix_tz::{
    compute_change, is_leap, mon_yday, parse_offset, parse_rule, parse_tz_string, parse_tzname,
    scan_hms, scan_hu, utc_year, PosixTz, Rule, RuleKind,
};
use crontab_rs::tzif::{data_block_len, parse_tzif, posixrules_default, read_header};
use crontab_rs::zone::{
    copy_bytes, judge_handle, needs_posixrules, normalize_value, opened_bytes,
    path_allowed_in_secure_mode, posixrules_name, read_capped, read_limit, same_bytes, same_file,
    secure_mode, tzdir, usable_file, wall_clock, zone_path, FileId, HandleVerdict, Opened, Zone,
    MAX_TZIF_BYTES,
};
use crontab_rs::zone_cache::{Sight, Step, ZoneCache};

const NY: &str = "/usr/share/zoneinfo/America/New_York";

fn is_regular(mode: u32) -> bool {
    mode & 0o170000 == 0o100000
}

fn present(path: &str) -> bool {
    stat(path).is_ok()
}

fn have_zoneinfo() -> bool {
    present(NY)
}

/// The content of a regular file.
fn read_file(path: &[u8]) -> Option<Vec<u8>> {
    let fd = open(path, OFlag::O_RDONLY | OFlag::O_NONBLOCK, Mode::empty()).ok()?;
    if !is_regular(fstat(&fd).ok()?.st_mode) {
        return None;
    }
    let mut out = Vec::new();
    let mut buf = [0u8; 4096];
    loop {
        let n = read(&fd, &mut buf).ok()?;
        if n == 0 {
            return Some(out);
        }
        out.extend_from_slice(&buf[..n]);
    }
}

/// The identity of a regular file.
fn probe(path: &[u8]) -> Option<FileId> {
    let st = stat(path).ok()?;
    if !is_regular(st.st_mode) {
        return None;
    }
    Some(FileId {
        dev: st.st_dev,
        ino: st.st_ino,
        size: st.st_size as u64,
        mtime_sec: st.st_mtime,
        mtime_nsec: st.st_mtime_nsec,
        ctime_sec: st.st_ctime,
        ctime_nsec: st.st_ctime_nsec,
    })
}

fn dir() -> Vec<u8> {
    tzdir(false, None)
}

fn named_path(value: &[u8]) -> Option<Vec<u8>> {
    let value = normalize_value(value);
    if value.is_empty() {
        return None;
    }
    zone_path(&dir(), value, false)
}

fn rules_path() -> Vec<u8> {
    zone_path(&dir(), &posixrules_name(), false).unwrap()
}

/// The zone that a value selects on this machine.
fn zone_from_bytes(value: &[u8]) -> Zone {
    let named = named_path(value).and_then(|p| read_file(&p));
    let rules = read_file(&rules_path());
    Zone::from_tz_bytes(value, named.as_deref(), rules.as_deref())
}

fn zone_from_value(value: &str) -> Zone {
    let named = named_path(value.as_bytes()).and_then(|p| read_file(&p));
    let rules = read_file(&rules_path());
    Zone::from_tz_value(value, named.as_deref(), rules.as_deref())
}

/// A lookup through the cache.
fn cached(cache: &mut ZoneCache, value: &[u8]) -> Zone {
    let path = named_path(value);
    let mut step = cache.start(value, &dir(), path.as_deref().and_then(probe));
    loop {
        step = match step {
            Step::Done(zone) => return zone,
            Step::Open => {
                let p = path.as_deref().unwrap();
                let outcome = match (probe(p), read_file(p)) {
                    (Some(id), Some(bytes)) => Opened::Bytes(id, bytes),
                    _ => Opened::Unusable,
                };
                cache.opened(value, &dir(), outcome)
            }
            Step::ProbeRules => cache.rules_probed(value, &dir(), probe(&rules_path())),
            Step::LoadRules => {
                let id = probe(&rules_path());
                let content = read_file(&rules_path());
                return cache.rules_loaded(value, &dir(), id, content.as_deref());
            }
        };
    }
}

fn fmt_time(t: &WallTime) -> String {
    format!(
        "{:04}-{:02}-{:02} {:02}:{:02}:{:02}",
        t.year, t.month, t.day, t.hour, t.minute, t.second
    )
}

fn fmt_offset(off: i32) -> String {
    let sign = if off < 0 { '-' } else { '+' };
    let a = off.unsigned_abs();
    format!("{sign}{:02}:{:02}:{:02}", a / 3600, a / 60 % 60, a % 60)
}

fn render(zone: &Zone, t: i64) -> String {
    format!(
        "{} {}",
        fmt_time(&zone.wall_time(t)),
        fmt_offset(zone.utc_offset_at(t))
    )
}

/// Each case: TZ value, Unix time, expected `date '+%F %T %::z'` output.
fn check(cases: &[(&str, i64, &str)]) {
    let mut failures = Vec::new();
    for &(tz, t, want) in cases {
        let got = render(&zone_from_value(tz), t);
        if got != want {
            failures.push(format!("TZ={tz:?} @{t}: got {got}, want {want}"));
        }
    }
    assert!(failures.is_empty(), "{}", failures.join("\n"));
}

#[test]
fn iana_names_across_dst_transitions() {
    if !have_zoneinfo() {
        return;
    }
    check(&[
        (
            "America/New_York",
            1772953199,
            "2026-03-08 01:59:59 -05:00:00",
        ),
        (
            "America/New_York",
            1772953200,
            "2026-03-08 03:00:00 -04:00:00",
        ),
        (
            "America/New_York",
            1793512799,
            "2026-11-01 01:59:59 -04:00:00",
        ),
        (
            "America/New_York",
            1793512800,
            "2026-11-01 01:00:00 -05:00:00",
        ),
        (
            "America/New_York",
            1782907200,
            "2026-07-01 08:00:00 -04:00:00",
        ),
        // After the last transition: TZif footer rules.
        (
            "America/New_York",
            2855908800,
            "2060-07-01 08:00:00 -04:00:00",
        ),
        // Before the first transition: LMT.
        (
            "America/New_York",
            -3786825600,
            "1849-12-31 19:03:58 -04:56:02",
        ),
        (
            "Australia/Sydney",
            1775318399,
            "2026-04-05 02:59:59 +11:00:00",
        ),
        (
            "Australia/Sydney",
            1775318400,
            "2026-04-05 02:00:00 +10:00:00",
        ),
        (
            "Australia/Sydney",
            1791043199,
            "2026-10-04 01:59:59 +10:00:00",
        ),
        (
            "Australia/Sydney",
            1791043200,
            "2026-10-04 03:00:00 +11:00:00",
        ),
        ("Europe/London", 1774745999, "2026-03-29 00:59:59 +00:00:00"),
        ("Europe/London", 1774746000, "2026-03-29 02:00:00 +01:00:00"),
        ("Europe/London", 1792889999, "2026-10-25 01:59:59 +01:00:00"),
        ("Europe/London", 1792890000, "2026-10-25 01:00:00 +00:00:00"),
        (":Europe/Paris", 1782864000, "2026-07-01 02:00:00 +02:00:00"),
        (":Europe/Paris", 1767225600, "2026-01-01 01:00:00 +01:00:00"),
    ]);
}

#[test]
fn file_paths_and_zero_transition_files() {
    if !have_zoneinfo() {
        return;
    }
    check(&[
        (
            "/usr/share/zoneinfo/Asia/Tokyo",
            1782864000,
            "2026-07-01 09:00:00 +09:00:00",
        ),
        (
            "posix/Asia/Tokyo",
            1782864000,
            "2026-07-01 09:00:00 +09:00:00",
        ),
        ("Etc/GMT-3", 1782864000, "2026-07-01 03:00:00 +03:00:00"),
        ("UTC", 1782864000, "2026-07-01 00:00:00 +00:00:00"),
        // A name without an offset that is also a tzdata file.
        ("EST", 1782864000, "2026-06-30 19:00:00 -05:00:00"),
        // A directory is not a TZif file; "America" has no offset -> UTC.
        ("America", 1782864000, "2026-07-01 00:00:00 +00:00:00"),
    ]);
}

#[test]
fn right_zones_apply_leap_second_correction() {
    if !have_zoneinfo() {
        return;
    }
    check(&[
        ("right/UTC", 0, "1970-01-01 00:00:00 +00:00:00"),
        ("right/UTC", 78796799, "1972-06-30 23:59:59 +00:00:00"),
        // `date` shows 23:59:60 here; wall_time cannot represent second 60.
        ("right/UTC", 78796800, "1972-06-30 23:59:59 +00:00:00"),
        ("right/UTC", 78796801, "1972-07-01 00:00:00 +00:00:00"),
        // `date` shows 2016-12-31 23:59:60.
        ("right/UTC", 1483228826, "2016-12-31 23:59:59 +00:00:00"),
        ("right/UTC", 1483228827, "2017-01-01 00:00:00 +00:00:00"),
        ("right/UTC", 1483228828, "2017-01-01 00:00:01 +00:00:00"),
        ("right/UTC", 1782864000, "2026-06-30 23:59:33 +00:00:00"),
        (
            "right/America/New_York",
            1782864000,
            "2026-06-30 19:59:33 -04:00:00",
        ),
    ]);
}

#[test]
fn posix_strings_with_rules() {
    check(&[
        (
            "CET-1CEST,M3.5.0,M10.5.0/3",
            1782864000,
            "2026-07-01 02:00:00 +02:00:00",
        ),
        (
            "CET-1CEST,M3.5.0,M10.5.0/3",
            1767225600,
            "2026-01-01 01:00:00 +01:00:00",
        ),
        (
            "CET-1CEST,M3.5.0,M10.5.0/3",
            1774745999,
            "2026-03-29 01:59:59 +01:00:00",
        ),
        (
            "CET-1CEST,M3.5.0,M10.5.0/3",
            1774746000,
            "2026-03-29 03:00:00 +02:00:00",
        ),
        (
            "CET-1CEST,M3.5.0,M10.5.0/3",
            1792889999,
            "2026-10-25 02:59:59 +02:00:00",
        ),
        (
            "CET-1CEST,M3.5.0,M10.5.0/3",
            1792890000,
            "2026-10-25 02:00:00 +01:00:00",
        ),
        // Southern hemisphere: DST spans the new year.
        (
            "AEST-10AEDT,M10.1.0,M4.1.0/3",
            1768435200,
            "2026-01-15 11:00:00 +11:00:00",
        ),
        (
            "AEST-10AEDT,M10.1.0,M4.1.0/3",
            1782864000,
            "2026-07-01 10:00:00 +10:00:00",
        ),
        (
            "AEST-10AEDT,M10.1.0,M4.1.0/3",
            1767223800,
            "2026-01-01 10:30:00 +11:00:00",
        ),
        (
            "AEST-10AEDT,M10.1.0,M4.1.0/3",
            1775318399,
            "2026-04-05 02:59:59 +11:00:00",
        ),
        (
            "AEST-10AEDT,M10.1.0,M4.1.0/3",
            1775318400,
            "2026-04-05 02:00:00 +10:00:00",
        ),
        (
            "AEST-10AEDT,M10.1.0,M4.1.0/3",
            1791043199,
            "2026-10-04 01:59:59 +10:00:00",
        ),
        (
            "AEST-10AEDT,M10.1.0,M4.1.0/3",
            1791043200,
            "2026-10-04 03:00:00 +11:00:00",
        ),
        // Jn never counts Feb 29: J60 is March 1 in a leap year.
        (
            "EST5EDT,J60,J300",
            1709276399,
            "2024-03-01 01:59:59 -05:00:00",
        ),
        (
            "EST5EDT,J60,J300",
            1709276400,
            "2024-03-01 03:00:00 -04:00:00",
        ),
        (
            "EST5EDT,J60,J300",
            1709208000,
            "2024-02-29 07:00:00 -05:00:00",
        ),
        // n counts Feb 29: day 59 is Feb 29 in a leap year, March 1 otherwise.
        (
            "EST5EDT,59,300",
            1709189999,
            "2024-02-29 01:59:59 -05:00:00",
        ),
        (
            "EST5EDT,59,300",
            1709190000,
            "2024-02-29 03:00:00 -04:00:00",
        ),
        (
            "EST5EDT,59,300",
            1677653999,
            "2023-03-01 01:59:59 -05:00:00",
        ),
        (
            "EST5EDT,59,300",
            1677654000,
            "2023-03-01 03:00:00 -04:00:00",
        ),
        // Extended rule times: negative and beyond 24 hours.
        (
            "EST5EDT,M3.2.0/-1,M11.1.0/26",
            1772942399,
            "2026-03-07 22:59:59 -05:00:00",
        ),
        (
            "EST5EDT,M3.2.0/-1,M11.1.0/26",
            1772942400,
            "2026-03-08 00:00:00 -04:00:00",
        ),
        (
            "EST5EDT,M3.2.0/-1,M11.1.0/26",
            1793599199,
            "2026-11-02 01:59:59 -04:00:00",
        ),
        (
            "EST5EDT,M3.2.0/-1,M11.1.0/26",
            1793599200,
            "2026-11-02 01:00:00 -05:00:00",
        ),
    ]);
}

#[test]
fn posix_strings_without_dst() {
    check(&[
        ("EST5", 1782864000, "2026-06-30 19:00:00 -05:00:00"),
        (":EST5", 1782864000, "2026-06-30 19:00:00 -05:00:00"),
        ("<+0330>-3:30", 1782864000, "2026-07-01 03:30:00 +03:30:00"),
        ("UTC0", 1782864000, "2026-07-01 00:00:00 +00:00:00"),
        ("GMT+5", 1782864000, "2026-06-30 19:00:00 -05:00:00"),
    ]);
}

#[test]
fn glibc_parser_quirks() {
    check(&[
        // Minutes and seconds clamp to 59, hours to 24.
        ("EST5:99:99", 1782864000, "2026-06-30 18:00:01 -05:59:59"),
        // sscanf("%hu") accepts "-5" and wraps it to 65531, clamped to 24.
        ("EST+-5", 1782864000, "2026-06-30 00:00:00 -24:00:00"),
        // Bad DST name: zeroed rules make DST (offset 0) nearly all year.
        ("EST5x", 1782864000, "2026-07-01 00:00:00 +00:00:00"),
        ("EST5x", 1767236400, "2025-12-31 22:00:00 -05:00:00"),
        // Half-parsed Mm.n.d rule (month 0).
        ("EST5EDT,M", 1672808399, "2023-01-03 23:59:59 -05:00:00"),
        ("EST5EDT,M", 1672808400, "2023-01-04 01:00:00 -04:00:00"),
    ]);
}

#[test]
fn dst_name_without_rules_uses_posixrules() {
    if !have_zoneinfo() || !present("/usr/share/zoneinfo/posixrules") {
        return;
    }
    check(&[
        // EST5EDT is itself a tzdata file.
        ("EST5EDT", 1772953199, "2026-03-08 01:59:59 -05:00:00"),
        ("EST5EDT", 1772953200, "2026-03-08 03:00:00 -04:00:00"),
        // glibc's __tzfile_default shifts the New York transitions.
        ("CET-1CEST", 1772974799, "2026-03-08 13:59:59 +01:00:00"),
        ("CET-1CEST", 1772974800, "2026-03-08 15:00:00 +02:00:00"),
        ("CET-1CEST", 1793519999, "2026-11-01 09:59:59 +02:00:00"),
        ("CET-1CEST", 1793520000, "2026-11-01 09:00:00 +01:00:00"),
        // After 2037 glibc uses posixrules' own footer (US Eastern offsets).
        ("CET-1CEST", 2224713600, "2040-06-30 20:00:00 -04:00:00"),
        ("CET-1CEST", -3771187200, "1850-07-01 01:00:00 +01:00:00"),
        ("XST5XDT,", 1782864000, "2026-06-30 20:00:00 -04:00:00"),
    ]);
    // In a current database that file is New York's.
    let ny = read_file(NY.as_bytes());
    let zone = Zone::from_tz_value("EST5EDT", ny.as_deref(), None);
    assert_eq!(render(&zone, -3786825600), "1849-12-31 19:03:58 -04:56:02");
}

#[test]
fn unparsable_values_are_utc() {
    check(&[
        ("Mars/Olympus", 1782864000, "2026-07-01 00:00:00 +00:00:00"),
        ("+++", 1782864000, "2026-07-01 00:00:00 +00:00:00"),
        ("ABC", 1782864000, "2026-07-01 00:00:00 +00:00:00"),
        ("<A>5", 1782864000, "2026-07-01 00:00:00 +00:00:00"),
        (":", 1782864000, "2026-07-01 00:00:00 +00:00:00"),
    ]);
    assert_eq!(zone_from_value("+++"), Zone::utc());
    assert_eq!(Zone::utc().utc_offset_at(0), 0);
}

#[test]
fn corrupt_tzif_data_does_not_panic() {
    if !have_zoneinfo() {
        return;
    }
    let good = read_file(NY.as_bytes()).unwrap();
    assert!(parse_tzif(&good).is_some());
    for len in 0..good.len() {
        let _ = parse_tzif(&good[..len]);
    }
    let mut state: u32 = 12345;
    for _ in 0..2000 {
        let mut bytes = good.clone();
        for _ in 0..8 {
            state = state.wrapping_mul(1_103_515_245).wrapping_add(12345);
            let i = (state as usize >> 4) % bytes.len();
            bytes[i] = (state >> 24) as u8;
        }
        if parse_tzif(&bytes).is_some() {
            let zone = Zone::from_tz_bytes(b"x", Some(&bytes), None);
            for t in [i64::MIN, -1 << 40, 0, 1_782_864_000, 1 << 40, i64::MAX] {
                let _ = zone.wall_time(t);
            }
        }
    }
    for garbage in ["", "TZif", "TZif2\0\0\0"] {
        assert!(parse_tzif(garbage.as_bytes()).is_none());
    }
}

/// Asserts `zone` behaves like an unreadable file (UTC for these values).
fn assert_utc_like(zone: &Zone, value: &str) {
    let garbage = zone_from_value("garbage-no-offset");
    assert_eq!(*zone, garbage, "{value}");
    for t in [-1_000_000_000, 0, 1_782_864_000, 4_000_000_000] {
        assert_eq!(zone.utc_offset_at(t), 0, "{value} @{t}");
    }
}

fn tzif_header(version: u8, counts: [u32; 6]) -> Vec<u8> {
    let mut h = b"TZif".to_vec();
    h.push(version);
    h.extend_from_slice(&[0; 15]);
    for c in counts {
        h.extend_from_slice(&c.to_be_bytes());
    }
    assert_eq!(h.len(), 44);
    h
}

#[test]
fn huge_header_counts_do_not_allocate() {
    // [isutcnt, isstdcnt, leapcnt, timecnt, typecnt, charcnt]
    let v0 = tzif_header(0, [0, 0, 0, 0x7FFF_FFFF, 1, 0]);
    let mut v2 = tzif_header(b'2', [0, 0, 0, 0, 1, 0]);
    v2.extend_from_slice(&[0, 0, 0, 0, 0, 0]);
    v2.extend(tzif_header(b'2', [0, 0, 0x7FFF_FFFF, 0x7FFF_FFFF, 1, 0]));
    v2.extend_from_slice(b"\nUTC0\n");
    let mut v2_types = tzif_header(b'2', [0, 0, 0, 0, 1, 0]);
    v2_types.extend_from_slice(&[0, 0, 0, 0, 0, 0]);
    v2_types.extend(tzif_header(b'2', [0x7FFF_FFFF, 0, 0, 0, 0x7FFF_FFFF, 0]));
    let mut v0_types = tzif_header(0, [0x7FFF_FFFF, 0x7FFF_FFFF, 0, 0, 0x7FFF_FFFF, 0]);
    v0_types.extend_from_slice(&[0; 64]);

    for (name, bytes) in [
        ("v0", &v0),
        ("v2", &v2),
        ("v2_types", &v2_types),
        ("v0_types", &v0_types),
    ] {
        assert!(parse_tzif(bytes).is_none(), "{name}");
        let value = "/tmp/zone";
        assert_utc_like(&Zone::from_tz_value(value, Some(bytes), None), value);
    }
}

#[test]
fn minimal_tzif_files_still_parse() {
    let mut v0 = tzif_header(0, [0, 0, 0, 0, 1, 4]);
    v0.extend_from_slice(&[0, 0, 0x1c, 0x20, 0, 0]);
    v0.extend_from_slice(b"JST\0");
    let raw = parse_tzif(&v0).expect("v0 parses");
    assert_eq!(raw.file.types[0].offset, 7200);
    // One byte short of the data block.
    assert!(parse_tzif(&v0[..v0.len() - 1]).is_none());

    let mut v2 = v0.clone();
    v2[4] = b'2';
    v2.extend(tzif_header(b'2', [0, 0, 0, 0, 1, 4]));
    v2.extend_from_slice(&[0, 0, 0x1c, 0x20, 0, 0]);
    v2.extend_from_slice(b"JST\0");
    v2.extend_from_slice(b"\nJST-2\n");
    let raw = parse_tzif(&v2).expect("v2 parses");
    assert!(raw.file.footer.is_some());
}

#[test]
fn oversized_input_is_rejected() {
    let cap = 1000u64;
    assert_eq!(read_capped(vec![7; 1000], cap).unwrap().len(), 1000);
    assert!(read_capped(vec![7; 1001], cap).is_none());
    // An endless reader stops at cap + 1 bytes.
    assert_eq!(read_limit(cap), Some(1001));
    assert!(read_capped(Vec::new(), cap).unwrap().is_empty());
    assert_eq!(read_limit(u64::MAX), None);
}

#[test]
fn secure_mode_path_guard_matches_glibc() {
    for (value, allowed) in [
        ("/etc/localtime", true),
        ("/usr/share/zoneinfo/Asia/Tokyo", true),
        ("/usr/share/zoneinfoX/y", true),
        ("/usr/share/zoneinfo", true),
        ("/usr/share/zoneinf", false),
        ("/etc/localtime2", false),
        ("/tmp/x", false),
        ("Asia/Tokyo", true),
        ("posixrules", true),
        ("EST5EDT,M3.2.0,M11.1.0", true),
        ("../../etc/shadow", false),
        ("posix/../x", false),
        ("/usr/share/zoneinfo/../../../etc/shadow", false),
        ("..", true),
        ("a/..", true),
    ] {
        assert_eq!(path_allowed_in_secure_mode(value.as_bytes()), allowed, "{value}");
    }
}

#[test]
fn extreme_timestamps_do_not_panic() {
    for tz in [
        "EST5EDT,M3.2.0,M11.1.0",
        "AEST-10AEDT,M10.1.0,M4.1.0/3",
        "America/New_York",
    ] {
        let zone = zone_from_value(tz);
        for t in [i64::MIN, i64::MIN + 1, -1 << 50, 1 << 50, i64::MAX] {
            let _ = zone.wall_time(t);
            let _ = zone.utc_offset_at(t);
        }
    }
}

#[test]
fn cache_evicts_least_recently_used_entries() {
    let values: Vec<String> = (0..20u8)
        .map(|i| format!("X{}ST-{}", char::from(b'A' + i), i % 12))
        .collect();
    let mut cache = ZoneCache::new(4);
    for v in &values {
        assert_eq!(
            cached(&mut cache, v.as_bytes()),
            zone_from_bytes(v.as_bytes()),
            "{v}"
        );
        assert!(cache.len() <= 4);
    }
    assert_eq!(cache.len(), 4);
    // Keep an early value hot; it must survive further inserts.
    let hot = values[16].as_bytes();
    for v in &values[..8] {
        cached(&mut cache, hot);
        assert_eq!(
            cached(&mut cache, v.as_bytes()),
            zone_from_bytes(v.as_bytes()),
            "{v}"
        );
        assert!(cache.len() <= 4);
    }
    assert!(cache.holds_string(hot));
    assert!(
        !cache.holds_string(values[19].as_bytes())
    );
    for (i, v) in values.iter().enumerate() {
        // "-N" in a POSIX string means N hours east of UTC.
        let want = 3600 * (i as i32 % 12);
        assert_eq!(cached(&mut cache, v.as_bytes()).utc_offset_at(0), want, "{v}");
    }
    // Capacity 0 stores nothing but still resolves.
    let mut none = ZoneCache::new(0);
    assert_eq!(cached(&mut none, b"EST5").utc_offset_at(0), -5 * 3600);
    assert!(none.len() == 0);
    assert_eq!(cached(&mut none, b":"), Zone::utc());
}

#[test]
fn whole_lookups_match_uncached_resolution() {
    let id = |n: u64| FileId {
        dev: 1,
        ino: n,
        size: 3,
        mtime_sec: 4,
        mtime_nsec: 5,
        ctime_sec: 6,
        ctime_nsec: 7,
    };
    let files: Vec<Option<Vec<u8>>> =
        vec![Some(two_types(&[100, 200])), Some(b"garbage".to_vec()), None, Some(two_types(&[5]))];
    let see = |file: Option<usize>, rules: Option<usize>| Sight {
        probed: file.map(|n| id(n as u64)),
        outcome: match file {
            Some(n) => match &files[n] {
                Some(bytes) => Opened::Bytes(id(n as u64), bytes.clone()),
                None => Opened::Rejected(id(n as u64)),
            },
            None => Opened::Unusable,
        },
        rules_probe: rules.map(|n| id(n as u64)),
        rules: rules.and_then(|n| files[n].clone()),
    };
    let content = |n: Option<usize>| n.and_then(|n| files[n].as_deref());
    for capacity in [0, 1, 2, 64] {
        let mut cache = ZoneCache::new(capacity);
        for round in 0..3 {
            for value in ["EST5EDT", "ABC5", "Some/Zone", ":", "CET-1CEST,M3.5.0,M10.5.0/3"] {
                for file in [None, Some(0), Some(1), Some(2), Some(3)] {
                    for rules in [None, Some(0), Some(1), Some(3)] {
                        let dir: &[u8] = if round == 1 { b"/other" } else { b"/z" };
                        let zone = cache.get(value.as_bytes(), dir, see(file, rules));
                        let anew =
                            Zone::from_tz_bytes(value.as_bytes(), content(file), content(rules));
                        assert_eq!(zone, anew, "{value} {file:?} {rules:?}");
                        assert!(cache.len() <= capacity);
                    }
                }
            }
        }
    }
}

#[test]
fn cache_matches_uncached_resolution() {
    let mut cache = ZoneCache::new(3);
    let values = [
        "America/New_York",
        ":Europe/Paris",
        "posix/Asia/Tokyo",
        "CET-1CEST",
        "EST5EDT,M3.2.0,M11.1.0",
        "Mars/Olympus",
        "America",
        "right/UTC",
        "EST5\0junk",
    ];
    for _ in 0..3 {
        for v in values {
            assert_eq!(cached(&mut cache, v.as_bytes()), zone_from_value(v), "{v}");
        }
    }
}


// Laws and edges.

fn posix(value: &str) -> PosixTz {
    parse_tz_string(value.as_bytes()).tz
}

#[test]
fn scanned_numbers() {
    assert_eq!(scan_hu(b"12:", 0), Some((12, 2)));
    assert_eq!(scan_hu(b"x", 0), None);
    assert_eq!(scan_hu(b"-5", 0), Some((65531, 2)));
    let mut vals = [0u16; 3];
    scan_hms(b"5:30:15,", 0, &mut vals);
    assert_eq!(vals, [5, 30, 15]);
}

#[test]
fn names_and_offsets_of_strings() {
    assert_eq!(parse_tzname(b"EST5", 0), Some(3));
    assert_eq!(parse_tzname(b"<+03>-3", 0), Some(5));
    assert_eq!(parse_tzname(b"AB5", 0), None);
    assert_eq!(parse_offset(b"5", 0, None), Some((-18000, 1)));
    assert_eq!(parse_offset(b"-3:30", 0, None), Some((12600, 5)));
    assert_eq!(parse_offset(b",", 0, Some(3600)), Some((7200, 0)));
    assert_eq!(parse_offset(b",", 0, None), None);
}

#[test]
fn rules_of_strings() {
    let tz = posix("EST5EDT,M3.2.0,M11.1.0");
    // The rule beside each offset says when that offset ends.
    assert_eq!((tz.standard.m, tz.standard.n, tz.standard.d), (3, 2, 0));
    assert_eq!((tz.daylight.m, tz.daylight.n, tz.daylight.d), (11, 1, 0));
    assert_eq!((tz.standard.offset, tz.daylight.offset), (-18000, -14400));
    assert_eq!(tz.standard.secs, 7200);
    let blank = Rule { kind: RuleKind::J0, m: 0, n: 0, d: 0, secs: 0, offset: 0 };
    let (rule, end) = parse_rule(b",J60/3", 0, true, blank);
    assert_eq!(end, Some(6));
    assert_eq!((rule.kind, rule.d, rule.secs), (RuleKind::J1, 60, 10800));
    let (rule, _) = parse_rule(b",59", 0, true, blank);
    assert_eq!((rule.kind, rule.d), (RuleKind::J0, 59));
}

#[test]
fn years_and_months() {
    assert!(is_leap(2000) && is_leap(2024) && !is_leap(1900) && !is_leap(2023));
    assert_eq!(utc_year(0), 1970);
    assert_eq!(utc_year(-1), 1969);
    assert_eq!(utc_year(1_782_864_000), 2026);
    assert_eq!(mon_yday(0), 0);
    assert_eq!(mon_yday(12), 365);
}

#[test]
fn change_of_a_month_rule() {
    // The second Sunday of March 2026 is the 8th.
    let tz = posix("EST5EDT,M3.2.0,M11.1.0");
    assert_eq!(compute_change(&tz.standard, 2026), 1_772_953_200);
    assert_eq!(compute_change(&tz.daylight, 2026), 1_793_512_800);
    // J60 is the first of March in every year.
    let tz = posix("EST5EDT,J60,J300");
    assert_eq!(compute_change(&tz.standard, 2024), 1_709_276_400);
    // Every year has its change; those before 1970 count from 1970.
    let zero = posix("UTC0DST,0/0,100/0");
    assert_eq!(compute_change(&zero.standard, 1970), 0);
    assert_eq!(compute_change(&zero.standard, i64::MIN), 0);
    let days = 365 * (i64::MAX as i128 - 1970) + ((i64::MAX as i128 - 1) / 4 - 492)
        - ((i64::MAX as i128 - 1) / 100 - 19) + ((i64::MAX as i128 - 1) / 400 - 4);
    assert_eq!(compute_change(&zero.standard, i64::MAX), days * 86400);
}

#[test]
fn standard_only_strings_have_one_offset() {
    let tz = posix("ABC5");
    for t in [i64::MIN, -1, 0, 1_782_864_000, i64::MAX] {
        assert_eq!(tz.offset_at(t), -18000);
    }
}

#[test]
fn unreadable_strings_have_no_offset() {
    for value in ["", "AB", "5", "ABC"] {
        for t in [-1, 0, 1_782_864_000] {
            assert_eq!(posix(value).offset_at(t), 0, "{value}");
        }
    }
}

fn two_types(transitions: &[i64]) -> Vec<u8> {
    // A version 1 block without anything, then a version 2 block with an
    // offset of one and of two hours in turn.
    let n = transitions.len() as u32;
    let mut b = tzif_header(b'2', [0, 0, 0, 0, 1, 4]);
    b.extend_from_slice(&[0, 0, 0, 0, 0, 0]);
    b.extend_from_slice(b"UTC\0");
    b.extend(tzif_header(b'2', [0, 0, 0, n, 2, 8]));
    for t in transitions {
        b.extend_from_slice(&t.to_be_bytes());
    }
    for i in 0..n {
        b.push((i % 2) as u8);
    }
    b.extend_from_slice(&[0, 0, 0x0e, 0x10, 0, 0]);
    b.extend_from_slice(&[0, 0, 0x1c, 0x20, 1, 4]);
    b.extend_from_slice(b"AAA\0BBB\0");
    b.extend_from_slice(b"\n\n");
    b
}

#[test]
fn offsets_are_constant_between_transitions() {
    let bytes = two_types(&[100, 200, 300]);
    let raw = parse_tzif(&bytes).unwrap();
    assert_eq!(raw.file.transitions, vec![100, 200, 300]);
    let zone = Zone::from_tz_bytes(b"x", Some(&bytes), None);
    for t in [100, 150, 199] {
        assert_eq!(zone.utc_offset_at(t), 3600);
    }
    for t in [200, 299] {
        assert_eq!(zone.utc_offset_at(t), 7200);
    }
    assert_eq!(raw.file.search(150), 1);
    assert_eq!(raw.file.search(200), 2);
    assert_eq!(raw.file.local(250), (7200, 0));
}

#[test]
fn headers_of_zone_files() {
    let h = tzif_header(b'2', [1, 2, 3, 4, 5, 6]);
    let read = read_header(&h, 0).unwrap();
    assert_eq!((read.version, read.isutcnt, read.isstdcnt), (b'2', 1, 2));
    assert_eq!((read.leapcnt, read.timecnt, read.typecnt, read.charcnt), (3, 4, 5, 6));
    assert_eq!(data_block_len(&read, 8), 4 * 8 + 4 + 5 * 6 + 6 + 3 * 12 + 2 + 1);
    assert!(read_header(&h[1..], 0).is_none());
}

#[test]
fn rules_file_takes_the_offsets_of_the_string() {
    let bytes = two_types(&[100_000, 200_000]);
    let raw = parse_tzif(&bytes).unwrap();
    let file = posixrules_default(&raw, -18000, -14400).unwrap();
    assert_eq!(file.types[0].offset, -18000);
    assert_eq!(file.types[1].offset, -14400);
    assert!(needs_posixrules(b"EST5EDT") && !needs_posixrules(b"EST5"));
    assert!(usable_file(Some(&bytes)).is_some());
    assert!(usable_file(Some(b"no")).is_none());
}

#[test]
fn values_directories_and_paths() {
    assert_eq!(normalize_value(b":EST5"), b"EST5");
    assert_eq!(normalize_value(b"::EST5"), b":EST5");
    assert_eq!(tzdir(false, Some(b"/zones")), b"/zones");
    assert_eq!(tzdir(true, Some(b"/zones")), b"/usr/share/zoneinfo");
    assert_eq!(tzdir(false, Some(b"")), b"/usr/share/zoneinfo");
    assert_eq!(zone_path(b"/z", b"A/B", false).unwrap(), b"/z/A/B");
    assert_eq!(zone_path(b"/z", b"/tmp/x", false).unwrap(), b"/tmp/x");
    assert_eq!(zone_path(b"/z", b"/tmp/x", true), None);
    assert!(!secure_mode(1, 1, 2, 2) && secure_mode(1, 0, 2, 2) && secure_mode(1, 1, 2, 0));
    assert!(same_bytes(b"ab", b"ab") && !same_bytes(b"ab", b"abc"));
    assert_eq!(copy_bytes(b"ab"), b"ab");
}

#[test]
fn only_small_regular_files_are_read() {
    assert_eq!(judge_handle(true, MAX_TZIF_BYTES), HandleVerdict::Reopen);
    assert_eq!(judge_handle(true, MAX_TZIF_BYTES + 1), HandleVerdict::Reject);
    assert_eq!(judge_handle(false, 0), HandleVerdict::Unusable);
    let id = FileId {
        dev: 1,
        ino: 2,
        size: 3,
        mtime_sec: 4,
        mtime_nsec: 5,
        ctime_sec: 6,
        ctime_nsec: 7,
    };
    assert!(same_file(true, 1, 2, &id) && !same_file(true, 1, 3, &id) && !same_file(false, 1, 2, &id));
    assert_eq!(opened_bytes(Opened::Bytes(id, vec![1])), Some(vec![1]));
    assert_eq!(opened_bytes(Opened::Rejected(id)), None);
    assert_eq!(opened_bytes(Opened::Unusable), None);
}

#[test]
fn wall_clock_stops_at_the_last_years() {
    assert_eq!(fmt_time(&wall_clock(0)), "1970-01-01 00:00:00");
    assert_eq!(wall_clock(i128::MAX).year, 262142);
    assert_eq!(wall_clock(i128::MIN).year, -262143);
}

#[test]
fn a_changed_file_is_opened_again() {
    let first = FileId {
        dev: 1,
        ino: 2,
        size: 3,
        mtime_sec: 4,
        mtime_nsec: 5,
        ctime_sec: 6,
        ctime_nsec: 7,
    };
    let second = FileId { mtime_sec: 40, ..first };
    let bytes = two_types(&[100, 200]);
    let mut cache = ZoneCache::new(2);
    assert!(matches!(cache.start(b"/f", b"/z", Some(first)), Step::Open));
    let zone = match cache.opened(b"/f", b"/z", Opened::Bytes(first, bytes.clone())) {
        Step::Done(zone) => zone,
        _ => panic!("not done"),
    };
    assert_eq!(zone, Zone::from_tz_bytes(b"/f", Some(&bytes), None));
    // The same file under another name is the same zone.
    match cache.start(b"/g", b"/z", Some(first)) {
        Step::Done(again) => assert_eq!(again, zone),
        _ => panic!("not done"),
    }
    assert_eq!((cache.len(), cache.file_entries()), (1, 1));
    assert!(matches!(cache.start(b"/f", b"/z", Some(second)), Step::Open));
    // Too large a file falls through to the string, which is UTC here.
    match cache.opened(b"/f", b"/z", Opened::Rejected(second)) {
        Step::Done(zone) => assert_eq!(zone, Zone::utc()),
        _ => panic!("not done"),
    }
}
