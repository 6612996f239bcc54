//! The clock and the scheduler.

use nix::fcntl::{open, OFlag};
use nix::sys::stat::Mode;
use nix::unistd::read;

use crontab_rs::clock::{
    at_epoch, local_minute, next_minute_epoch, now, wall_time, wall_time_in_tz,
};
use crontab_rs::config::Config;
use crontab_rs::crontab::{Crontab, Entry, Format};
use crontab_rs::daemon::{
    cluster_allows, due, note_failure, plan, skip_repeated_wild, wait_step, wake_time, Dispatch,
    DueJob, JobSlots, Moment, Pass, ReadFailure, Scheduler, Ticker, Wait, MAX_JOBS_PER_USER,
};
use crontab_rs::database::{Database, MetaKey};
use crontab_rs::job::Runner;
use crontab_rs::mail::Mailer;
use crontab_rs::zone::Zone;

#[test]
fn plan_normal_and_early() {
    assert_eq!(plan(100, 101), (101, vec![(101, Pass::All)]));
    assert_eq!(plan(100, 100), (100, vec![(100, Pass::WildOnly)]));
}

#[test]
fn plan_catch_up() {
    let (v, w) = plan(100, 104);
    assert_eq!(v, 104);
    assert_eq!(
        w,
        vec![
            (101, Pass::All),
            (102, Pass::All),
            (103, Pass::All),
            (104, Pass::All)
        ]
    );
}

#[test]
fn plan_dst_forward() {
    let (v, w) = plan(100, 160);
    assert_eq!(v, 160);
    assert_eq!(w.len(), 60);
    assert_eq!(w[0], (101, Pass::FixedOnly));
    assert_eq!(w[58], (159, Pass::FixedOnly));
    assert_eq!(w[59], (160, Pass::All));
}

#[test]
fn plan_dst_back() {
    // Clock went back an hour: wildcard jobs keep running, virtual time
    // holds until the clock catches up.
    assert_eq!(plan(160, 101), (160, vec![(101, Pass::WildOnly)]));
    assert_eq!(plan(160, 160), (160, vec![(160, Pass::WildOnly)]));
    assert_eq!(plan(160, 161), (161, vec![(161, Pass::All)]));
}

#[test]
fn plan_large_jump_resyncs() {
    assert_eq!(plan(100, 10_000), (10_000, vec![(10_000, Pass::All)]));
    assert_eq!(plan(10_000, 100), (100, vec![(100, Pass::All)]));
}

#[test]
fn early_wake_does_not_repeat_wildcards() {
    let mut last = None;
    // Normal tick at 161, then an early wake still in minute 161.
    let (v, w) = plan(160, 161);
    assert_eq!(skip_repeated_wild(w, &mut last), vec![(161, Pass::All)]);
    let (_, w) = plan(v, 161);
    assert!(skip_repeated_wild(w, &mut last).is_empty());

    // Backward step then catch-up: minute 160 is a new real minute after
    // 159 and its wildcard jobs run.
    let mut last = Some(161);
    let (v, w) = plan(161, 159);
    assert_eq!(
        skip_repeated_wild(w, &mut last),
        vec![(159, Pass::WildOnly)]
    );
    let (v, w) = plan(v, 160);
    assert_eq!(
        skip_repeated_wild(w, &mut last),
        vec![(160, Pass::WildOnly)]
    );
    let (_, w) = plan(v, 161);
    assert_eq!(
        skip_repeated_wild(w, &mut last),
        vec![(161, Pass::WildOnly)]
    );
    // FixedOnly does not count as a wildcard evaluation.
    let mut last = Some(101);
    let w = vec![(101, Pass::FixedOnly), (102, Pass::All)];
    assert_eq!(skip_repeated_wild(w.clone(), &mut last), w);
    assert_eq!(last, Some(102));
}

#[test]
fn cluster_decision() {
    let nf = || Err(ReadFailure::NotFound);
    assert!(cluster_allows(false, &nf(), "host"));
    assert!(!cluster_allows(true, &nf(), "host"));
    assert!(!cluster_allows(
        true,
        &Err(ReadFailure::Other(13)),
        "host"
    ));
    assert!(!cluster_allows(true, &Ok("other\n".into()), "host"));
    assert!(cluster_allows(true, &Ok("  host \n".into()), "host"));
}

#[test]
fn next_minute() {
    assert_eq!(next_minute_epoch(100, 0), 120);
    assert_eq!(next_minute_epoch(120, 0), 180);
    assert_eq!(next_minute_epoch(100, 30), 150);
}

#[test]
fn wall_time_roundtrip() {
    let t = wall_time(29_820_249);
    assert_eq!(t.second, 0);
    let (m, _) = at_epoch(0);
    let w = wall_time(m);
    assert!(w.year == 1970 || w.year == 1969);
}

#[test]
fn tz_conversion() {
    let m = 29_820_240; // 2026-09-12 12:00 UTC
    let w = wall_time_in_tz(m, 3600, &Zone::utc()); // 12:00 local at +01:00
    assert_eq!(w.hour, 11);
    let w = wall_time_in_tz(m, 0, &Zone::from_tz_value("ABC5", None, None));
    assert_eq!((w.day, w.hour), (12, 7));
    if let Some(tokyo) = read_file("/usr/share/zoneinfo/Asia/Tokyo") {
        let w = wall_time_in_tz(m, 0, &Zone::from_tz_value("Asia/Tokyo", Some(&tokyo), None));
        assert_eq!((w.day, w.hour, w.minute), (12, 21, 0));
    }
}

/// The content of a file, if it is there.
fn read_file(path: &str) -> Option<Vec<u8>> {
    let fd = open(path, OFlag::O_RDONLY, Mode::empty()).ok()?;
    let mut out = Vec::new();
    let mut buf = [0u8; 4096];
    loop {
        let n = read(&fd, &mut buf).ok()?;
        if n == 0 {
            return Some(out);
        }
        out.extend_from_slice(&buf[..n]);
    }
}

#[test]
fn minutes_of_the_clock() {
    assert_eq!(local_minute(119, 0), 1);
    assert_eq!(local_minute(-1, 0), -1);
    assert_eq!(local_minute(0, 3600), 60);
    let (minute, gmtoff) = now();
    // Some time after 2020 and a day at most from UTC.
    assert!(minute > 26_000_000 && gmtoff.abs() < 86_400);
    let (epoch, off) = at_epoch(0);
    assert_eq!(epoch, (off as i64).div_euclid(60));
}

#[test]
fn job_slot_limits() {
    let mut slots = JobSlots::new(3, 2);
    let a1 = slots.try_acquire("a").unwrap();
    let a2 = slots.try_acquire("a").unwrap();
    assert!(slots.try_acquire("a").is_none(), "per-user cap");
    let b1 = slots.try_acquire("b").unwrap();
    assert!(slots.try_acquire("c").is_none(), "total cap");
    assert_eq!(slots.in_use("a"), (3, 2));
    slots.release(a1);
    assert_eq!(slots.in_use("a"), (2, 1));
    let a3 = slots.try_acquire("a").unwrap();
    slots.release(a2);
    slots.release(a3);
    slots.release(b1);
    assert_eq!(slots.in_use("a"), (0, 0));
}

fn config() -> Config {
    Config {
        spool_dir: "/spool".into(),
        system_crontab: "/crontab".into(),
        cron_d_dir: "/cron.d".into(),
        ..Config::default()
    }
}

fn runner() -> Runner {
    let cfg = config();
    Runner {
        default_path: cfg.default_path.clone(),
        default_shell: cfg.default_shell.clone(),
        inherit_path: false,
        mailer: Mailer::Off,
        syslog_output: false,
        mail_charset: "UTF-8".into(),
        hostname: "here".into(),
    }
}

fn key() -> MetaKey {
    MetaKey { mtime: 1, mtime_nsec: 2, ctime: 3, ctime_nsec: 4 }
}

fn load(db: &mut Database, path: &str, owner: Option<&str>, text: &str) {
    let format = if owner.is_some() { Format::User } else { Format::System };
    let owner = owner.map(str::to_string);
    let outcome =
        db.text_read(path, format, owner, path.to_string(), key(), false, &Vec::new(), text);
    assert!(outcome.changed);
}

fn two_tabs() -> Database {
    let mut db = Database::new(config(), true);
    load(&mut db, "/crontab", None, "* * * * * me touch a\n");
    load(&mut db, "/spool/me", Some("me"), "* * * * * touch b\n");
    db
}

fn moment(minute: i64) -> Moment {
    Moment { minute, vgmtoff: 0, gmtoff: 0 }
}

fn started(sched: &mut Scheduler, read: Result<String, ReadFailure>) -> Vec<String> {
    let round = sched.run_minute(&read, &moment(29_820_240), Pass::All, &Vec::new());
    round
        .jobs
        .iter()
        .map(|j| sched.db.tab(j.tab).crontab.entries[j.entry].command.clone())
        .collect()
}

#[test]
fn cluster_mode_gates_user_crontabs() {
    let mut sched = Scheduler::new(two_tabs(), runner(), true, false);
    assert_eq!(sched.db.tab_count(), 2);
    assert_eq!(started(&mut sched, Err(ReadFailure::NotFound)), ["touch a"]);
    assert_eq!(started(&mut sched, Ok("not-this-host\n".into())), ["touch a"]);
    assert_eq!(started(&mut sched, Ok("here\n".into())), ["touch a", "touch b"]);
    let mut sched = Scheduler::new(two_tabs(), runner(), false, false);
    assert_eq!(started(&mut sched, Err(ReadFailure::NotFound)), ["touch a", "touch b"]);
}

#[test]
fn read_failures_are_logged_once() {
    let mut last = None;
    let read = |f| Err::<String, ReadFailure>(f);
    assert!(!note_failure(&mut last, &read(ReadFailure::NotFound)));
    assert!(note_failure(&mut last, &read(ReadFailure::Other(13))));
    assert!(!note_failure(&mut last, &read(ReadFailure::Other(13))));
    assert!(note_failure(&mut last, &read(ReadFailure::Other(5))));
    assert!(!note_failure(&mut last, &Ok("x".into())));
    assert!(note_failure(&mut last, &read(ReadFailure::Other(5))));
    let mut sched = Scheduler::new(two_tabs(), runner(), true, false);
    let bad = Err(ReadFailure::Other(13));
    assert!(sched.run_reboot(&bad).log_failure);
    assert!(!sched.run_reboot(&bad).log_failure);
}

fn entry(text: &str) -> Entry {
    Crontab::parse(text, Format::User).unwrap().entries.remove(0)
}

#[test]
fn passes_choose_by_wildcards() {
    let wild = entry("* * * * * x\n");
    let fixed = entry("0 12 * * * x\n");
    let at = moment(29_820_240); // 12:00
    let zones = Vec::new();
    for (pass, w, f) in [
        (Pass::All, true, true),
        (Pass::WildOnly, true, false),
        (Pass::FixedOnly, false, true),
    ] {
        assert_eq!(due(&wild, &at, pass, &zones), w);
        assert_eq!(due(&fixed, &at, pass, &zones), f);
    }
    assert!(!due(&fixed, &moment(29_820_241), Pass::All, &zones));
}

#[test]
fn zones_decide_for_their_jobs() {
    let job = entry("CRON_TZ=Asia/Tokyo\n0 21 * * * x\n");
    let zones = vec![(
        "Asia/Tokyo".to_string(),
        Zone::from_tz_value("JST-9", None, None),
    )];
    let at = moment(29_820_240);
    assert!(due(&job, &at, Pass::All, &zones));
    // An unknown zone is UTC.
    assert!(!due(&job, &at, Pass::All, &Vec::new()));
    // Such jobs rest while the offset is changing, others do not.
    let changing = Moment { vgmtoff: 0, gmtoff: 3600, ..at };
    assert!(!due(&job, &changing, Pass::All, &zones));
    let empty = entry("CRON_TZ=\n0 12 * * * x\n");
    assert!(due(&empty, &at, Pass::All, &zones));
    assert!(!due(&empty, &changing, Pass::All, &zones));
    assert!(due(&entry("0 12 * * * x\n"), &changing, Pass::All, &zones));
}

#[test]
fn delays_apply_where_they_are_honoured() {
    let mut db = two_tabs();
    db.set_delays("/spool/me", vec![7]);
    let mut sched = Scheduler::new(db, runner(), false, true);
    let read = Err(ReadFailure::NotFound);
    let round = sched.run_minute(&read, &moment(0), Pass::All, &Vec::new());
    assert_eq!(
        round.jobs,
        [DueJob { tab: 0, entry: 0, delay: 0 }, DueJob { tab: 1, entry: 0, delay: 7 }]
    );
    sched.honor_delay = false;
    let round = sched.run_minute(&read, &moment(0), Pass::All, &Vec::new());
    assert_eq!(round.jobs[1].delay, 0);
}

#[test]
fn each_job_has_its_own_delay() {
    let mut db = Database::new(config(), true);
    load(&mut db, "/spool/me", Some("me"), "* * * * * a\nRANDOM_DELAY=10\n* * * * * b\n");
    let tab = db.tab_at("/spool/me").unwrap();
    let max: Vec<Option<u32>> = tab.crontab.entries.iter().map(|e| e.random_delay).collect();
    assert_eq!(max, [None, Some(10)]);
    db.set_delays("/spool/me", vec![0, 5]);
    db.set_delays("/spool/other", vec![9]);
    let mut sched = Scheduler::new(db, runner(), false, true);
    let round = sched.run_minute(&Err(ReadFailure::NotFound), &moment(0), Pass::All, &Vec::new());
    assert_eq!(
        round.jobs,
        [DueJob { tab: 0, entry: 0, delay: 0 }, DueJob { tab: 0, entry: 1, delay: 5 }]
    );
}

#[test]
fn reboot_jobs_are_collected() {
    let mut db = Database::new(config(), true);
    load(&mut db, "/spool/me", Some("me"), "* * * * * a\n@reboot b\n");
    let mut sched = Scheduler::new(db, runner(), false, true);
    let round = sched.run_reboot(&Err(ReadFailure::NotFound));
    assert_eq!(round.jobs, [DueJob { tab: 0, entry: 1, delay: 0 }]);
}

#[test]
fn jobs_beyond_the_cap_are_failures() {
    let mut sched = Scheduler::new(two_tabs(), runner(), false, false);
    let job = DueJob { tab: 1, entry: 0, delay: 0 };
    let mut held = Vec::new();
    for _ in 0..MAX_JOBS_PER_USER {
        match sched.dispatch(&job) {
            Dispatch::Start(user, slot) => {
                assert_eq!(user, "me");
                held.push(slot);
            }
            _ => panic!("not started"),
        }
    }
    assert!(matches!(sched.dispatch(&job), Dispatch::Full(user) if user == "me"));
    assert_eq!(sched.take_dispatch_failures(), 1);
    assert_eq!(sched.take_dispatch_failures(), 0);
    sched.finished(held.pop().unwrap());
    let slot = match sched.dispatch(&job) {
        Dispatch::Start(_, slot) => slot,
        _ => panic!("not started"),
    };
    sched.spawn_failed(slot);
    assert_eq!(sched.take_dispatch_failures(), 1);
    assert_eq!(sched.slots.in_use("me"), (63, 63));
}

#[test]
fn nobody_runs_a_job_without_a_user() {
    let mut db = Database::new(config(), true);
    let text = "* * * * * x\n";
    db.text_read("/f", Format::User, None, "f".into(), key(), false, &Vec::new(), text);
    let mut sched = Scheduler::new(db, runner(), false, false);
    let job = DueJob { tab: 0, entry: 0, delay: 0 };
    assert!(matches!(sched.dispatch(&job), Dispatch::NoUser));
    assert_eq!(sched.take_dispatch_failures(), 0);
}

#[test]
fn a_clock_change_keeps_the_earlier_offset() {
    let mut ticker = Ticker::new(100, 0);
    // DST starts: sixty minutes are skipped.
    let work = ticker.tick(160, 3600);
    assert_eq!(work.len(), 60);
    assert_eq!((work[0].minute, work[0].pass, work[0].vgmtoff), (101, Pass::FixedOnly, 0));
    assert_eq!((work[59].minute, work[59].pass, work[59].vgmtoff), (160, Pass::All, 3600));
    assert_eq!((ticker.virtual_time, ticker.gmtoff), (160, 3600));
    // Waking early in the same minute runs nothing again.
    assert!(ticker.tick(160, 3600).is_empty());
    // DST ends: fixed jobs are not repeated.
    let work = ticker.tick(101, 0);
    assert_eq!((work.len(), work[0].pass), (1, Pass::WildOnly));
    assert_eq!(ticker.virtual_time, 160);
}

#[test]
fn waiting_for_the_minute() {
    assert_eq!(wake_time(100, 0), 121);
    assert_eq!(wait_step(20), Wait::Sleep(1000));
    assert_eq!(wait_step(0), Wait::Stop);
    assert_eq!(wait_step(66), Wait::Stop);
}

#[test]
fn fixed_jobs_run_once_whatever_the_clock_does() {
    let mut virtual_time = 100;
    let mut fixed = Vec::new();
    for now in [101, 103, 60, 61, 103, 104, 200, 140, 201] {
        let (after, work) = plan(virtual_time, now);
        fixed.extend(work.iter().filter(|w| w.1 != Pass::WildOnly).map(|w| w.0));
        virtual_time = after;
    }
    assert_eq!(fixed, (101..=201).collect::<Vec<i64>>());
}
