//! The set of loaded crontabs, over files that stand in memory.

use std::collections::BTreeMap;

use crontab_rs::config::Config;
use crontab_rs::crontab::{Format, LimitError};
use crontab_rs::database::{
    check_file_security, cron_d_name_ok, spool_dir_secure, spool_name_ok, Database, Examined,
    FileMeta, Listing, Lookup, MetaKey, OpenFailure, Report, SecurityError,
};

const ME: u32 = 1000;

#[derive(Clone)]
struct File {
    meta: FileMeta,
    link: bool,
    text: String,
}

struct Machine {
    cfg: Config,
    files: BTreeMap<String, File>,
    spool_readable: bool,
    clock: i64,
    /// The random factor of delays.
    scale: f64,
}

fn config() -> Config {
    Config {
        spool_dir: "/spool".into(),
        system_crontab: "/crontab".into(),
        cron_d_dir: "/cron.d".into(),
        ..Config::default()
    }
}

fn lookup(user: &str) -> Lookup {
    match user {
        "me" => Lookup::Found(ME),
        "down" => Lookup::Failed,
        _ => Lookup::Missing,
    }
}

impl Machine {
    fn new() -> Machine {
        Machine {
            cfg: config(),
            files: BTreeMap::new(),
            spool_readable: true,
            clock: 0,
            scale: 0.0,
        }
    }

    fn tick(&mut self) -> MetaKey {
        self.clock += 1;
        MetaKey { mtime: self.clock, mtime_nsec: 0, ctime: self.clock, ctime_nsec: 0 }
    }

    fn write(&mut self, path: &str, uid: u32, mode: u32, text: &str) {
        let key = self.tick();
        let meta = FileMeta { key, is_file: true, mode, uid, nlink: 1 };
        self.files.insert(path.into(), File { meta, link: false, text: text.into() });
    }

    fn names(&self, dir: &str) -> Vec<String> {
        let start = format!("{dir}/");
        self.files.keys().filter_map(|p| p.strip_prefix(&start)).map(str::to_string).collect()
    }

    /// One scan; says whether anything changed, and what was logged.
    fn refresh(&self, db: &mut Database) -> (bool, Vec<Report>) {
        let cron_d = Listing::Names(self.names("/cron.d"));
        let spool = if self.spool_readable {
            Listing::Names(self.names("/spool"))
        } else {
            Listing::Failed
        };
        let plan = db.plan_refresh(self.files.contains_key("/crontab"), &cron_d, true, &spool);
        let mut changed = false;
        let mut log = Vec::new();
        for c in &plan {
            let zero = MetaKey { mtime: 0, mtime_nsec: 0, ctime: 0, ctime_nsec: 0 };
            let outcome = match self.files.get(&c.path) {
                None => Some(db.open_failed(&c.path, OpenFailure::NotFound, zero)),
                Some(f) if f.link => Some(db.open_failed(&c.path, OpenFailure::Loop, f.meta.key)),
                Some(f) => {
                    let found = c.owner.as_deref().map_or(Lookup::Missing, lookup);
                    match db.examine(&c.path, c.format, c.owner.is_some(), &f.meta, found) {
                        Examined::Current => None,
                        Examined::Refused(o) => Some(o),
                        Examined::Read if !f.meta.is_file => {
                            Some(db.read_failed(&c.path, f.meta.key))
                        }
                        Examined::Read => {
                            let o = db.text_read(
                                &c.path,
                                c.format,
                                c.owner.clone(),
                                c.label.clone(),
                                f.meta.key,
                                f.meta.uid == 0,
                                &Vec::new(),
                                &f.text,
                            );
                            let delays = db.tab_at(&c.path).map(|tab| {
                                let scaled = |max: u32| (f64::from(max) * self.scale).round() as u32;
                                let max = tab.crontab.entries.iter().map(|e| e.random_delay);
                                max.map(|d| d.map_or(0, scaled)).collect()
                            });
                            if let Some(delays) = delays {
                                db.set_delays(&c.path, delays);
                            }
                            Some(o)
                        }
                    }
                }
            };
            if let Some(o) = outcome {
                changed |= o.changed;
                log.push(o.report);
            }
        }
        let seen = db.seen_paths(&plan, false, !self.spool_readable);
        changed |= !db.unload_missing(&seen).is_empty();
        (changed, log)
    }
}

#[test]
fn loads_and_tracks_changes() {
    let mut m = Machine::new();
    m.write("/crontab", 0, 0o100644, "* * * * * root echo sys\n");
    m.write("/cron.d/job", 0, 0o100644, "* * * * * root echo d\n");
    m.write("/cron.d/job.rpmsave", 0, 0o100644, "* * * * * root nope\n");
    m.write("/cron.d/.hidden", 0, 0o100644, "garbage\n");
    m.write("/spool/me", ME, 0o100644, "* * * * * echo user\n");
    m.write("/spool/no-such-user-xyz", ME, 0o100644, "* * * * * echo x\n");

    m.scale = 0.5;
    let mut db = Database::new(m.cfg.clone(), true);
    assert!(m.refresh(&mut db).0);
    assert_eq!(db.tab_count(), 3);
    assert!(!m.refresh(&mut db).0);

    m.write("/spool/me", ME, 0o100644, "RANDOM_DELAY=10\n0 1 * * * echo user2\n");
    assert!(m.refresh(&mut db).0);
    let tab = db.tab_at("/spool/me").unwrap();
    assert_eq!(tab.crontab.entries[0].command, "echo user2");
    assert_eq!(tab.delay(0), 5);
    assert_eq!(tab.owner.as_deref(), Some("me"));

    // Break it: entry is unloaded, error logged once.
    m.write("/spool/me", ME, 0o100644, "99 * * * * echo bad\n");
    let (changed, log) = m.refresh(&mut db);
    assert!(changed);
    assert!(log.iter().any(|r| matches!(r, Report::BadCrontab(e) if e.len() == 1)));
    assert!(db.tab_at("/spool/me").is_none());
    let (changed, log) = m.refresh(&mut db);
    assert!(!changed);
    assert!(!log.iter().any(|r| matches!(r, Report::BadCrontab(_))));

    m.files.remove("/cron.d/job");
    assert!(m.refresh(&mut db).0);
    assert_eq!(db.tab_count(), 1);
}

#[test]
fn crond_keeps_good_lines_when_one_is_bad() {
    let mut m = Machine::new();
    m.write(
        "/cron.d/partly-bad",
        0,
        0o100644,
        "* * * * * me touch a\n99 * * * * me touch nope\n* * * * * me touch c\n* * * * * me touch unterminated",
    );
    let mut db = Database::new(m.cfg.clone(), true);
    let (changed, log) = m.refresh(&mut db);
    assert!(changed);
    let tab = db.tab_at("/cron.d/partly-bad").unwrap();
    let jobs: Vec<(usize, &str)> =
        tab.crontab.entries.iter().map(|e| (e.line, e.command.as_str())).collect();
    assert_eq!(jobs, [(1, "touch a"), (3, "touch c")]);
    let Report::Load(errors) = &log[0] else { panic!("{log:?}") };
    let said: Vec<String> =
        errors.iter().map(|e| format!("(CRON) {} ({})", e.error.log_message(), e.line)).collect();
    assert_eq!(said, ["(CRON) bad minute (2)", "(CRON) missing newline before EOF (4)"]);
    let (changed, log) = m.refresh(&mut db);
    assert!(!changed && log.is_empty());

    // Once more, now as a change of a loaded file, and down to no good line.
    m.write("/cron.d/partly-bad", 0, 0o100644, "x\n@daily me d\n");
    let (changed, log) = m.refresh(&mut db);
    assert!(changed && matches!(&log[0], Report::Reload(e) if e.len() == 1));
    assert_eq!(db.tab_at("/cron.d/partly-bad").unwrap().crontab.entries.len(), 1);
    m.write("/cron.d/partly-bad", 0, 0o100644, "A=1\nx\n");
    let (changed, log) = m.refresh(&mut db);
    assert!(changed && matches!(&log[0], Report::BadCrontab(e) if e[0].line == 2));
    assert!(db.tab_at("/cron.d/partly-bad").is_none());
}

#[test]
fn a_limit_keeps_a_partly_bad_file_out() {
    let mut m = Machine::new();
    let text = format!("{}99 * * * * x\n", "@daily x\n".repeat(10000));
    m.write("/spool/me", ME, 0o100600, &text);
    let mut db = Database::new(m.cfg.clone(), false);
    let (changed, log) = m.refresh(&mut db);
    assert!(!changed && db.tab_at("/spool/me").is_none());
    assert!(matches!(&log[0], Report::OverLimit(LimitError::Entries, e) if e.len() == 1));
}

#[test]
fn a_second_refresh_changes_nothing() {
    let mut m = Machine::new();
    m.write("/spool/me", ME, 0o100600, "* * * * * a\n99 * * * * b\n");
    m.write("/spool/gone", ME, 0o100600, "* * * * * a\n");
    m.write("/spool/down", 7, 0o100600, "* * * * * x\n");
    m.write("/cron.d/open", 0, 0o100666, "* * * * * root x\n");
    m.write("/cron.d/bad", 0, 0o100644, "bad\n");
    m.write("/crontab", 0, 0o100644, "* * * * * root x\n");
    let mut db = Database::new(m.cfg.clone(), false);
    assert!(m.refresh(&mut db).0);
    assert_eq!(db.tab_count(), 2);
    for _ in 0..2 {
        assert!(!m.refresh(&mut db).0);
        assert_eq!(db.tab_count(), 2);
    }
}

#[test]
fn security_checks() {
    let mut m = Machine::new();
    m.write("/spool/me", ME, 0o100644, "* * * * * echo user\n");
    let mut db = Database::new(m.cfg.clone(), false);
    m.refresh(&mut db);
    assert_eq!(db.tab_count(), 0, "world-readable spool file must be rejected");
    // Fixing just the mode moves ctime only.
    let f = m.files.get_mut("/spool/me").unwrap();
    f.meta.mode = 0o100600;
    f.meta.key.ctime += 1;
    m.refresh(&mut db);
    assert_eq!(db.tab_count(), 1);
    assert!(cron_d_name_ok("0hourly"));
    assert!(!cron_d_name_ok("job~"));
}

#[test]
fn rejects_hard_linked_spool_file() {
    let mut m = Machine::new();
    m.write("/spool/me", ME, 0o100600, "* * * * * echo user\n");
    m.files.get_mut("/spool/me").unwrap().meta.nlink = 2;
    let mut db = Database::new(m.cfg.clone(), false);
    let (_, log) = m.refresh(&mut db);
    assert!(db.tab_at("/spool/me").is_none());
    assert!(matches!(log[0], Report::Security(SecurityError::WrongLinkCount)));
}

#[test]
fn rejects_directory_at_spool_path() {
    let mut m = Machine::new();
    m.write("/spool/me", ME, 0o040700, "");
    m.files.get_mut("/spool/me").unwrap().meta.is_file = false;
    for permissive in [false, true] {
        let mut db = Database::new(m.cfg.clone(), permissive);
        m.refresh(&mut db);
        assert!(db.tab_at("/spool/me").is_none());
    }
}

#[test]
fn rejects_symlink_at_spool_path() {
    let mut m = Machine::new();
    m.write("/spool/me", ME, 0o100600, "* * * * * echo user\n");
    m.files.get_mut("/spool/me").unwrap().link = true;
    let mut db = Database::new(m.cfg.clone(), false);
    let (_, log) = m.refresh(&mut db);
    assert!(matches!(log[0], Report::NotRegular));
    assert!(db.tab_at("/spool/me").is_none());
    let (_, log) = m.refresh(&mut db);
    assert!(matches!(log[0], Report::Nothing), "logged once");
}

#[test]
fn wrong_file_owner_for_system_crontab() {
    let mut m = Machine::new();
    m.write("/crontab", 1, 0o100666, "* * * * * root echo sys\n");
    let mut db = Database::new(m.cfg.clone(), false);
    let (_, log) = m.refresh(&mut db);
    assert_eq!(db.tab_count(), 0);
    assert!(matches!(log[0], Report::Security(SecurityError::WrongOwner)));
}

#[test]
fn unreadable_spool_dir_keeps_loaded_tabs() {
    let mut m = Machine::new();
    m.write("/spool/me", ME, 0o100600, "* * * * * echo user\n");
    let mut db = Database::new(m.cfg.clone(), false);
    m.refresh(&mut db);
    assert_eq!(db.tab_count(), 1, "initial load must succeed");
    m.spool_readable = false;
    m.refresh(&mut db);
    assert_eq!(db.tab_count(), 1, "the tab must stay loaded");
    m.spool_readable = true;
    m.files.clear();
    m.refresh(&mut db);
    assert_eq!(db.tab_count(), 0);
}

#[test]
fn tabs_come_in_the_order_of_their_paths() {
    let mut m = Machine::new();
    m.write("/spool/me", ME, 0o100600, "* * * * * c\n");
    m.write("/cron.d/b", 0, 0o100644, "* * * * * root b\n");
    m.write("/cron.d/a", 0, 0o100644, "* * * * * root a\n");
    let mut db = Database::new(m.cfg.clone(), false);
    m.refresh(&mut db);
    let paths: Vec<&str> = (0..db.tab_count()).map(|i| db.tab(i).path.as_str()).collect();
    assert_eq!(paths, ["/cron.d/a", "/cron.d/b", "/spool/me"]);
}

#[test]
fn forgetting_makes_everything_new() {
    let mut m = Machine::new();
    m.write("/spool/me", ME, 0o100600, "* * * * * c\n");
    m.write("/crontab", 0, 0o100644, "bad\n");
    let mut db = Database::new(m.cfg.clone(), false);
    m.refresh(&mut db);
    assert!(!m.refresh(&mut db).0);
    db.forget_all();
    assert_eq!(db.tab_count(), 0);
    let (changed, log) = m.refresh(&mut db);
    assert!(changed);
    assert!(log.iter().any(|r| matches!(r, Report::BadCrontab(_))));
    assert_eq!(db.config().spool_dir, "/spool");
    assert!(!db.is_permissive());
}

#[test]
fn users_crontabs_keep_the_limits() {
    let many = "@daily x\n".repeat(10001);
    let mut m = Machine::new();
    m.write("/spool/me", ME, 0o100600, &many);
    m.write("/crontab", 0, 0o100644, &"@daily root x\n".repeat(10001));
    let mut db = Database::new(m.cfg.clone(), false);
    let (_, log) = m.refresh(&mut db);
    assert!(log.iter().any(|r| matches!(r, Report::OverLimit(LimitError::Entries, _))));
    assert!(db.tab_at("/spool/me").is_none());
    assert!(db.tab_at("/crontab").is_some());
}

#[test]
fn failed_lookups_are_tried_again() {
    let mut m = Machine::new();
    m.write("/spool/down", 7, 0o100600, "* * * * * x\n");
    let mut db = Database::new(m.cfg.clone(), false);
    for _ in 0..2 {
        let (_, log) = m.refresh(&mut db);
        assert!(matches!(log[0], Report::Security(SecurityError::LookupFailed) | Report::CantLookup));
    }
}

#[test]
fn files_that_cannot_be_read() {
    let mut m = Machine::new();
    m.write("/spool/me", ME, 0o100600, "* * * * * x\n");
    let mut db = Database::new(m.cfg.clone(), false);
    m.refresh(&mut db);
    let key = m.tick();
    let o = db.read_failed("/spool/me", key);
    assert!(o.changed && matches!(o.report, Report::CantOpen));
    assert!(db.is_current("/spool/me", key));
    let o = db.stat_failed("/spool/me");
    assert!(!o.changed && matches!(o.report, Report::CantStat));
    let o = db.open_failed("/x", OpenFailure::Other, key);
    assert!(!o.changed && matches!(o.report, Report::CantStat));
}

#[test]
fn modes_and_owners() {
    let key = MetaKey { mtime: 0, mtime_nsec: 0, ctime: 0, ctime_nsec: 0 };
    let meta = |uid, mode, nlink| FileMeta { key, is_file: true, mode, uid, nlink };
    let user = |m: FileMeta| check_file_security(&m, Format::User, Lookup::Found(ME));
    let system = |m: FileMeta| check_file_security(&m, Format::System, Lookup::Missing);
    assert!(user(meta(ME, 0o100600, 1)).is_ok());
    assert!(user(meta(0, 0o100600, 1)).is_ok());
    assert_eq!(user(meta(7, 0o100600, 1)), Err(SecurityError::WrongOwner));
    assert_eq!(
        user(meta(ME, 0o100640, 1)),
        Err(SecurityError::InsecureMode(Format::User))
    );
    assert!(system(meta(0, 0o100644, 3)).is_ok());
    assert_eq!(
        system(meta(0, 0o100664, 1)),
        Err(SecurityError::InsecureMode(Format::System))
    );
    assert_eq!(
        check_file_security(&meta(ME, 0o100600, 1), Format::User, Lookup::Failed),
        Err(SecurityError::LookupFailed)
    );
    for (e, text) in [
        (SecurityError::NotRegular, "NOT REGULAR"),
        (SecurityError::WrongOwner, "WRONG FILE OWNER"),
        (SecurityError::InsecureMode(Format::System), "INSECURE MODE (group/world writable)"),
        (SecurityError::InsecureMode(Format::User), "INSECURE MODE (group/world accessible)"),
        (SecurityError::WrongLinkCount, "WRONG FILE LINK COUNT"),
        (SecurityError::LookupFailed, "CAN'T LOOKUP USER"),
    ] {
        assert_eq!(e.message(), text);
    }
}

#[test]
fn names_in_the_directories() {
    for (name, ok) in [
        ("job", true),
        (".hidden", false),
        ("job~", false),
        ("job.rpmsave", false),
        ("job.pacnew", false),
    ] {
        assert_eq!(cron_d_name_ok(name), ok, "{name}");
    }
    assert!(spool_name_ok("alice") && !spool_name_ok(".tmp.x") && !spool_name_ok("alice~"));
    assert!(spool_dir_secure(false, Some(0o700)) && !spool_dir_secure(false, Some(0o777)));
    assert!(spool_dir_secure(false, Some(0o1777)) && spool_dir_secure(true, Some(0o777)));
    assert!(spool_dir_secure(false, None));
}
