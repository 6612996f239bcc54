//! Crontab files.

use crontab_rs::crontab::{
    env_get, is_valid_username, is_valid_var_name, parse_env_line, set_env, split_command,
    zone_setting, Crontab, EntryError, Format, LimitError, ParseError,
};
use crontab_rs::raw::{bytes_from, text_from};
use crontab_rs::schedule::ScheduleError;

#[test]
fn env_lines() {
    assert_eq!(
        parse_env_line("FOO=bar"),
        Some(("FOO".into(), "bar".into()))
    );
    assert_eq!(
        parse_env_line("  FOO = bar baz  "),
        Some(("FOO".into(), "bar baz".into()))
    );
    assert_eq!(
        parse_env_line("FOO=\"  spaced  \""),
        Some(("FOO".into(), "  spaced  ".into()))
    );
    assert_eq!(
        parse_env_line("FOO='single' "),
        Some(("FOO".into(), "single".into()))
    );
    assert_eq!(
        parse_env_line("MAILTO="),
        Some(("MAILTO".into(), "".into()))
    );
    assert_eq!(
        parse_env_line("MAILTO=\"\""),
        Some(("MAILTO".into(), "".into()))
    );
    assert_eq!(parse_env_line("FOO='unterminated"), None);
    assert_eq!(parse_env_line("FOO='x' trailing"), None);
    assert_eq!(parse_env_line("* * * * * echo a=b"), None);
    assert_eq!(parse_env_line("FOO bar=1"), None);
    assert_eq!(parse_env_line("=bar"), None);
    assert_eq!(parse_env_line("1FOO=bar"), None);
    assert_eq!(parse_env_line("@daily x=y"), None);
}

#[test]
fn split_percent() {
    assert_eq!(split_command("echo hi"), ("echo hi".into(), None));
    assert_eq!(
        split_command("cat%line1%line2"),
        ("cat".into(), Some("line1\nline2\n".into()))
    );
    assert_eq!(split_command("date +\\%Y"), ("date +%Y".into(), None));
    assert_eq!(
        split_command("cat%100\\%%done%"),
        ("cat".into(), Some("100%\ndone\n".into()))
    );
    assert_eq!(split_command("cat%"), ("cat".into(), Some("\n".into())));
}

#[test]
fn user_crontab() {
    let text = "\
# comment
SHELL=/bin/bash
MAILTO=alice
  \t
*/5 * * * * /usr/bin/backup --quick
LOGNAME=evil
0 3 * * 1 -n -q /usr/bin/backup --full
@reboot echo booted
";
    let tab = Crontab::parse(text, Format::User).unwrap();
    assert_eq!(tab.entries.len(), 3);
    let e = &tab.entries[0];
    assert_eq!(e.command, "/usr/bin/backup --quick");
    assert_eq!(e.user, None);
    assert_eq!(e.line, 5);
    assert_eq!(
        e.env,
        vec![
            ("SHELL".to_string(), "/bin/bash".to_string()),
            ("MAILTO".to_string(), "alice".to_string())
        ]
    );
    let e = &tab.entries[1];
    assert!(e.mail_on_failure_only);
    assert!(e.quiet);
    assert_eq!(e.command, "/usr/bin/backup --full");
    assert_eq!(e.raw_command, "/usr/bin/backup --full");
    assert_eq!(env_get(&e.env, "LOGNAME"), None);
    assert!(tab.entries[2].schedule.is_reboot());
    assert_eq!(tab.entries[2].command, "echo booted");
}

#[test]
fn system_crontab() {
    let text = "PATH=/usr/local/sbin:/usr/bin\n17 * * * *\troot\trun-parts /etc/cron.hourly\n";
    let tab = Crontab::parse(text, Format::System).unwrap();
    assert_eq!(tab.entries[0].user.as_deref(), Some("root"));
    assert_eq!(tab.entries[0].command, "run-parts /etc/cron.hourly");

    let errs = Crontab::parse("17 * * * * root\n", Format::System).unwrap_err();
    assert_eq!(errs[0].error, EntryError::BadCommand);
    let errs = Crontab::parse("17 * * * * bad;user cmd\n", Format::System).unwrap_err();
    assert_eq!(errs[0].error, EntryError::BadUsername);
}

#[test]
fn errors_report_all_lines() {
    let text = "* * * * * ok\n99 * * * * bad\n* * * * *\nFOO=bar\n* 25 * * * x\n";
    let errs = Crontab::parse(text, Format::User).unwrap_err();
    assert_eq!(errs.len(), 3);
    assert_eq!(errs[0].line, 2);
    assert_eq!(
        errs[0].error,
        EntryError::Schedule(ScheduleError::BadMinute)
    );
    assert_eq!(errs[1].line, 3);
    assert_eq!(errs[1].error, EntryError::BadCommand);
    assert_eq!(errs[2].line, 5);
    assert_eq!(errs[2].error, EntryError::Schedule(ScheduleError::BadHour));
    assert_eq!(errs[0].message(), "line 2: bad minute");
}

#[test]
fn cron_tz_and_random_delay() {
    let text =
        "CRON_TZ=Asia/Tokyo\nRANDOM_DELAY=15\n0 9 * * * work\nCRON_TZ=\n0 9 * * * local\n";
    let tab = Crontab::parse(text, Format::User).unwrap();
    assert_eq!(tab.random_delay, Some(15));
    assert_eq!(tab.entries[0].tz.as_deref(), Some(chrono_tz::Asia::Tokyo.name()));
    assert_eq!(tab.entries[1].tz, None);
    // CRON_TZ is still exported to the job environment.
    assert_eq!(env_get(&tab.entries[0].env, "CRON_TZ"), Some("Asia/Tokyo"));

    let errs = Crontab::parse("CRON_TZ=Mars/Olympus\n", Format::User).unwrap_err();
    assert!(matches!(errs[0].error, EntryError::BadTimezone(_)));
    let errs = Crontab::parse("RANDOM_DELAY=lots\n", Format::User).unwrap_err();
    assert!(matches!(errs[0].error, EntryError::BadRandomDelay(_)));
}

#[test]
fn later_env_overrides_earlier() {
    let text = "A=1\nA=2\n* * * * * x\n";
    let tab = Crontab::parse(text, Format::User).unwrap();
    assert_eq!(tab.entries[0].env, vec![("A".to_string(), "2".to_string())]);
}

fn none() -> Vec<(String, String)> {
    Vec::new()
}

fn pair(name: &str, value: &str) -> (String, String) {
    (name.to_string(), value.to_string())
}

fn only_error(text: &str, format: Format) -> EntryError {
    let errs = Crontab::parse(text, format).unwrap_err();
    assert_eq!(errs.len(), 1);
    errs[0].error.clone()
}

#[test]
fn crontab_messages() {
    for (e, text) in [
        (EntryError::Schedule(ScheduleError::BadHour), "bad hour"),
        (EntryError::BadUsername, "bad username"),
        (EntryError::BadCommand, "bad command"),
        (EntryError::BadOption, "bad option"),
        (EntryError::BadTimezone("X".into()), "bad CRON_TZ value \"X\""),
        (EntryError::BadRandomDelay("X".into()), "bad RANDOM_DELAY value \"X\""),
        (EntryError::PrematureEof, "premature EOF"),
    ] {
        assert_eq!(e.message(), text);
        assert_eq!(ParseError { line: 12, error: e }.message(), format!("line 12: {text}"));
    }
}

#[test]
fn last_line_needs_a_newline() {
    assert_eq!(only_error("@daily true", Format::User), EntryError::PrematureEof);
    assert!(Crontab::parse("@daily true\n", Format::User).is_ok());
    assert!(Crontab::parse("@daily true\n# comment", Format::User).is_ok());
    assert!(Crontab::parse("", Format::User).unwrap().entries.is_empty());
}

#[test]
fn star_after_the_time_fields_is_no_command() {
    assert_eq!(only_error("0 */5 * * * * cmd\n", Format::User), EntryError::BadCommand);
}

#[test]
fn commands_keep_trailing_spaces() {
    let tab = Crontab::parse("* * * * * echo hi  \n", Format::User).unwrap();
    assert_eq!(tab.entries[0].command, "echo hi  ");
    let tab = Crontab::parse("* * * * * echo hi\r\n", Format::User).unwrap();
    assert_eq!(tab.entries[0].command, "echo hi");
}

#[test]
fn mail_option_may_appear_once() {
    assert_eq!(only_error("* * * * * -n -n x\n", Format::User), EntryError::BadOption);
}

#[test]
fn hidden_jobs_need_privilege() {
    let text = "-* * * * * x\n";
    assert_eq!(only_error(text, Format::User), EntryError::BadOption);
    let tab = Crontab::parse_as(text, Format::User, true, &none()).unwrap();
    assert!(tab.entries[0].quiet);
    assert_eq!(tab.entries[0].command, "x");
    let tab = Crontab::parse("-* * * * * root x\n", Format::System).unwrap();
    assert!(tab.entries[0].quiet);
    assert_eq!(tab.entries[0].user.as_deref(), Some("root"));
}

#[test]
fn jobs_get_what_was_declared_before_them() {
    let text = "A=1\n* * * * * x\nA=2\nB=3\n* * * * * y\n";
    let tab = Crontab::parse(text, Format::User).unwrap();
    assert_eq!(tab.entries[0].env, vec![pair("A", "1")]);
    assert_eq!(tab.entries[1].env, vec![pair("A", "2"), pair("B", "3")]);
}

#[test]
fn protected_variables_stay_unset() {
    let text = "LOGNAME=a\nUSER=b\nX=c\n* * * * * x\n";
    let tab = Crontab::parse(text, Format::User).unwrap();
    assert_eq!(tab.entries[0].env, vec![pair("X", "c")]);
}

#[test]
fn outer_environment_is_partly_inherited() {
    let outer = vec![
        pair("LANG", "de_DE"),
        pair("LC_TIME", "C"),
        pair("PATH", "/x"),
        pair("USER", "me"),
        pair("MAILFROM", "cron"),
        pair("RANDOM_DELAY", "7"),
    ];
    let tab = Crontab::parse_as("* * * * * x\n", Format::User, false, &outer).unwrap();
    assert_eq!(
        tab.entries[0].env,
        vec![
            pair("LANG", "de_DE"),
            pair("LC_TIME", "C"),
            pair("MAILFROM", "cron"),
            pair("RANDOM_DELAY", "7"),
        ]
    );
    assert_eq!(tab.random_delay, Some(7));
    let text = "LANG=en\nRANDOM_DELAY=+9\n* * * * * x\n";
    let tab = Crontab::parse_as(text, Format::User, false, &outer).unwrap();
    assert_eq!(env_get(&tab.entries[0].env, "LANG"), Some("en"));
    assert_eq!(tab.random_delay, Some(9));
    let odd = vec![pair("RANDOM_DELAY", "lots")];
    let tab = Crontab::parse_as("* * * * * x\n", Format::User, false, &odd).unwrap();
    assert_eq!(tab.random_delay, None);
}

#[test]
fn zone_names_are_those_of_the_database() {
    for (value, ok) in [
        ("Europe/Berlin", true),
        ("UTC", true),
        ("", true),
        ("Nowhere", false),
        ("posix/Asia/Tokyo", true),
        ("right/UTC", true),
        ("posix/Mars", false),
        ("left/UTC", false),
    ] {
        let text = format!("CRON_TZ={value}\n");
        assert_eq!(Crontab::parse(&text, Format::User).is_ok(), ok, "{value}");
    }
}

#[test]
fn zone_settings() {
    assert_eq!(zone_setting("", false), Ok(None));
    assert_eq!(zone_setting("Europe/Berlin", true), Ok(Some("Europe/Berlin".into())));
    assert_eq!(zone_setting("Mars", false), Err(EntryError::BadTimezone("Mars".into())));
    for value in ["/etc/localtime", ":Europe/Berlin", "EST5EDT,M3.2.0,M11.1.0", "<+03>-3", "ABC5"] {
        assert_eq!(zone_setting(value, false), Ok(Some(value.into())), "{value}");
    }
    for value in ["AB5", "ABC", "Mars/Olympus", "5"] {
        assert!(zone_setting(value, false).is_err(), "{value}");
    }
}

#[test]
fn cron_tz_naming_a_fifo_does_not_hang() {
    let tab = Crontab::parse("CRON_TZ=/tmp/tzfifo\n* * * * * true\n", Format::User).unwrap();
    assert_eq!(tab.entries[0].tz.as_deref(), Some("/tmp/tzfifo"));
}

#[test]
fn delays_apply_to_later_entries() {
    let text = "@daily a\nRANDOM_DELAY=5\n@daily b\nRANDOM_DELAY=4294967296\n@daily c\n\
                RANDOM_DELAY=-1\nRANDOM_DELAY=-0\n@daily d\n";
    let tab = Crontab::parse(text, Format::User).unwrap();
    let delays: Vec<Option<u32>> = tab.entries.iter().map(|e| e.random_delay).collect();
    assert_eq!(delays, [None, Some(5), Some(5), Some(0)]);
    assert_eq!(tab.random_delay, Some(0));
    assert_eq!(tab.ignored_delays, [4, 6]);
    assert_eq!(env_get(&tab.entries[2].env, "RANDOM_DELAY"), Some("4294967296"));
    for value in ["", "+", "1m", "1 0"] {
        let errs = Crontab::parse(&format!("RANDOM_DELAY={value}\n"), Format::User).unwrap_err();
        assert_eq!(errs[0].error, EntryError::BadRandomDelay(value.into()));
    }
}

#[test]
fn good_lines_come_along_with_errors() {
    let text = "* * * * * a\n99 * * * * b\nA=1\n* * * * * c";
    let parsed = Crontab::parse_lines(text, Format::User, false, &Vec::new());
    assert_eq!(parsed.crontab.entries.len(), 1);
    assert_eq!(
        parsed.errors,
        [
            ParseError { line: 2, error: EntryError::Schedule(ScheduleError::BadMinute) },
            ParseError { line: 4, error: EntryError::PrematureEof },
        ]
    );
    assert_eq!(parsed.errors[0].error.log_message(), "bad minute");
    assert_eq!(parsed.errors[1].error.log_message(), "missing newline before EOF");
    // A bad line is as good as an empty one.
    let blank = Crontab::parse_lines("* * * * * a\n\nA=1\n", Format::User, false, &Vec::new());
    assert_eq!(parsed.crontab, blank.crontab);
}

#[test]
fn bad_user_names_come_before_missing_commands() {
    for line in ["17 * * * * bad;user", "17 * * * *", "@daily ;"] {
        let errs = Crontab::parse(&format!("{line}\n"), Format::System).unwrap_err();
        assert_eq!(errs[0].error, EntryError::BadUsername, "{line}");
    }
}

#[test]
fn non_utf8_crontabs_keep_their_bytes() {
    let user_tab = b"# caf\xe9\n0 0 * * * echo caf\xe9%\xc3\xa0\xff\nV=\x85\xa0\n@daily x\n".to_vec();
    let text = text_from(&user_tab);
    assert_eq!(bytes_from(&text), user_tab);
    let tab = Crontab::parse(&text, Format::User).unwrap();
    assert_eq!(bytes_from(&tab.entries[0].command), b"echo caf\xe9");
    let stdin = tab.entries[0].stdin.as_deref().unwrap();
    assert_eq!(bytes_from(stdin), b"\xc3\xa0\xff\n");
    assert_eq!(bytes_from(env_get(&tab.entries[1].env, "V").unwrap()), b"\x85\xa0");
    let all: Vec<u8> = (0..=255).collect();
    assert_eq!(bytes_from(&text_from(&all)), all);
    // Other text is written in UTF-8.
    assert_eq!(bytes_from("h\u{e9}\u{20ac}"), "h\u{e9}\u{20ac}".as_bytes());
    let field = text_from(&[0xe9; 131072]);
    assert_eq!(limit(&format!("A={field}\n")), None);
    assert_eq!(limit(&format!("A={field}x\n")), Some(LimitError::Field));
}

/// Escapes the percent signs of a text.
fn escape(s: &str) -> String {
    s.replace('%', "\\%")
}

#[test]
fn escaping_is_undone() {
    for command in ["date +%Y", "a\\b", "100%", "", "x\\"] {
        assert_eq!(split_command(&escape(command)), (command.to_string(), None));
    }
    let raw = format!("{}%{}", escape("date +%Y"), escape("50% off"));
    assert_eq!(split_command(&raw), ("date +%Y".into(), Some("50% off\n".into())));
}

fn limit(text: &str) -> Option<LimitError> {
    Crontab::parse(text, Format::User).unwrap().over_limit(text)
}

#[test]
fn crontab_limits() {
    let vars = |n: usize| (0..n).map(|i| format!("V{i}=x\n")).collect::<String>();
    assert_eq!(limit(&vars(1000)), None);
    assert_eq!(limit(&vars(1001)), Some(LimitError::Variables));
    let jobs = |n: usize| "@daily x\n".repeat(n);
    assert_eq!(limit(&jobs(10000)), None);
    assert_eq!(limit(&jobs(10001)), Some(LimitError::Entries));
    let garbage = format!("{}\n0 0 * * * x\n", "#".repeat(40000));
    assert_eq!(limit(&garbage), Some(LimitError::Garbage));
    // Another line in between starts the count anew.
    let half = format!("{}\n", "#".repeat(20000));
    assert_eq!(limit(&format!("{half}A=1\n{half}")), None);
    assert_eq!(limit(&format!("{half}{half}")), Some(LimitError::Garbage));
    assert_eq!(limit(&format!("A={}\n", "x".repeat(131072))), None);
    assert_eq!(limit(&format!("A={}\n", "x".repeat(131073))), Some(LimitError::Field));
    let long = format!("@daily {}\n", "x".repeat(131073));
    assert_eq!(limit(&long), Some(LimitError::Field));
    assert_eq!(
        LimitError::Variables.message(),
        "There are too many environment variables in the crontab file. Limit: 1000"
    );
    assert_eq!(
        LimitError::Entries.message(),
        "There are too many entries in the crontab file. Limit: 10000"
    );
    assert!(LimitError::Garbage.message().contains("too much non-parseable content"));
    assert!(LimitError::Field.message().contains("131072"));
}

#[test]
fn environment_lists() {
    let mut env = vec![pair("A", "1")];
    set_env(&mut env, "B".into(), "2".into());
    set_env(&mut env, "A".into(), "3".into());
    assert_eq!(env, vec![pair("A", "3"), pair("B", "2")]);
    assert_eq!(env_get(&env, "B"), Some("2"));
    assert_eq!(env_get(&env, "C"), None);
}

#[test]
fn names_of_variables_and_users() {
    let c = |s: &str| s.chars().collect::<Vec<char>>();
    assert!(is_valid_var_name(&c("_A9")) && !is_valid_var_name(&c("9A")));
    assert!(!is_valid_var_name(&c("")));
    assert!(is_valid_username(&c("www-data")) && is_valid_username(&c("a.b_c")));
    assert!(!is_valid_username(&c("bad;user")) && !is_valid_username(&c("")));
}
