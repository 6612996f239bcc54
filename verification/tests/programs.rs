//! The `crontab` utility, access lists, settings, logging and start-up.

use crontab_rs::allow::{list_contains, user_allowed, ListFile};
use crontab_rs::cli::stdin_file_required;
use crontab_rs::command::{
    after_edit, check_text, check_warnings, choose_editor, host_file_text, read_answer, shown_host,
    stored_text, Action, Answer, Arg, EditStep, Refusal, Request, UsageError,
};
use crontab_rs::config::{is_privileged_binary, join, Config};
use crontab_rs::crontab::{EntryError, LimitError, ParseError};
use crontab_rs::logging::{
    init, may_reconnect, parse_stream, stderr_is_journal, to_stderr, Link, SendStep, Verbosity,
    MAX_SENDS, RECONNECT_BACKOFF,
};
use crontab_rs::mail::Mailer;
use crontab_rs::path_map::{sorts_before, PathMap};
use crontab_rs::schedule::ScheduleError;
use crontab_rs::startup::{
    choose_mailer, moment_at, pick_offset, run_at_moment, run_at_probes,
};
use crontab_rs::text::number_text;

fn text(s: &str) -> ListFile {
    ListFile::Text(s.to_string())
}

#[test]
fn neither_file() {
    assert!(user_allowed("bob", 1000, &ListFile::Missing, &ListFile::Missing));
}

#[test]
fn allow_file_wins() {
    let (allow, deny) = (text("# people\nalice\n"), text("alice\n"));
    assert!(user_allowed("alice", 1000, &allow, &deny));
    assert!(!user_allowed("bob", 1001, &allow, &deny));
    assert!(user_allowed("root", 0, &allow, &deny));
}

#[test]
fn deny_file() {
    let deny = text("bob\n");
    assert!(user_allowed("alice", 1000, &ListFile::Missing, &deny));
    assert!(!user_allowed("bob", 1001, &ListFile::Missing, &deny));
}

#[test]
fn unreadable_lists_deny() {
    let empty = text("");
    for (allow, deny) in [
        (&ListFile::Unreadable, &ListFile::Missing),
        (&ListFile::Unreadable, &empty),
        (&ListFile::Missing, &ListFile::Unreadable),
    ] {
        assert!(!user_allowed("bob", 1000, allow, deny));
        assert!(user_allowed("root", 0, allow, deny));
    }
    assert!(list_contains("  alice  \n#bob\n", "alice"));
    assert!(!list_contains("  alice  \n#bob\n", "#bob"));
    assert!(!list_contains("\n\n", ""));
}

#[test]
fn terminal_stdin_needs_a_file_argument() {
    assert!(stdin_file_required(None, true));
    assert!(!stdin_file_required(None, false));
    assert!(!stdin_file_required(Some("-"), true));
    assert!(!stdin_file_required(Some("tab"), true));
}

fn pair(name: &str, value: &str) -> (String, String) {
    (name.to_string(), value.to_string())
}

fn none() -> Vec<(String, String)> {
    Vec::new()
}

#[test]
fn settings_come_from_the_environment_unless_privileged() {
    let env = [pair("CRONTAB_RS_SPOOL_DIR", "/tmp/spool"), pair("CRONTAB_RS_DENY", "")];
    let cfg = Config::from_env(false, &env);
    assert_eq!(cfg.spool_dir, "/tmp/spool");
    assert_eq!(cfg.deny_file, "/etc/cron.deny");
    assert_eq!(cfg.user_crontab("alice"), "/tmp/spool/alice");
    let cfg = Config::from_env(true, &env);
    assert_eq!(cfg.spool_dir, "/var/spool/cron");
    assert_eq!(cfg, Config::default());
    assert_eq!(join("/a", "b"), "/a/b");
    assert_eq!(join("/a/", "b"), "/a/b");
    assert_eq!(join("/a", "/b"), "/b");
    assert!(is_privileged_binary(1, 0, 2, 2) && !is_privileged_binary(1, 1, 2, 2));
}

fn user(name: &str) -> Arg {
    Arg::User(name.to_string())
}

fn file(name: &str) -> Arg {
    Arg::File(name.to_string())
}

fn ask(args: Vec<Arg>, root: bool) -> Result<Request, UsageError> {
    Request::from_args(&args, if root { "root" } else { "alice" }, root)
}

#[test]
fn u_flag_denied_for_other_user() {
    let e = ask(vec![user("root"), Arg::List], false).unwrap_err();
    assert_eq!(e.message(), "must be privileged to use -u");
    // Even for one's own name.
    assert_eq!(ask(vec![user("alice"), Arg::List], false), Err(UsageError::UserNotPrivileged));
}

#[test]
fn u_flag_rules_follow_option_order() {
    // -T before -u is refused; -u before -T checks the file as that user.
    let e = ask(vec![Arg::Test, file("-"), user("nobody")], true).unwrap_err();
    assert_eq!(e.message(), "cannot use -u with -n, -c or -T");
    let r = ask(vec![user("nobody"), Arg::Test, file("-")], true).unwrap();
    assert_eq!((r.action, r.user.as_deref()), (Action::Test, Some("nobody")));
    let refusal = check_text("-* * * * * x\n", false, &none()).unwrap();
    assert!(refusal.report("-").contains("bad option"));
    assert_eq!(check_text("-* * * * * x\n", true, &none()), None);
    // -c after -u is refused only for a different user.
    let e = ask(vec![user("nobody"), Arg::ShowHost], true).unwrap_err();
    assert_eq!(e.message(), "cannot use -u with -n or -c");
    assert_eq!(ask(vec![user("root"), Arg::ShowHost], true).unwrap().action, Action::ShowHost);
}

#[test]
fn set_cluster_host_requires_root() {
    let e = ask(vec![Arg::SetHost("somehost".into())], false).unwrap_err();
    assert_eq!(e.message(), "must be privileged to set host with -n");
    let r = ask(vec![Arg::SetHost("node9".into())], true).unwrap();
    assert_eq!(r.action, Action::SetHost("node9".into()));
}

#[test]
fn set_and_clear_cluster_host_as_root() {
    let set = |host: &str| match ask(vec![Arg::SetHost(host.into())], true).unwrap().action {
        Action::SetHost(h) => host_file_text(&h),
        other => panic!("{other:?}"),
    };
    let written = set("node9").unwrap();
    assert_eq!(shown_host(&written), "node9");
    // An empty name clears the host: there is to be no file.
    assert_eq!(set(""), None);
}

#[test]
fn file_arg_conflicts_with_actions() {
    let e = ask(vec![Arg::List, file("somefile")], false).unwrap_err();
    assert_eq!(e, UsageError::FileConflict);
    assert!(e.message().contains("cannot be combined"));
    let e = ask(vec![Arg::List, Arg::Remove], false).unwrap_err();
    assert_eq!(e.message(), "only one operation permitted");
}

#[test]
fn plain_requests() {
    let r = ask(vec![], false).unwrap();
    assert_eq!(r, Request { action: Action::Install, user: None, file: None, interactive: false });
    let r = ask(vec![Arg::Remove, Arg::Interactive], false).unwrap();
    assert!(r.action == Action::Remove && r.interactive);
    let r = ask(vec![file("tab")], false).unwrap();
    assert_eq!((r.action, r.file.as_deref()), (Action::Install, Some("tab")));
    assert_eq!(ask(vec![Arg::Edit], false).unwrap().action, Action::Edit);
}

#[test]
fn syntax_check_stops_at_first_error() {
    let text = "*/61 * * * * x\n99 * * * * y\n88 * * * * z\n";
    let refusal = check_text(text, false, &none()).unwrap();
    let warned = check_warnings(text, &Some(refusal.clone()));
    assert_eq!(warned.len(), 1);
    assert!(warned[0].message().contains("Warning: Step size 61"));
    assert_eq!(
        refusal,
        Refusal::Syntax(ParseError {
            line: 2,
            error: EntryError::Schedule(ScheduleError::BadMinute)
        })
    );
    assert_eq!(refusal.report("-"), "\"-\":2: bad minute");
    let refusal = check_text("0 0 * * * x", false, &none()).unwrap();
    assert_eq!(refusal.report("-"), "\"-\":1: premature EOF");
}

#[test]
fn syntax_test_matches_cronie_grammar() {
    for root in [false, true] {
        for (line, ok) in [
            ("-* * * * * x", root),
            ("0 */5 * * * * cmd", false),
            ("* * * * * -n x", true),
            ("* * * * * -n -n x", false),
            ("CRON_TZ=Europe/Berlin", true),
            ("RANDOM_DELAY=99999999999", true),
        ] {
            let refusal = check_text(&format!("{line}\n"), root, &none());
            assert_eq!(refusal.is_none(), ok, "{line:?}: {refusal:?}");
        }
    }
    let text = "*/61 * * * * x\n";
    let refusal = check_text(text, false, &none());
    assert_eq!(refusal, None);
    let warned = check_warnings(text, &refusal);
    assert_eq!(warned.len(), 1);
    assert!(warned[0]
        .message()
        .contains("Warning: Step size 61 higher than possible maximum of 59"));
}

#[test]
fn rejects_bad_crontab() {
    let refusal = check_text("* * * * * ok\n61 * * * * bad\n", false, &none()).unwrap();
    assert_eq!(refusal.report("-"), "\"-\":2: bad minute");
}

#[test]
fn test_mode() {
    assert_eq!(check_text("0 0 * * * ok\n", false, &none()), None);
    let refusal = check_text("0 0 * * 9 bad\n", false, &none()).unwrap();
    assert!(refusal.report("-").contains("bad day-of-week"));
}

#[test]
fn show_cluster_host_success() {
    assert_eq!(shown_host("node7\n"), "node7");
}

fn warned(text: &str) -> Vec<String> {
    let refusal = check_text(text, false, &none());
    check_warnings(text, &refusal).iter().map(|w| w.message()).collect()
}

#[test]
fn large_steps_are_warned_about() {
    let one = "Warning: Step size 61 higher than possible maximum of 59";
    assert_eq!(warned("*/61 * * * * x\n"), [one]);
    assert_eq!(warned("*/61 * * * * x\n99 * * * * y\n*/70 * * * * z\n"), [one]);
    assert_eq!(
        warned("A=*/99\n# */99 * * * *\n1-5/60,2/7 0-3/24 * * 1-5/9 x\n"),
        [
            "Warning: Step size 60 higher than possible maximum of 59",
            "Warning: Step size 24 higher than possible maximum of 23",
            "Warning: Step size 9 higher than possible maximum of 7",
        ]
    );
    assert!(warned("*/59 * * * * x\n@daily y\n").is_empty());
}

#[test]
fn syntax_check_enforces_cronie_limits() {
    let envs: String = (0..1001).map(|i| format!("V{i}=x\n")).collect();
    assert_eq!(
        check_text(&envs, false, &none()).unwrap().report("-"),
        "There are too many environment variables in the crontab file. Limit: 1000"
    );
    let entries: String = (0..10001).map(|_| "0 0 * * * true\n").collect();
    assert_eq!(check_text(&entries, false, &none()), Some(Refusal::Limit(LimitError::Entries)));
    let garbage = format!("{}\n0 0 * * * x\n", "#".repeat(40000));
    let refusal = check_text(&garbage, false, &none()).unwrap();
    assert!(refusal.report("-").contains("too much non-parseable content"));
}

#[test]
fn edits_are_checked() {
    let old = "@daily x\n";
    assert_eq!(after_edit(old, old, false, &none()), EditStep::Unchanged);
    assert_eq!(after_edit(old, "@hourly x\n", false, &none()), EditStep::Install);
    match after_edit(old, "99 * * * * nope\n", false, &none()) {
        EditStep::Refused(r) => assert_eq!(r.report("f"), "\"f\":1: bad minute"),
        other => panic!("{other:?}"),
    }
    assert_eq!(stored_text("@daily x\n"), "@daily x\n");
    assert_eq!(stored_text("@daily x\n# end"), "@daily x\n# end\n");
    assert_eq!(stored_text(""), "");
    assert_eq!(check_text(&stored_text("@daily x\n# end"), false, &none()), None);
}

#[test]
fn answers_editors_and_hosts() {
    for (line, want) in [
        (Some("y\n"), Answer::Yes),
        (Some("  Yes"), Answer::Yes),
        (Some("n\n"), Answer::No),
        (Some("NO"), Answer::No),
        (Some("\n"), Answer::Again),
        (Some("maybe"), Answer::Again),
        (None, Answer::No),
    ] {
        assert_eq!(read_answer(line), want, "{line:?}");
    }
    assert_eq!(choose_editor(Some("emacs"), Some("ed")), "emacs");
    assert_eq!(choose_editor(Some("  "), Some("ed")), "ed");
    assert_eq!(choose_editor(None, Some("")), "vi");
    assert_eq!(host_file_text("node9").as_deref(), Some("node9\n"));
    assert_eq!(host_file_text(""), None);
    assert_eq!(shown_host(" node7\n"), "node7");
}

#[test]
fn reconnects_are_rate_limited() {
    let now = 1_000_000;
    assert!(may_reconnect(None, now));
    assert!(!may_reconnect(Some(now + RECONNECT_BACKOFF), now));
    assert!(may_reconnect(Some(now), now));
}

#[test]
fn messages_are_given_up_in_time() {
    let mut link = Link::new(true);
    assert_eq!(link.step(0, 5), SendStep::Send);
    // The connection broke: reconnect once right away.
    link.send_result(false);
    assert_eq!(link.step(1, 5), SendStep::Connect);
    link.connect_result(true, 5);
    assert_eq!(link.step(1, 5), SendStep::Send);
    link.send_result(false);
    assert_eq!(link.step(MAX_SENDS, 5), SendStep::GiveUp);
    // The socket is gone: wait before the next attempt.
    assert_eq!(link.step(0, 6), SendStep::Connect);
    link.connect_result(false, 6);
    assert_eq!(link.step(0, 6 + RECONNECT_BACKOFF - 1), SendStep::GiveUp);
    assert_eq!(link.step(0, 6 + RECONNECT_BACKOFF), SendStep::Connect);
    link.connect_result(true, 20_000);
    link.send_result(true);
    assert_eq!(link, Link::new(true));
}

#[test]
fn standard_error_and_the_journal() {
    assert_eq!(parse_stream("8:12345"), Some((8, 12345)));
    assert_eq!(parse_stream("+8:1"), Some((8, 1)));
    assert_eq!(parse_stream("18446744073709551615:0"), Some((u64::MAX, 0)));
    for bad in ["", "8", "8:", ":1", "a:1", "8:1:2", "18446744073709551616:0", "-1:2"] {
        assert_eq!(parse_stream(bad), None, "{bad}");
    }
    assert!(stderr_is_journal(Some("8:1"), Some((8, 1))));
    assert!(!stderr_is_journal(Some("8:1"), Some((8, 2))));
    assert!(!stderr_is_journal(Some("8:1"), None) && !stderr_is_journal(None, Some((8, 1))));
    assert!(to_stderr(true, false, true) && to_stderr(false, true, false));
    assert!(!to_stderr(false, true, true) && !to_stderr(false, false, false));
    let setup = init(true, true, true);
    assert!(!setup.mirror && setup.fallback_stderr);
    assert_eq!(setup.verbosity, Verbosity::Debug);
    let setup = init(true, false, false);
    assert!(setup.mirror && setup.verbosity == Verbosity::Info);
}

#[test]
fn mailer_of_the_daemon() {
    let present = vec!["/usr/sbin/sendmail".to_string()];
    let s = choose_mailer(true, Some("cat"), &present);
    assert!(s.mailer.is_off() && s.syslog_output && !s.announce);
    let s = choose_mailer(false, Some("off"), &present);
    assert!(s.mailer.is_off() && !s.syslog_output && !s.announce);
    let s = choose_mailer(false, None, &present);
    assert_eq!(s.mailer, Mailer::Sendmail("/usr/sbin/sendmail".into()));
    assert!(!s.syslog_output);
    let s = choose_mailer(false, None, &Vec::new());
    assert!(s.mailer.is_off() && s.syslog_output && s.announce);
}

#[test]
fn moments_of_one_shot_runs() {
    let at = run_at_moment("2026-09-12 12:00").unwrap();
    assert_eq!(at.minute, 29_820_240);
    assert_eq!(at.vgmtoff, at.gmtoff);
    let at = run_at_moment("1969-12-31 23:59").unwrap();
    assert_eq!(at.minute, -1);
    assert!(run_at_moment("garbage").is_err());
    assert!(!run_at_moment("2026-13-01 00:00").unwrap_err().is_empty());
    assert_eq!(run_at_probes(10_000), (10_000, 6_400, 13_600));
    assert_eq!(pick_offset(Some(1), Some(2), Some(3)), 1);
    assert_eq!(pick_offset(None, Some(2), Some(3)), 2);
    assert_eq!(pick_offset(None, None, Some(3)), 3);
    assert_eq!(pick_offset(None, None, None), 0);
    let at = moment_at(-1, Some(7), None, None);
    assert_eq!((at.minute, at.gmtoff, at.vgmtoff), (-1, 7, 7));
}

#[test]
fn paths_are_kept_in_order() {
    let mut map: PathMap<u32> = PathMap::new();
    for (i, p) in ["/b", "/a", "/c", "/a/b"].iter().enumerate() {
        map.insert(p.to_string(), i as u32);
    }
    map.insert("/b".into(), 9);
    let listed: Vec<&str> = (0..map.len()).map(|i| map.nth(i).0.as_str()).collect();
    assert_eq!(listed, ["/a", "/a/b", "/b", "/c"]);
    assert_eq!(map.get("/b"), Some(&9));
    assert_eq!(map.remove("/a"), Some(1));
    assert!(!map.contains("/a") && map.contains("/c"));
    let gone = map.retain(&vec!["/c".to_string()]);
    assert_eq!((gone.len(), map.len()), (2, 1));
    assert!(sorts_before("/a/b", "/a.b") && !sorts_before("/a", "/a"));
}

#[test]
fn numbers_as_text() {
    for n in [0, 7, 10, 12345, u64::MAX] {
        assert_eq!(number_text(n), n.to_string());
    }
}
