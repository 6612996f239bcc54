//! Running jobs and mailing their output.

use crontab_rs::crontab::{env_get, Crontab, Entry, Format};
use crontab_rs::job::{
    account_expired, may_run, recipients_are_safe, sender_is_safe, should_switch, today_days,
    Account, Delivery, OutputBuffer, RunError, Runner, MAX_OUTPUT,
};
use crontab_rs::mail::{
    keep_stderr, mail_result, mailto_is_safe, next_delay, poll_mailer, Mailer, Message, Poll,
    MAILER_TIMEOUT, MAX_POLL_DELAY, MAX_STDERR,
};

#[test]
fn switch_decision() {
    assert_eq!(should_switch(0, 1000), Ok(true));
    assert_eq!(should_switch(0, 0), Ok(true));
    assert_eq!(should_switch(1000, 1000), Ok(false));
    assert!(
        should_switch(1000, 0)
            .unwrap_err()
            .contains("daemon is not running as root")
    );
}

#[test]
fn account_expiry() {
    assert!(!account_expired(-1, 20_000));
    assert!(!account_expired(0, 20_000));
    assert!(!account_expired(20_001, 20_000));
    assert!(account_expired(20_000, 20_000));
    assert!(account_expired(19_999, 20_000));
}

#[test]
fn render_message() {
    let m = Message {
        from: "root (Cron Daemon)".into(),
        envelope_from: None,
        to: "alice".into(),
        subject: "Cron <alice@host> echo hi".into(),
        content_type: "text/plain; charset=UTF-8".into(),
        env: vec![("SHELL".into(), "/bin/sh".into())],
        body: b"hi".to_vec(),
    };
    let text = String::from_utf8(m.render()).unwrap();
    assert!(text.starts_with(
        "From: root (Cron Daemon)\nTo: alice\nSubject: Cron <alice@host> echo hi\n"
    ));
    assert!(text.contains("X-Cron-Env: <SHELL=/bin/sh>\n\nhi\n"));
}

#[test]
fn mailto_safety() {
    assert!(mailto_is_safe("alice@example.com, bob"));
    assert!(!mailto_is_safe("alice\nBcc: eve"));
}

fn account() -> Account {
    Account { name: "alice".into(), uid: 1000, gid: 100, home: "/home/alice".into() }
}

fn runner(mailer: Mailer) -> Runner {
    Runner {
        default_path: "/usr/bin:/bin".into(),
        default_shell: "/bin/sh".into(),
        inherit_path: false,
        mailer,
        syslog_output: false,
        mail_charset: "UTF-8".into(),
        hostname: "testhost".into(),
    }
}

fn entry(text: &str) -> Entry {
    Crontab::parse(text, Format::User).unwrap().entries.remove(0)
}

fn pair(name: &str, value: &str) -> (String, String) {
    (name.to_string(), value.to_string())
}

#[test]
fn non_root_cannot_run_as_root() {
    let err = may_run("root", Some(0), 1000, None, 0).unwrap_err();
    assert_eq!(err, RunError::NotRoot("root".into()));
    assert!(err.message().contains("daemon is not running as root"));
    assert_eq!(may_run("alice", Some(1000), 1000, None, 0), Ok(false));
}

#[test]
fn unknown_user_is_rejected() {
    let err = may_run("no-such-user-xyz123", None, 0, None, 0).unwrap_err();
    assert_eq!(err.message(), "no passwd entry for no-such-user-xyz123");
}

#[test]
fn expired_accounts_do_not_run() {
    let run = |uid, euid, expire| may_run("alice", Some(uid), euid, expire, 20_000);
    assert_eq!(run(1000, 0, Some(20_001)), Ok(true));
    let err = run(1000, 0, Some(20_000)).unwrap_err();
    assert_eq!(err.message(), "account alice has expired");
    // Neither root nor the daemon's own user is asked.
    assert_eq!(run(0, 0, Some(1)), Ok(true));
    assert_eq!(run(1000, 1000, Some(1)), Ok(false));
    assert_eq!(run(1000, 0, None), Ok(true));
    assert_eq!(today_days(86_399), 0);
    assert_eq!(today_days(86_400 * 20_000), 20_000);
    assert_eq!(today_days(-5), 0);
}

#[test]
fn oversized_output_is_truncated_with_notice() {
    let mut buffer = OutputBuffer::new();
    let mut left = 1_100_000;
    while left > 0 {
        let n = if left < 8192 { left } else { 8192 };
        buffer.add_chunk(&vec![0; n]);
        left -= n;
    }
    assert_eq!(buffer.discarded(), (1_100_000 - MAX_OUTPUT) as u64);
    let output = buffer.finish();
    let tail = format!(
        "\n[crond: {} bytes of output discarded]\n",
        1_100_000 - MAX_OUTPUT
    );
    assert!(output.ends_with(tail.as_bytes()));
    assert_eq!(output.len(), MAX_OUTPUT + tail.len());
}

#[test]
fn small_output_is_kept_whole() {
    let mut buffer = OutputBuffer::new();
    buffer.add_chunk(b"one ");
    buffer.add_chunk(b"two");
    assert_eq!(buffer.discarded(), 0);
    assert_eq!(buffer.finish(), b"one two");
}

#[test]
fn environment_and_output() {
    let r = runner(Mailer::Off);
    let e = entry(
        "FOO=bar\nLOGNAME=evil\n* * * * * echo \"$FOO $LOGNAME $SHELL\"; pwd; echo err >&2\n",
    );
    let plan = r.prepare(&account(), &e, None);
    assert_eq!(env_get(&plan.env, "FOO"), Some("bar"));
    assert_eq!(env_get(&plan.env, "LOGNAME"), Some("alice"));
    assert_eq!(plan.shell, "/bin/sh");
    assert_eq!(plan.home, "/home/alice");
    assert_eq!(
        r.build_env(&account(), &e, None),
        vec![
            pair("SHELL", "/bin/sh"),
            pair("PATH", "/usr/bin:/bin"),
            pair("HOME", "/home/alice"),
            pair("LOGNAME", "alice"),
            pair("USER", "alice"),
            pair("FOO", "bar"),
        ]
    );
}

#[test]
fn crontabs_override_shell_path_and_home() {
    let e = entry("SHELL=/bin/zsh\nPATH=/p\nHOME=/srv\n* * * * * x\n");
    let plan = runner(Mailer::Off).prepare(&account(), &e, None);
    assert_eq!((plan.shell.as_str(), plan.home.as_str()), ("/bin/zsh", "/srv"));
    assert_eq!(env_get(&plan.env, "PATH"), Some("/p"));
    assert_eq!(env_get(&plan.env, "USER"), Some("alice"));
}

#[test]
fn path_comes_from_the_daemon_if_asked() {
    let e = entry("* * * * * x\n");
    let mut r = runner(Mailer::Off);
    assert_eq!(env_get(&r.build_env(&account(), &e, Some("/d")), "PATH"), Some("/usr/bin:/bin"));
    r.inherit_path = true;
    assert_eq!(env_get(&r.build_env(&account(), &e, Some("/d")), "PATH"), Some("/d"));
    assert_eq!(env_get(&r.build_env(&account(), &e, None), "PATH"), Some("/usr/bin:/bin"));
}

#[test]
fn stdin_from_percent() {
    let e = entry("* * * * * tr a-z A-Z%hello%world\n");
    assert_eq!(e.command, "tr a-z A-Z");
    assert_eq!(e.stdin.as_deref(), Some("hello\nworld\n"));
}

fn deliver(r: &Runner, text: &str, success: bool, output: &[u8]) -> Delivery {
    let e = entry(text);
    let env = r.build_env(&account(), &e, None);
    r.deliver("alice", &e, &env, success, output)
}

fn mailed(r: &Runner, text: &str) -> (Message, Option<String>) {
    match deliver(r, text, true, b"one\n") {
        Delivery::Mail(m, rejected) => (m, rejected),
        other => panic!("not mailed: {other:?}"),
    }
}

#[test]
fn mail_rules() {
    let r = runner(Mailer::Command("cat".into()));
    let (m, _) = mailed(&r, "MAILTO=someone\n* * * * * echo one\n");
    let text = String::from_utf8(m.render()).unwrap();
    assert!(text.contains("To: someone\n"));
    assert!(text.contains("Subject: Cron <"));
    assert!(text.contains("@testhost> echo one\n"));
    assert!(text.ends_with("\n\none\n"));

    // MAILTO="" suppresses, -n suppresses on success, silent jobs send nothing.
    let quiet = |t: &str, out: &[u8]| deliver(&r, t, true, out) == Delivery::Nothing;
    assert!(quiet("MAILTO=\"\"\n* * * * * echo two\n", b"two\n"));
    assert!(quiet("* * * * * -n echo three\n", b"three\n"));
    assert!(quiet("* * * * * true\n", b""));

    let failed = deliver(&r, "* * * * * -n echo four; exit 3\n", false, b"four\n");
    assert!(matches!(failed, Delivery::Mail(m, None) if m.body == b"four\n"));
}

#[test]
fn mail_follows_cronie_headers_and_safety_rules() {
    let r = runner(Mailer::Command("cat".into()));
    let (m, rejected) = mailed(
        &r,
        "MAILFROM=\"bad sender\"\nMAILTO=alice\n* * * * * echo body-text\n",
    );
    assert_eq!(m.from, "\"(Cron Daemon)\" <alice>");
    assert_eq!(m.envelope_from, None);
    assert_eq!(m.to, "alice");
    assert_eq!(rejected.as_deref(), Some("bad sender"));
    let text = "MAILTO=\"eve;rm\"\n* * * * * echo unsafe-mailto\n";
    assert_eq!(deliver(&r, text, true, b"x"), Delivery::Unsafe("eve;rm".into()));
}

#[test]
fn a_safe_sender_is_used() {
    let r = runner(Mailer::Command("cat".into()));
    let (m, rejected) = mailed(&r, "MAILFROM=cron@example.com\n* * * * * x\n");
    assert_eq!(m.from, "cron@example.com");
    assert_eq!(m.envelope_from.as_deref(), Some("cron@example.com"));
    assert_eq!(m.to, "alice");
    assert_eq!(rejected, None);
}

#[test]
fn syslog_output_only_with_s() {
    let text = "* * * * * echo said-something\n";
    let mut r = runner(Mailer::Off);
    assert_eq!(deliver(&r, text, true, b"x\n"), Delivery::Nothing);
    r.syslog_output = true;
    assert_eq!(deliver(&r, text, true, b"x\n"), Delivery::Log);
}

#[test]
fn content_types_and_subjects() {
    let r = runner(Mailer::Command("cat".into()));
    let (m, _) = mailed(&r, "* * * * * echo\ta\n");
    assert_eq!(m.content_type, "text/plain; charset=UTF-8");
    assert_eq!(m.subject, "Cron <alice@testhost> echo a");
    let (m, _) = mailed(&r, "CONTENT_TYPE=text/html\n* * * * * x\n");
    assert_eq!(m.content_type, "text/html");
}

#[test]
fn values_with_control_characters_are_not_told() {
    let r = runner(Mailer::Command("cat".into()));
    let (m, _) = mailed(&r, "A=\"a\tb\"\nB=c\n* * * * * x\n");
    assert_eq!(env_get(&m.env, "A"), None);
    assert_eq!(env_get(&m.env, "B"), Some("c"));
    // Eight header lines, and one for each variable told.
    let head = String::from_utf8(m.render()).unwrap();
    let head = head.split("one\n").next().unwrap();
    assert_eq!(head.matches('\n').count(), 8 + m.env.len());
}

#[test]
fn addresses() {
    for (value, sender, list) in [
        ("alice", true, true),
        ("alice@example.com", true, true),
        ("alice@example.com, bob", false, true),
        ("bad sender", false, false),
        ("-oQ/tmp", false, false),
        ("eve;rm", false, false),
        ("a\nb", false, false),
    ] {
        assert_eq!(sender_is_safe(value), sender, "{value:?}");
        assert_eq!(recipients_are_safe(value), list, "{value:?}");
    }
}

#[test]
fn mailers() {
    assert_eq!(Mailer::from_arg("OFF"), Mailer::Off);
    assert_eq!(Mailer::from_arg("cat"), Mailer::Command("cat".into()));
    assert!(Mailer::Off.is_off() && !Mailer::from_arg("x").is_off());
    let present = vec!["/usr/bin/sendmail".to_string(), "/usr/lib/sendmail".to_string()];
    assert_eq!(Mailer::detect(&present), Mailer::Sendmail("/usr/lib/sendmail".into()));
    assert_eq!(Mailer::detect(&Vec::new()), Mailer::Off);
    assert!(Mailer::Off.command(&None).is_empty());
    assert_eq!(Mailer::Command("cat".into()).command(&None), ["/bin/sh", "-c", "cat"]);
    let args = Mailer::Sendmail("/s".into()).command(&Some("me".into()));
    assert_eq!(args[0], "/s");
    assert!(args.windows(2).any(|w| w[0] == "-f" && w[1] == "me"), "{args:?}");
}

#[test]
fn failing_mailer_reports_status() {
    let err = mail_result(false, "exit status: 1", "", &None).unwrap_err();
    assert_eq!(err, "mailer exited with exit status: 1");
    let err = mail_result(false, "exit status: 3", "oops\n", &None).unwrap_err();
    assert_eq!(err, "mailer exited with exit status: 3: oops");
    let err = mail_result(true, "exit status: 0", "", &Some("broken".into())).unwrap_err();
    assert_eq!(err, "writing to mailer: broken");
    assert!(mail_result(true, "exit status: 0", "noise", &None).is_ok());
}

#[test]
fn mailers_are_watched() {
    assert_eq!(poll_mailer(true, u64::MAX, 1), Poll::Done);
    assert_eq!(poll_mailer(false, 0, 7), Poll::Sleep(7));
    assert_eq!(poll_mailer(false, MAILER_TIMEOUT * 1000, 7), Poll::Kill);
    assert_eq!(next_delay(10), 20);
    assert_eq!(next_delay(MAX_POLL_DELAY), MAX_POLL_DELAY);
    assert_eq!(next_delay(u64::MAX), MAX_POLL_DELAY);
    let mut kept = Vec::new();
    keep_stderr(&mut kept, &vec![1; MAX_STDERR - 1]);
    keep_stderr(&mut kept, &[2, 3, 4]);
    assert_eq!(kept.len(), MAX_STDERR);
    assert_eq!(kept[MAX_STDERR - 1], 2);
}
