//! Running a single cron job: who may run it, its environment, how much of its
//! output is kept, and what becomes of the output.

use vstd::prelude::*;
use vstd::string::StringSliceAdditionalSpecFns;

use crate::crontab::{env_get, set_env, Entry, PROTECTED_VARS};
use crate::mail::{mailto_is_safe, Mailer, Message};
use crate::text::{
    chars_of, is_control, is_digit, is_letter, number_text, same_str, string_of, trimmed,
};
use crate::zone::copy_bytes;

verus! {

/// Upper bound on job output retained for mail or log (the rest is drained).
pub const MAX_OUTPUT: usize = 1048576;

/// The account that a job runs under.
#[derive(Debug, Clone, PartialEq, Eq)]
pub struct Account {
    pub name: String,
    pub uid: u32,
    pub gid: u32,
    pub home: String,
}

/// Shared settings for running jobs.
#[derive(Debug, Clone, PartialEq, Eq)]
pub struct Runner {
    pub default_path: String,
    pub default_shell: String,
    /// `-P`: inherit `PATH` from the daemon's environment.
    pub inherit_path: bool,
    pub mailer: Mailer,
    /// Log output that is not mailed.
    pub syslog_output: bool,
    /// Character set of mail whose job does not say otherwise.
    pub mail_charset: String,
    pub hostname: String,
}

// ---------------------------------------------------------------------------
// Who may run
// ---------------------------------------------------------------------------

/// Decide whether a job for `target_uid` needs an identity switch when the
/// daemon runs with effective uid `euid`.
pub fn should_switch(euid: u32, target_uid: u32) -> (r: Result<bool, String>)
    ensures
        if euid == 0 {
            r matches Ok(b) && b
        } else if euid == target_uid {
            r matches Ok(b) && !b
        } else {
            r matches Err(e) && e@ == "daemon is not running as root"@
        },
{
    if euid == 0 {
        Ok(true)
    } else if euid == target_uid {
        Ok(false)
    } else {
        Err("daemon is not running as root".to_owned())
    }
}

/// Is an account with shadow `sp_expire` (days since the epoch; `<= 0` meaning
/// never) expired on day `today_days`?
pub fn account_expired(sp_expire: i64, today_days: i64) -> (r: bool)
    ensures
        r == (sp_expire > 0 && today_days >= sp_expire),
{
    sp_expire > 0 && today_days >= sp_expire
}

/// Days since the Unix epoch, UTC, of an epoch second; none before it.
pub fn today_days(secs: i64) -> (r: i64)
    ensures
        r == if secs < 0 {
            0
        } else {
            secs as int / 86400
        },
{
    if secs < 0 {
        0
    } else {
        secs / 86400
    }
}

/// Why a job was not run.
#[derive(Debug, Clone, PartialEq, Eq)]
pub enum RunError {
    UnknownUser(String),
    NotRoot(String),
    Expired(String),
}

impl RunError {
    pub open spec fn text(self) -> Seq<char> {
        match self {
            RunError::UnknownUser(u) => "no passwd entry for "@ + u@,
            RunError::NotRoot(u) => "cannot run job as "@ + u@
                + ": daemon is not running as root"@,
            RunError::Expired(u) => "account "@ + u@ + " has expired"@,
        }
    }

    pub fn message(&self) -> (r: String)
        ensures
            r@ == self.text(),
    {
        match self {
            RunError::UnknownUser(u) => {
                let mut s = "no passwd entry for ".to_owned();
                s.append(u.as_str());
                s
            },
            RunError::NotRoot(u) => {
                let mut s = "cannot run job as ".to_owned();
                s.append(u.as_str());
                s.append(": daemon is not running as root");
                s
            },
            RunError::Expired(u) => {
                let mut s = "account ".to_owned();
                s.append(u.as_str());
                s.append(" has expired");
                s
            },
        }
    }
}

/// May the job of `user` run, and does it need an identity switch? `uid` is
/// the user's, `None` for a user who does not exist; `expire` is the expiry
/// date of the account, which counts only where the identity is switched to
/// somebody other than root.
pub fn may_run(
    user: &str,
    uid: Option<u32>,
    euid: u32,
    expire: Option<i64>,
    today_days: i64,
) -> (r: Result<bool, RunError>)
    ensures
        match uid {
            None => r matches Err(RunError::UnknownUser(u)) && u@ == user@,
            Some(id) => if euid != 0 && euid != id {
                r matches Err(RunError::NotRoot(u)) && u@ == user@
            } else if euid == 0 && id != 0 && (expire matches Some(e) && e > 0 && today_days
                >= e) {
                r matches Err(RunError::Expired(u)) && u@ == user@
            } else {
                r matches Ok(switch) && switch == (euid == 0)
            },
        },
{
    let id: u32 = match uid {
        Some(id) => id,
        None => return Err(RunError::UnknownUser(user.to_owned())),
    };
    let switch = match should_switch(euid, id) {
        Ok(s) => s,
        Err(_) => return Err(RunError::NotRoot(user.to_owned())),
    };
    if switch && id != 0 {
        if let Some(e) = expire {
            if account_expired(e, today_days) {
                return Err(RunError::Expired(user.to_owned()));
            }
        }
    }
    Ok(switch)
}

// ---------------------------------------------------------------------------
// Environment
// ---------------------------------------------------------------------------

/// What every job starts with.
pub open spec fn base_env(
    shell: Seq<char>,
    path: Seq<char>,
    home: Seq<char>,
    name: Seq<char>,
) -> crate::crontab::EnvModel {
    seq![
        ("SHELL"@, shell),
        ("PATH"@, path),
        ("HOME"@, home),
        ("LOGNAME"@, name),
        ("USER"@, name),
    ]
}

/// The assignments of a crontab on top of that; those of protected variables
/// do not count.
pub open spec fn overlaid(
    base: crate::crontab::EnvModel,
    assignments: crate::crontab::EnvModel,
) -> crate::crontab::EnvModel
    decreases assignments.len(),
{
    if assignments.len() == 0 {
        base
    } else {
        let before = overlaid(base, assignments.drop_last());
        let (name, value) = assignments.last();
        if crate::crontab::protected(name) {
            before
        } else {
            crate::crontab::env_set(before, name, value)
        }
    }
}

/// The environment of a job.
pub open spec fn job_env(
    runner: Runner,
    pw: Account,
    entry: Entry,
    daemon_path: Option<Seq<char>>,
) -> crate::crontab::EnvModel {
    let path = match daemon_path {
        Some(p) if runner.inherit_path => p,
        _ => runner.default_path@,
    };
    overlaid(
        base_env(runner.default_shell@, path, pw.home@, pw.name@),
        crate::crontab::env_model(entry.env@),
    )
}

/// The text of an optional slice.
pub open spec fn opt_text(s: Option<&str>) -> Option<Seq<char>> {
    match s {
        Some(t) => Some(t@),
        None => None,
    }
}

/// How to start a job.
#[derive(Debug)]
pub struct JobPlan {
    pub shell: String,
    pub env: Vec<(String, String)>,
    /// The directory to start in.
    pub home: String,
}

/// The value of a variable, or a default.
pub open spec fn var_or(
    env: crate::crontab::EnvModel,
    name: Seq<char>,
    default: Seq<char>,
) -> Seq<char> {
    match crate::crontab::env_value(env, name) {
        Some(v) => v,
        None => default,
    }
}

fn get_or(env: &Vec<(String, String)>, name: &str, default: &str) -> (r: String)
    ensures
        r@ == var_or(crate::crontab::env_model(env@), name@, default@),
{
    match env_get(env.as_slice(), name) {
        Some(v) => v.to_owned(),
        None => default.to_owned(),
    }
}

impl Runner {
    /// Build the job's environment: defaults, then crontab assignments (which
    /// may override `SHELL`, `PATH`, `HOME`), with `LOGNAME` and `USER` fixed
    /// to the running user. `daemon_path` is the daemon's own `PATH`.
    pub fn build_env(&self, pw: &Account, entry: &Entry, daemon_path: Option<&str>) -> (r: Vec<
        (String, String),
    >)
        ensures
            crate::crontab::env_model(r@) == job_env(*self, *pw, *entry, opt_text(daemon_path)),
    {
        let path: String = match daemon_path {
            Some(p) => {
                if self.inherit_path {
                    p.to_owned()
                } else {
                    self.default_path.clone()
                }
            },
            None => self.default_path.clone(),
        };
        let ghost path_text = path@;
        let mut env: Vec<(String, String)> = Vec::new();
        env.push(("SHELL".to_owned(), self.default_shell.clone()));
        env.push(("PATH".to_owned(), path));
        env.push(("HOME".to_owned(), pw.home.clone()));
        env.push(("LOGNAME".to_owned(), pw.name.clone()));
        env.push(("USER".to_owned(), pw.name.clone()));
        let ghost base = base_env(self.default_shell@, path_text, pw.home@, pw.name@);
        let ghost all = crate::crontab::env_model(entry.env@);
        assert(crate::crontab::env_model(env@) =~= base);
        assert(all.take(0) =~= seq![]);
        let mut i: usize = 0;
        while i < entry.env.len()
            invariant
                i <= entry.env@.len(),
                all == crate::crontab::env_model(entry.env@),
                crate::crontab::env_model(env@) == overlaid(base, all.take(i as int)),
            decreases entry.env@.len() - i,
        {
            assert(all.take(i + 1).drop_last() =~= all.take(i as int));
            assert(all.take(i + 1).last() == all[i as int]);
            let name = entry.env[i].0.as_str();
            if !(same_str(name, PROTECTED_VARS[0]) || same_str(name, PROTECTED_VARS[1])) {
                set_env(&mut env, entry.env[i].0.clone(), entry.env[i].1.clone());
            }
            i += 1;
        }
        assert(all.take(all.len() as int) =~= all);
        env
    }

    /// How to start a job: its shell and working directory are the `SHELL` and
    /// `HOME` of its environment.
    pub fn prepare(&self, pw: &Account, entry: &Entry, daemon_path: Option<&str>) -> (r: JobPlan)
        ensures
            ({
                let env = job_env(*self, *pw, *entry, opt_text(daemon_path));
                &&& crate::crontab::env_model(r.env@) == env
                &&& r.shell@ == var_or(env, "SHELL"@, "/bin/sh"@)
                &&& r.home@ == var_or(env, "HOME"@, pw.home@)
            }),
    {
        let env = self.build_env(pw, entry, daemon_path);
        let shell = get_or(&env, "SHELL", "/bin/sh");
        let home = get_or(&env, "HOME", pw.home.as_str());
        JobPlan { shell, env, home }
    }
}

proof fn lemma_overlaid(
    base: crate::crontab::EnvModel,
    assignments: crate::crontab::EnvModel,
    name: Seq<char>,
)
    requires
        crate::crontab::protected(name),
    ensures
        crate::crontab::env_value(overlaid(base, assignments), name) == crate::crontab::env_value(
            base,
            name,
        ),
    decreases assignments.len(),
{
    if assignments.len() > 0 {
        lemma_overlaid(base, assignments.drop_last(), name);
        let before = overlaid(base, assignments.drop_last());
        let (n, v) = assignments.last();
        if !crate::crontab::protected(n) {
            crate::crontab::law_assignment(before, n, v, name);
        }
    }
}

/// Whatever a crontab says, `LOGNAME` and `USER` are the name of the account.
pub proof fn law_identity_is_fixed(
    runner: Runner,
    pw: Account,
    entry: Entry,
    daemon_path: Option<Seq<char>>,
)
    ensures
        crate::crontab::env_value(
            job_env(runner, pw, entry, daemon_path),
            "LOGNAME"@,
        ) == Some(pw.name@),
        crate::crontab::env_value(
            job_env(runner, pw, entry, daemon_path),
            "USER"@,
        ) == Some(pw.name@),
{
    let path = match daemon_path {
        Some(p) if runner.inherit_path => p,
        _ => runner.default_path@,
    };
    let base = base_env(runner.default_shell@, path, pw.home@, pw.name@);
    let given = crate::crontab::env_model(entry.env@);
    reveal_strlit("SHELL");
    reveal_strlit("PATH");
    reveal_strlit("HOME");
    reveal_strlit("LOGNAME");
    reveal_strlit("USER");
    assert("SHELL"@.len() == 5 && "PATH"@.len() == 4 && "HOME"@.len() == 4 && "LOGNAME"@.len() == 7
        && "USER"@.len() == 4);
    assert("PATH"@[0] != "USER"@[0]);
    assert("HOME"@[0] != "USER"@[0]);
    crate::crontab::lemma_env_index_is(base, "LOGNAME"@, 3);
    crate::crontab::lemma_env_index_is(base, "USER"@, 4);
    lemma_overlaid(base, given, "LOGNAME"@);
    lemma_overlaid(base, given, "USER"@);
}

// ---------------------------------------------------------------------------
// Output
// ---------------------------------------------------------------------------

/// Job output: the first bytes, and how many more there were.
#[derive(Debug)]
pub struct OutputBuffer {
    kept: Vec<u8>,
    discarded: u64,
}

/// The first bytes of all output.
pub open spec fn kept_part(all: Seq<u8>) -> Seq<u8> {
    if all.len() > MAX_OUTPUT {
        all.take(MAX_OUTPUT as int)
    } else {
        all
    }
}

pub open spec fn discarded_part(all: Seq<u8>) -> int {
    if all.len() > MAX_OUTPUT {
        all.len() - MAX_OUTPUT
    } else {
        0
    }
}

/// The notice about output that was discarded.
pub open spec fn notice(n: nat) -> Seq<char> {
    "\n[crond: "@ + crate::text::decimal_text(n) + " bytes of output discarded]\n"@
}

impl OutputBuffer {
    /// Is this what is left of all the output so far?
    pub closed spec fn holds(&self, all: Seq<u8>) -> bool {
        self.kept@ == kept_part(all) && self.discarded == discarded_part(all)
    }

    pub closed spec fn kept_bytes(&self) -> Seq<u8> {
        self.kept@
    }

    pub closed spec fn lost(&self) -> nat {
        self.discarded as nat
    }

    pub fn new() -> (r: OutputBuffer)
        ensures
            r.holds(seq![]),
            r.kept_bytes() == Seq::<u8>::empty(),
            r.lost() == 0,
    {
        OutputBuffer { kept: Vec::new(), discarded: 0 }
    }

    /// Takes more output; what does not fit is only counted.
    pub fn add_chunk(&mut self, chunk: &[u8])
        requires
            old(self).lost() + chunk@.len() <= u64::MAX,
        ensures
            forall|all: Seq<u8>| #[trigger]
                old(self).holds(all) ==> final(self).holds(all + chunk@),
            final(self).lost() <= old(self).lost() + chunk@.len(),
    {
        let room: usize = if self.kept.len() >= MAX_OUTPUT {
            0
        } else {
            MAX_OUTPUT - self.kept.len()
        };
        let n: usize = if chunk.len() > room {
            room
        } else {
            chunk.len()
        };
        let ghost before = self.kept@;
        let part = &chunk[0..n];
        let mut more = copy_bytes(part);
        let ghost m = more@;
        self.kept.append(&mut more);
        self.discarded = self.discarded + (chunk.len() - n) as u64;
        proof {
            assert(m =~= chunk@.take(n as int));
            assert forall|all: Seq<u8>| #[trigger] old(self).holds(all) implies self.holds(
                all + chunk@,
            ) by {
                let longer = all + chunk@;
                if all.len() > MAX_OUTPUT {
                    assert(longer.take(MAX_OUTPUT as int) =~= all.take(MAX_OUTPUT as int));
                    assert(self.kept@ =~= before);
                } else if longer.len() > MAX_OUTPUT {
                    assert(longer.take(MAX_OUTPUT as int) =~= all + chunk@.take(n as int));
                } else {
                    assert(chunk@.take(n as int) =~= chunk@);
                }
            }
        }
    }

    /// How many bytes were discarded.
    pub fn discarded(&self) -> (r: u64)
        ensures
            r == self.lost(),
    {
        self.discarded
    }

    /// The output to deliver, with a notice if some was discarded.
    pub fn finish(self) -> (r: Vec<u8>)
        ensures
            r@ == self.kept_bytes() + if self.lost() > 0 {
                vstd::utf8::encode_utf8(notice(self.lost()))
            } else {
                Seq::<u8>::empty()
            },
    {
        let lost: u64 = self.discarded;
        let mut out = self.kept;
        let ghost before = out@;
        if lost > 0 {
            let mut text = "\n[crond: ".to_owned();
            let n = number_text(lost);
            text.append(n.as_str());
            text.append(" bytes of output discarded]\n");
            let mut tail = copy_bytes(text.as_str().as_bytes());
            let ghost t = tail@;
            out.append(&mut tail);
            assert(out@ =~= before + t);
        } else {
            assert(before + Seq::<u8>::empty() =~= before);
        }
        out
    }
}

/// Output is kept up to the limit and counted beyond it: what is kept is the
/// beginning of all output, and nothing is lost below the limit.
pub proof fn law_output_is_capped(b: OutputBuffer, all: Seq<u8>)
    requires
        b.holds(all),
    ensures
        b.kept_bytes() == kept_part(all),
        b.lost() == discarded_part(all),
        b.kept_bytes().len() <= MAX_OUTPUT,
        b.kept_bytes().len() + b.lost() == all.len(),
        b.kept_bytes() == all.take(b.kept_bytes().len() as int),
{
    if all.len() <= MAX_OUTPUT {
        assert(all.take(all.len() as int) =~= all);
    }
}

// ---------------------------------------------------------------------------
// Delivery
// ---------------------------------------------------------------------------

/// May the character stand in a mail address, other than at its start?
pub open spec fn address_mark(c: char) -> bool {
    c == '@' || c == '!' || c == ':' || c == '%' || c == '-' || c == '.' || c == ',' || c == '_'
        || c == '+'
}

/// One plain mail address, which starts with a letter or a digit.
pub open spec fn plain_address(s: Seq<char>) -> bool {
    forall|i: int|
        0 <= i < s.len() ==> crate::text::letter(#[trigger] s[i]) || crate::text::digit(s[i]) || (i
            > 0 && address_mark(s[i]))
}

/// Plain mail addresses; a space may follow a comma between them.
pub open spec fn plain_addresses(s: Seq<char>) -> bool {
    forall|i: int| 0 <= i < s.len() ==> #[trigger] listed_char(s, i)
}

pub open spec fn listed_char(s: Seq<char>, i: int) -> bool {
    ||| crate::text::letter(s[i])
    ||| crate::text::digit(s[i])
    ||| i > 0 && (address_mark(s[i]) || (s[i] == ' ' && s[i - 1] == ','))
}

fn is_address_mark(c: char) -> (r: bool)
    ensures
        r == address_mark(c),
{
    c == '@' || c == '!' || c == ':' || c == '%' || c == '-' || c == '.' || c == ',' || c == '_'
        || c == '+'
}

/// Is this a sender address that can stand in a header and on a command line?
pub fn sender_is_safe(value: &str) -> (r: bool)
    ensures
        r == plain_address(value@),
{
    let chars = chars_of(value);
    let mut i: usize = 0;
    while i < chars.len()
        invariant
            i <= chars@.len(),
            chars@ == value@,
            forall|j: int|
                0 <= j < i ==> crate::text::letter(#[trigger] chars@[j]) || crate::text::digit(
                    chars@[j],
                ) || (j > 0 && address_mark(chars@[j])),
        decreases chars@.len() - i,
    {
        let c = chars[i];
        if !(is_letter(c) || is_digit(c) || (i > 0 && is_address_mark(c))) {
            assert(value@[i as int] == c);
            return false;
        }
        i += 1;
    }
    true
}

/// Are these recipients that can stand in a header?
pub fn recipients_are_safe(value: &str) -> (r: bool)
    ensures
        r == plain_addresses(value@),
{
    let chars = chars_of(value);
    let mut i: usize = 0;
    while i < chars.len()
        invariant
            i <= chars@.len(),
            chars@ == value@,
            forall|j: int| 0 <= j < i ==> #[trigger] listed_char(chars@, j),
        decreases chars@.len() - i,
    {
        let c = chars[i];
        if !(is_letter(c) || is_digit(c) || (i > 0 && (is_address_mark(c) || (c == ' ' && chars[i
            - 1] == ',')))) {
            assert(!listed_char(value@, i as int));
            return false;
        }
        i += 1;
    }
    true
}

/// A text with every control character replaced by a space.
pub open spec fn on_one_line(s: Seq<char>) -> Seq<char> {
    s.map_values(
        |c: char|
            if crate::text::control(c) {
                ' '
            } else {
                c
            },
    )
}

fn one_line(s: &str) -> (r: String)
    ensures
        r@ == on_one_line(s@),
{
    let chars = chars_of(s);
    let mut out: Vec<char> = Vec::new();
    let mut i: usize = 0;
    while i < chars.len()
        invariant
            i <= chars@.len(),
            chars@ == s@,
            out@ == on_one_line(s@).take(i as int),
        decreases chars@.len() - i,
    {
        let c = chars[i];
        out.push(
            if is_control(c) {
                ' '
            } else {
                c
            },
        );
        assert(out@ =~= on_one_line(s@).take(i + 1));
        i += 1;
    }
    assert(out@ =~= on_one_line(s@));
    string_of(out.as_slice())
}

/// The variables that are told in the mail: those whose value has no control
/// character.
pub open spec fn told_env(env: crate::crontab::EnvModel) -> crate::crontab::EnvModel
    decreases env.len(),
{
    if env.len() == 0 {
        seq![]
    } else if crate::mail::safe(env.last().1) {
        told_env(env.drop_last()).push(env.last())
    } else {
        told_env(env.drop_last())
    }
}

fn safe_env(env: &Vec<(String, String)>) -> (r: Vec<(String, String)>)
    ensures
        crate::crontab::env_model(r@) == told_env(crate::crontab::env_model(env@)),
{
    let ghost all = crate::crontab::env_model(env@);
    let mut out: Vec<(String, String)> = Vec::new();
    let mut i: usize = 0;
    assert(all.take(0) =~= seq![]);
    assert(crate::crontab::env_model(out@) =~= told_env(all.take(0)));
    while i < env.len()
        invariant
            i <= env@.len(),
            all == crate::crontab::env_model(env@),
            crate::crontab::env_model(out@) == told_env(all.take(i as int)),
        decreases env@.len() - i,
    {
        let ghost before = out@;
        assert(all.take(i + 1).drop_last() =~= all.take(i as int));
        assert(all.take(i + 1).last() == all[i as int]);
        if mailto_is_safe(env[i].1.as_str()) {
            out.push((env[i].0.clone(), env[i].1.clone()));
            assert(crate::crontab::env_model(out@) =~= crate::crontab::env_model(before).push(
                all[i as int],
            ));
        }
        i += 1;
    }
    assert(all.take(all.len() as int) =~= all);
    out
}

/// Who gets the output of a job.
pub open spec fn recipient(env: crate::crontab::EnvModel, user: Seq<char>) -> Seq<char> {
    crate::text::trim(var_or(env, "MAILTO"@, user))
}

/// Who is named as its sender; nobody for an empty text.
pub open spec fn sender(env: crate::crontab::EnvModel) -> Seq<char> {
    crate::text::trim(var_or(env, "MAILFROM"@, ""@))
}

/// Does the sender that was asked for stand in the mail?
pub open spec fn sender_used(env: crate::crontab::EnvModel) -> bool {
    sender(env).len() > 0 && plain_address(sender(env))
}

pub open spec fn from_line(env: crate::crontab::EnvModel, user: Seq<char>) -> Seq<char> {
    if sender_used(env) {
        sender(env)
    } else {
        "\"(Cron Daemon)\" <"@ + user + ">"@
    }
}

pub open spec fn content_type_of(env: crate::crontab::EnvModel, charset: Seq<char>) -> Seq<char> {
    match crate::crontab::env_value(env, "CONTENT_TYPE"@) {
        Some(v) if crate::mail::safe(v) => v,
        _ => "text/plain; charset="@ + charset,
    }
}

pub open spec fn subject_of(user: Seq<char>, host: Seq<char>, command: Seq<char>) -> Seq<char> {
    on_one_line("Cron <"@ + user + "@"@ + host + "> "@ + command)
}

/// What becomes of a job's output.
#[derive(Debug, Clone, PartialEq, Eq)]
pub enum Delivery {
    /// It goes nowhere.
    Nothing,
    /// It is logged, line by line.
    Log,
    /// It goes nowhere because the recipient is not safe.
    Unsafe(String),
    /// It is mailed. A sender that is not safe and was therefore not used
    /// comes with the message.
    Mail(Message, Option<String>),
}

/// Is nothing to be delivered, whatever the mailer?
pub open spec fn silent(
    env: crate::crontab::EnvModel,
    user: Seq<char>,
    failure_only: bool,
    success: bool,
    output: Seq<u8>,
) -> bool {
    output.len() == 0 || (failure_only && success) || recipient(env, user).len() == 0
}

impl Runner {
    /// Is this the message about that output?
    pub open spec fn told(
        self,
        user: Seq<char>,
        command: Seq<char>,
        env: crate::crontab::EnvModel,
        output: Seq<u8>,
        m: Message,
    ) -> bool {
        &&& m.from@ == from_line(env, user)
        &&& crate::crontab::text_model(m.envelope_from) == if sender_used(env) {
            Some(sender(env))
        } else {
            None
        }
        &&& m.to@ == recipient(env, user)
        &&& m.subject@ == subject_of(user, self.hostname@, command)
        &&& m.content_type@ == content_type_of(env, self.mail_charset@)
        &&& crate::crontab::env_model(m.env@) == told_env(env)
        &&& m.body@ == output
    }

    fn content_type(&self, env: &Vec<(String, String)>) -> (r: String)
        ensures
            r@ == content_type_of(crate::crontab::env_model(env@), self.mail_charset@),
    {
        if let Some(v) = env_get(env.as_slice(), "CONTENT_TYPE") {
            if mailto_is_safe(v) {
                return v.to_owned();
            }
        }
        let mut s = "text/plain; charset=".to_owned();
        s.append(self.mail_charset.as_str());
        s
    }

    fn subject(&self, user: &str, command: &str) -> (r: String)
        ensures
            r@ == subject_of(user@, self.hostname@, command@),
    {
        let mut s = "Cron <".to_owned();
        s.append(user);
        s.append("@");
        s.append(self.hostname.as_str());
        s.append("> ");
        s.append(command);
        one_line(s.as_str())
    }

    /// Decide what becomes of the output of a job that ran with `env` and
    /// succeeded or not.
    pub fn deliver(
        &self,
        user: &str,
        entry: &Entry,
        env: &Vec<(String, String)>,
        success: bool,
        output: &[u8],
    ) -> (r: Delivery)
        ensures
            ({
                let e = crate::crontab::env_model(env@);
                let to = recipient(e, user@);
                if silent(e, user@, entry.mail_on_failure_only, success, output@) {
                    r is Nothing
                } else if self.mailer@ is Off {
                    if self.syslog_output {
                        r is Log
                    } else {
                        r is Nothing
                    }
                } else if !plain_addresses(to) {
                    r matches Delivery::Unsafe(v) && v@ == to
                } else {
                    &&& r matches Delivery::Mail(m, rejected)
                    &&& self.told(user@, entry.raw_command@, e, output@, m)
                    &&& crate::crontab::text_model(rejected) == if sender(e).len() > 0
                        && !sender_used(e) {
                        Some(sender(e))
                    } else {
                        None
                    }
                }
            }),
    {
        if output.len() == 0 {
            return Delivery::Nothing;
        }
        if entry.mail_on_failure_only && success {
            return Delivery::Nothing;
        }
        let to_text = chars_of(get_or(env, "MAILTO", user).as_str());
        let to = string_of(trimmed(to_text.as_slice()));
        if to.as_str().unicode_len() == 0 {
            return Delivery::Nothing;
        }
        if self.mailer.is_off() {
            return if self.syslog_output {
                Delivery::Log
            } else {
                Delivery::Nothing
            };
        }
        if !recipients_are_safe(to.as_str()) {
            return Delivery::Unsafe(to);
        }
        let from_text = chars_of(get_or(env, "MAILFROM", "").as_str());
        let asked = string_of(trimmed(from_text.as_slice()));
        let given = asked.as_str().unicode_len() > 0;
        let used = given && sender_is_safe(asked.as_str());
        let from = if used {
            asked.clone()
        } else {
            let mut s = "\"(Cron Daemon)\" <".to_owned();
            s.append(user);
            s.append(">");
            s
        };
        let message = Message {
            from,
            envelope_from: if used {
                Some(asked.clone())
            } else {
                None
            },
            to,
            subject: self.subject(user, entry.raw_command.as_str()),
            content_type: self.content_type(env),
            env: safe_env(env),
            body: copy_bytes(output),
        };
        let rejected = if given && !used {
            Some(asked)
        } else {
            None
        };
        Delivery::Mail(message, rejected)
    }
}

proof fn lemma_told_env(env: crate::crontab::EnvModel, i: int)
    requires
        0 <= i < told_env(env).len(),
    ensures
        crate::mail::safe(told_env(env)[i].1),
        exists|k: int| 0 <= k < env.len() && env[k] == told_env(env)[i],
    decreases env.len(),
{
    let shorter = env.drop_last();
    if i < told_env(shorter).len() {
        lemma_told_env(shorter, i);
        let k = choose|k: int| 0 <= k < shorter.len() && shorter[k] == told_env(shorter)[i];
        assert(env[k] == told_env(env)[i]);
    } else {
        assert(env[env.len() - 1] == told_env(env)[i]);
    }
}

/// A message about a job's output has no control character in its headers, so
/// that none of its values can add a header line: one header line for every
/// variable told, eight others.
pub proof fn law_mail_headers_are_safe(
    runner: Runner,
    user: Seq<char>,
    command: Seq<char>,
    env: crate::crontab::EnvModel,
    output: Seq<u8>,
    m: Message,
)
    requires
        runner.told(user, command, env, output, m),
        plain_addresses(recipient(env, user)),
        crate::mail::safe(user),
        crate::mail::safe(runner.mail_charset@),
        forall|i: int| 0 <= i < env.len() ==> crate::mail::safe((#[trigger] env[i]).0),
    ensures
        crate::mail::newlines(m.head()) == 8 + told_env(env).len(),
{
    reveal_strlit("\"(Cron Daemon)\" <");
    reveal_strlit(">");
    reveal_strlit("text/plain; charset=");
    let told = told_env(env);
    assert(crate::mail::safe(m.from@));
    assert(crate::mail::safe(m.to@)) by {
        assert forall|i: int| 0 <= i < m.to@.len() implies !crate::text::control(
            #[trigger] m.to@[i],
        ) by {
            assert(listed_char(m.to@, i));
        }
    }
    assert(crate::mail::safe(m.subject@));
    assert(crate::mail::safe(m.content_type@));
    assert forall|i: int| 0 <= i < told.len() implies crate::mail::safe((#[trigger] told[i]).0)
        && crate::mail::safe(told[i].1) by {
        lemma_told_env(env, i);
        let k = choose|k: int| 0 <= k < env.len() && env[k] == told_env(env)[i];
        assert(crate::mail::safe(env[k].0));
    }
    crate::mail::law_no_header_injection(m.from@, m.to@, m.subject@, m.content_type@, told);
}

// ---------------------------------------------------------------------------
// Laws
// ---------------------------------------------------------------------------

/// Only root can run jobs of others, and only root switches identity to do so.
pub proof fn law_identity_switch(euid: u32, target: u32, r: Result<bool, String>)
    requires
        call_ensures(should_switch, (euid, target), r),
    ensures
        r is Err <==> euid != 0 && euid != target,
        r matches Ok(switch) ==> (switch <==> euid == 0),
{
}

/// An account without an expiry date never expires; another one does on that
/// date, and stays so.
pub proof fn law_expiry(expire: i64, today: i64, r: bool)
    requires
        call_ensures(account_expired, (expire, today), r),
    ensures
        expire <= 0 ==> !r,
        expire > 0 && today >= expire ==> r,
        today < expire ==> !r,
{
}

/// A day has 86400 seconds, and days are counted from the epoch on.
pub proof fn law_days(secs: i64, r: i64)
    requires
        call_ensures(today_days, (secs,), r),
    ensures
        secs >= 0 ==> r * 86400 <= secs < (r + 1) * 86400,
        secs < 0 ==> r == 0,
{
}

/// A job runs if its user exists, and the daemon is root or that user. If the
/// daemon is root, the user's account must not have expired, unless the user is
/// root.
pub proof fn law_who_may_run(
    user: &str,
    uid: Option<u32>,
    euid: u32,
    expire: Option<i64>,
    today: i64,
    r: Result<bool, RunError>,
)
    requires
        call_ensures(may_run, (user, uid, euid, expire, today), r),
    ensures
        uid is None ==> r is Err && r->Err_0 is UnknownUser,
        uid matches Some(id) ==> {
            let expired = expire matches Some(e) && e > 0 && e <= today;
            &&& euid != 0 && euid == id ==> r == Ok::<bool, RunError>(false)
            &&& euid != 0 && euid != id ==> r is Err && r->Err_0 is NotRoot
            &&& euid == 0 && id == 0 ==> r == Ok::<bool, RunError>(true)
            &&& euid == 0 && id != 0 && !expired ==> r == Ok::<bool, RunError>(true)
            &&& euid == 0 && id != 0 && expired ==> r is Err && r->Err_0 is Expired
        },
{
}

/// Assignments take effect in order: the last one of a variable decides, and it
/// leaves all other variables alone. Those of the two protected variables have
/// no effect.
pub proof fn law_last_assignment_counts(
    base: crate::crontab::EnvModel,
    assignments: crate::crontab::EnvModel,
    name: Seq<char>,
    value: Seq<char>,
    other: Seq<char>,
)
    ensures
        ({
            let before = overlaid(base, assignments);
            let after = overlaid(base, assignments.push((name, value)));
            &&& name != "LOGNAME"@ && name != "USER"@ ==> crate::crontab::env_value(after, name)
                == Some(value)
            &&& name == "LOGNAME"@ || name == "USER"@ ==> after == before
            &&& other != name ==> crate::crontab::env_value(after, other)
                == crate::crontab::env_value(before, other)
        }),
        overlaid(base, seq![]) == base,
{
    let all = assignments.push((name, value));
    assert(all.drop_last() =~= assignments);
    assert(all.last() == (name, value));
    crate::crontab::law_assignment(overlaid(base, assignments), name, value, other);
}

proof fn lemma_unassigned(
    base: crate::crontab::EnvModel,
    assignments: crate::crontab::EnvModel,
    name: Seq<char>,
)
    requires
        forall|i: int| 0 <= i < assignments.len() ==> (#[trigger] assignments[i]).0 != name,
    ensures
        crate::crontab::env_value(overlaid(base, assignments), name) == crate::crontab::env_value(
            base,
            name,
        ),
    decreases assignments.len(),
{
    if assignments.len() > 0 {
        let shorter = assignments.drop_last();
        let (n, v) = assignments.last();
        assert(assignments[assignments.len() - 1].0 != name);
        assert forall|i: int| 0 <= i < shorter.len() implies (#[trigger] shorter[i]).0 != name by {
            assert(assignments[i].0 != name);
        }
        lemma_unassigned(base, shorter, name);
        law_last_assignment_counts(base, shorter, n, v, name);
        assert(shorter.push((n, v)) =~= assignments);
    }
}

proof fn lemma_base_env(shell: Seq<char>, path: Seq<char>, home: Seq<char>, name: Seq<char>)
    ensures
        ({
            let base = base_env(shell, path, home, name);
            &&& crate::crontab::env_value(base, "SHELL"@) == Some(shell)
            &&& crate::crontab::env_value(base, "PATH"@) == Some(path)
            &&& crate::crontab::env_value(base, "HOME"@) == Some(home)
            &&& forall|other: Seq<char>|
                other != "SHELL"@ && other != "PATH"@ && other != "HOME"@ && other != "LOGNAME"@
                    && other != "USER"@ ==> #[trigger] crate::crontab::env_value(base, other)
                    is None
        }),
{
    let base = base_env(shell, path, home, name);
    reveal_strlit("SHELL");
    reveal_strlit("PATH");
    reveal_strlit("HOME");
    assert("SHELL"@[0] == 'S' && "PATH"@[0] == 'P' && "HOME"@[0] == 'H');
    crate::crontab::lemma_env_index_is(base, "SHELL"@, 0);
    crate::crontab::lemma_env_index_is(base, "PATH"@, 1);
    crate::crontab::lemma_env_index_is(base, "HOME"@, 2);
    assert forall|other: Seq<char>|
        other != "SHELL"@ && other != "PATH"@ && other != "HOME"@ && other != "LOGNAME"@ && other
            != "USER"@ implies #[trigger] crate::crontab::env_value(base, other) is None by {
        crate::crontab::lemma_env_index_is(base, other, 5);
    }
}

/// What a crontab does not set, a job has from the daemon: the shell and the path
/// from the settings (or, where that is asked for, the daemon's own path), and
/// the home directory from the account. It has no other variables.
pub proof fn law_default_variables(
    runner: Runner,
    pw: Account,
    entry: Entry,
    daemon_path: Option<Seq<char>>,
    name: Seq<char>,
)
    requires
        forall|i: int|
            0 <= i < crate::crontab::env_model(entry.env@).len() ==> (
            #[trigger] crate::crontab::env_model(entry.env@)[i]).0 != name,
    ensures
        ({
            let value = crate::crontab::env_value(job_env(runner, pw, entry, daemon_path), name);
            &&& name == "SHELL"@ ==> value == Some(runner.default_shell@)
            &&& name == "HOME"@ ==> value == Some(pw.home@)
            &&& name == "PATH"@ && !runner.inherit_path ==> value == Some(runner.default_path@)
            &&& name == "PATH"@ && runner.inherit_path ==> value == Some(
                match daemon_path {
                    Some(p) => p,
                    None => runner.default_path@,
                },
            )
            &&& name != "SHELL"@ && name != "HOME"@ && name != "PATH"@ && name != "LOGNAME"@ && name
                != "USER"@ ==> value is None
        }),
{
    let path = match daemon_path {
        Some(p) if runner.inherit_path => p,
        _ => runner.default_path@,
    };
    lemma_base_env(runner.default_shell@, path, pw.home@, pw.name@);
    let base = base_env(runner.default_shell@, path, pw.home@, pw.name@);
    lemma_unassigned(base, crate::crontab::env_model(entry.env@), name);
}

/// A variable that a crontab sets reaches the job with its value, whatever the
/// daemon would give it.
pub proof fn law_crontab_variables_reach_the_job(
    runner: Runner,
    pw: Account,
    entry: Entry,
    daemon_path: Option<Seq<char>>,
    i: int,
)
    requires
        0 <= i < entry.env@.len(),
        entry.env@[i].0@ != "LOGNAME"@,
        entry.env@[i].0@ != "USER"@,
        forall|j: int|
            i < j < entry.env@.len() ==> (#[trigger] entry.env@[j]).0@ != entry.env@[i].0@,
    ensures
        crate::crontab::env_value(
            job_env(runner, pw, entry, daemon_path),
            entry.env@[i].0@,
        ) == Some(entry.env@[i].1@),
{
    let path = match daemon_path {
        Some(p) if runner.inherit_path => p,
        _ => runner.default_path@,
    };
    let base = base_env(runner.default_shell@, path, pw.home@, pw.name@);
    let all = crate::crontab::env_model(entry.env@);
    assert forall|j: int| i < j < all.len() implies (#[trigger] all[j]).0 != all[i].0 by {
        assert(entry.env@[j].0@ != entry.env@[i].0@);
    }
    lemma_assigned(base, all, i);
}

proof fn lemma_assigned(
    base: crate::crontab::EnvModel,
    all: crate::crontab::EnvModel,
    i: int,
)
    requires
        0 <= i < all.len(),
        all[i].0 != "LOGNAME"@,
        all[i].0 != "USER"@,
        forall|j: int| i < j < all.len() ==> (#[trigger] all[j]).0 != all[i].0,
    ensures
        crate::crontab::env_value(overlaid(base, all), all[i].0) == Some(all[i].1),
    decreases all.len(),
{
    let shorter = all.drop_last();
    let (n, v) = all.last();
    assert(shorter.push((n, v)) =~= all);
    law_last_assignment_counts(base, shorter, n, v, all[i].0);
    if i < shorter.len() {
        assert(all[all.len() - 1].0 != all[i].0);
        assert forall|j: int| i < j < shorter.len() implies (#[trigger] shorter[j]).0
            != shorter[i].0 by {
            assert(all[j].0 != all[i].0);
        }
        lemma_assigned(base, shorter, i);
    }
}

/// A job is started by the shell, and in the directory, that its environment
/// names.
pub proof fn law_job_start(
    runner: Runner,
    pw: Account,
    entry: Entry,
    daemon_path: Option<&str>,
    r: JobPlan,
)
    requires
        call_ensures(Runner::prepare, (&runner, &pw, &entry, daemon_path), r),
    ensures
        ({
            let env = crate::crontab::env_model(r.env@);
            &&& env == job_env(runner, pw, entry, opt_text(daemon_path))
            &&& crate::crontab::env_value(env, "SHELL"@) == Some(r.shell@)
                || crate::crontab::env_value(env, "SHELL"@) is None && r.shell@ == "/bin/sh"@
            &&& crate::crontab::env_value(env, "HOME"@) == Some(r.home@)
                || crate::crontab::env_value(env, "HOME"@) is None && r.home@ == pw.home@
        }),
{
}

/// The first mebibyte of output is kept, byte for byte, and the rest is counted.
pub proof fn law_first_mebibyte_is_kept(b: OutputBuffer, all: Seq<u8>)
    requires
        b.holds(all),
    ensures
        all.len() <= 1048576 ==> b.kept_bytes() == all && b.lost() == 0,
        all.len() > 1048576 ==> b.kept_bytes() == all.take(1048576) && b.lost() == all.len()
            - 1048576,
{
}

/// What is delivered begins with what was kept. Nothing is added to it if nothing
/// was lost, and otherwise a notice that tells how much was.
pub proof fn law_finished_output(b: OutputBuffer, r: Vec<u8>)
    requires
        call_ensures(OutputBuffer::finish, (b,), r),
    ensures
        b.kept_bytes().is_prefix_of(r@),
        b.lost() == 0 ==> r@ == b.kept_bytes(),
        b.lost() > 0 ==> r@ == b.kept_bytes() + vstd::utf8::encode_utf8(
            "\n[crond: "@ + crate::text::decimal_text(b.lost())
                + " bytes of output discarded]\n"@,
        ),
{
}

/// A sender begins with a letter or a digit and goes on with these or the marks
/// `@!:%-.,_+`; no other text can stand on a command line.
pub proof fn law_sender_addresses(s: Seq<char>)
    ensures
        plain_address(s) <==> forall|i: int|
            0 <= i < s.len() ==> {
                ||| 'a' <= #[trigger] s[i] <= 'z'
                ||| 'A' <= s[i] <= 'Z'
                ||| '0' <= s[i] <= '9'
                ||| i > 0 && (s[i] == '@' || s[i] == '!' || s[i] == ':' || s[i] == '%' || s[i]
                    == '-' || s[i] == '.' || s[i] == ',' || s[i] == '_' || s[i] == '+')
            },
{
}

/// Recipients are written like senders, and a space may follow a comma between
/// them.
pub proof fn law_recipient_addresses(s: Seq<char>)
    ensures
        plain_addresses(s) <==> forall|i: int|
            0 <= i < s.len() ==> {
                ||| 'a' <= #[trigger] s[i] <= 'z'
                ||| 'A' <= s[i] <= 'Z'
                ||| '0' <= s[i] <= '9'
                ||| i > 0 && (s[i] == '@' || s[i] == '!' || s[i] == ':' || s[i] == '%' || s[i]
                    == '-' || s[i] == '.' || s[i] == ',' || s[i] == '_' || s[i] == '+')
                ||| i > 0 && s[i] == ' ' && s[i - 1] == ','
            },
        plain_address(s) ==> plain_addresses(s),
{
    if plain_addresses(s) {
        assert forall|i: int| 0 <= i < s.len() implies {
            ||| 'a' <= #[trigger] s[i] <= 'z'
            ||| 'A' <= s[i] <= 'Z'
            ||| '0' <= s[i] <= '9'
            ||| i > 0 && (s[i] == '@' || s[i] == '!' || s[i] == ':' || s[i] == '%' || s[i] == '-'
                || s[i] == '.' || s[i] == ',' || s[i] == '_' || s[i] == '+')
            ||| i > 0 && s[i] == ' ' && s[i - 1] == ','
        } by {
            assert(listed_char(s, i));
        }
    }
}

/// Control characters become spaces, one for one, and all else stays.
pub proof fn law_one_line(s: Seq<char>)
    ensures
        on_one_line(s).len() == s.len(),
        forall|i: int|
            0 <= i < s.len() ==> #[trigger] on_one_line(s)[i] == if s[i] as u32 <= 0x1f || 0x7f
                <= s[i] as u32 <= 0x9f {
                ' '
            } else {
                s[i]
            },
{
}

/// The mail tells every variable but those with a control character, in order.
pub proof fn law_told_variables(
    env: crate::crontab::EnvModel,
    name: Seq<char>,
    value: Seq<char>,
)
    ensures
        crate::mail::safe(value) ==> told_env(env.push((name, value))) == told_env(env).push(
            (name, value),
        ),
        !crate::mail::safe(value) ==> told_env(env.push((name, value))) == told_env(env),
        told_env(seq![]).len() == 0,
        told_env(env).len() <= env.len(),
    decreases env.len(),
{
    assert(env.push((name, value)).drop_last() =~= env);
    if env.len() > 0 {
        let (n, v) = env.last();
        law_told_variables(env.drop_last(), n, v);
        assert(env.drop_last().push((n, v)) =~= env);
    }
}

/// `MAILTO` names the recipients, without the white space around them, and
/// otherwise the user gets the mail.
pub proof fn law_recipient(env: crate::crontab::EnvModel, user: Seq<char>)
    ensures
        crate::crontab::env_value(env, "MAILTO"@) matches Some(v) ==> recipient(env, user)
            == crate::text::trim(v),
        crate::crontab::env_value(env, "MAILTO"@) is None ==> recipient(env, user)
            == crate::text::trim(user),
{
}

/// Output is not delivered if there is none, if only failures are to be mailed
/// and the job did not fail, or if there is no recipient. If mail is off it is
/// logged where that is asked for.
pub proof fn law_undelivered_output(
    runner: Runner,
    user: &str,
    entry: Entry,
    env: Vec<(String, String)>,
    success: bool,
    output: &[u8],
    r: Delivery,
)
    requires
        call_ensures(Runner::deliver, (&runner, user, &entry, &env, success, output), r),
    ensures
        ({
            let e = crate::crontab::env_model(env@);
            let to = recipient(e, user@);
            &&& output@.len() == 0 ==> r is Nothing
            &&& entry.mail_on_failure_only && success ==> r is Nothing
            &&& to.len() == 0 ==> r is Nothing
            &&& output@.len() > 0 && !(entry.mail_on_failure_only && success) && to.len() > 0 ==> {
                &&& runner.mailer is Off && runner.syslog_output ==> r is Log
                &&& runner.mailer is Off && !runner.syslog_output ==> r is Nothing
                &&& !(runner.mailer is Off) && !plain_addresses(to) ==> r is Unsafe && r->Unsafe_0@
                    == to
                &&& !(runner.mailer is Off) && plain_addresses(to) ==> r is Mail
            }
        }),
{
}

/// Output that is mailed goes, all of it, to the recipient, from the sender that
/// was asked for if that is a plain address, about the command as it is written.
pub proof fn law_mailed_output(
    runner: Runner,
    user: &str,
    entry: Entry,
    env: Vec<(String, String)>,
    success: bool,
    output: &[u8],
    r: Delivery,
)
    requires
        call_ensures(Runner::deliver, (&runner, user, &entry, &env, success, output), r),
    ensures
        ({
            let e = crate::crontab::env_model(env@);
            let asked = crate::text::trim(
                match crate::crontab::env_value(e, "MAILFROM"@) {
                    Some(v) => v,
                    None => ""@,
                },
            );
            r matches Delivery::Mail(m, rejected) ==> {
                &&& m.body@ == output@
                &&& m.to@ == recipient(e, user@)
                &&& m.subject@ == on_one_line(
                    "Cron <"@ + user@ + "@"@ + runner.hostname@ + "> "@ + entry.raw_command@,
                )
                &&& crate::crontab::env_model(m.env@) == told_env(e)
                &&& asked.len() > 0 && plain_address(asked) ==> {
                    &&& m.from@ == asked
                    &&& m.envelope_from matches Some(f) && f@ == asked
                    &&& rejected is None
                }
                &&& !(asked.len() > 0 && plain_address(asked)) ==> {
                    &&& m.from@ == "\"(Cron Daemon)\" <"@ + user@ + ">"@
                    &&& m.envelope_from is None
                    &&& rejected is Some <==> asked.len() > 0
                    &&& rejected matches Some(s) ==> s@ == asked
                }
                &&& match crate::crontab::env_value(e, "CONTENT_TYPE"@) {
                    Some(v) if crate::mail::safe(v) => m.content_type@ == v,
                    _ => m.content_type@ == "text/plain; charset="@ + runner.mail_charset@,
                }
            }
        }),
{
}

} // verus!
