//! Delivery of job output by mail: the message, how the mailer is invoked, and
//! what its exit means.

use vstd::prelude::*;
use vstd::string::StringSliceAdditionalSpecFns;

use crate::text::{chars_of, is_control, lower_chars, same, string_of, trimmed};
use crate::zone::copy_bytes;

verus! {

/// Seconds a mailer may run before it is killed.
pub const MAILER_TIMEOUT: u64 = 300;

/// How much mailer stderr is kept for error reports.
pub const MAX_STDERR: usize = 1024;

/// Longest pause, in milliseconds, between two looks at a running mailer.
pub const MAX_POLL_DELAY: u64 = 200;

/// How job output is delivered.
#[derive(Debug, Clone, PartialEq, Eq)]
pub enum Mailer {
    /// Invoke a sendmail-compatible binary with `-t`.
    Sendmail(String),
    /// Invoke an arbitrary shell command that reads the message on stdin.
    Command(String),
    /// Discard output.
    Off,
}

/// Where a sendmail binary may be, in the order in which they are tried.
pub const SENDMAIL_CANDIDATES: [&'static str; 4] = [
    "/usr/sbin/sendmail",
    "/usr/lib/sendmail",
    "/usr/bin/sendmail",
    "/sbin/sendmail",
];

pub open spec fn candidate(i: int) -> Seq<char> {
    if i == 0 {
        "/usr/sbin/sendmail"@
    } else if i == 1 {
        "/usr/lib/sendmail"@
    } else if i == 2 {
        "/usr/bin/sendmail"@
    } else {
        "/sbin/sendmail"@
    }
}

pub enum MailerModel {
    Sendmail(Seq<char>),
    Command(Seq<char>),
    Off,
}

/// What a `-m` argument names.
pub open spec fn mailer_arg(arg: Seq<char>) -> MailerModel {
    if crate::text::lower_seq(arg) == "off"@ {
        MailerModel::Off
    } else {
        MailerModel::Command(arg)
    }
}

/// The first candidate that is there.
pub open spec fn detected(present: Seq<String>, from: int) -> MailerModel
    decreases 4 - from,
{
    if from >= 4 {
        MailerModel::Off
    } else if crate::path_map::on_list(present, candidate(from)) {
        MailerModel::Sendmail(candidate(from))
    } else {
        detected(present, from + 1)
    }
}

/// The arguments of `sendmail`.
pub open spec fn sendmail_args(envelope_from: Option<Seq<char>>) -> Seq<Seq<char>> {
    let fixed = seq!["-FCronDaemon"@, "-i"@, "-odi"@, "-oem"@, "-oi"@, "-t"@];
    match envelope_from {
        Some(from) => fixed + seq!["-f"@, from],
        None => fixed,
    }
}

/// The program to run and its arguments; nothing for `Off`.
pub open spec fn command_line(mailer: MailerModel, envelope_from: Option<Seq<char>>) -> Seq<
    Seq<char>,
> {
    match mailer {
        MailerModel::Off => seq![],
        MailerModel::Sendmail(path) => seq![path] + sendmail_args(envelope_from),
        MailerModel::Command(shell) => seq!["/bin/sh"@, "-c"@, shell],
    }
}

pub open spec fn texts(list: Seq<String>) -> Seq<Seq<char>> {
    list.map_values(|s: String| s@)
}

impl Mailer {
    pub open spec fn view(&self) -> MailerModel {
        match self {
            Mailer::Sendmail(p) => MailerModel::Sendmail(p@),
            Mailer::Command(c) => MailerModel::Command(c@),
            Mailer::Off => MailerModel::Off,
        }
    }

    /// Locate a sendmail binary; [`Mailer::Off`] when there is none. `present`
    /// lists the candidates that are regular files.
    pub fn detect(present: &Vec<String>) -> (r: Mailer)
        ensures
            r@ == detected(present@, 0),
    {
        let mut i: usize = 0;
        while i < 4
            invariant
                i <= 4,
                detected(present@, i as int) == detected(present@, 0),
            decreases 4 - i,
        {
            let path = SENDMAIL_CANDIDATES[i];
            assert(path@ == candidate(i as int));
            if crate::path_map::listed_path(present, path) {
                return Mailer::Sendmail(path.to_owned());
            }
            i += 1;
        }
        Mailer::Off
    }

    /// Parse a `-m` argument: `off` disables mail, anything else is a shell
    /// command.
    pub fn from_arg(arg: &str) -> (r: Mailer)
        ensures
            r@ == mailer_arg(arg@),
    {
        let chars = chars_of(arg);
        let low = lower_chars(chars.as_slice());
        if same(low.as_slice(), chars_of("off").as_slice()) {
            Mailer::Off
        } else {
            Mailer::Command(arg.to_owned())
        }
    }

    pub fn is_off(&self) -> (r: bool)
        ensures
            r == (self@ is Off),
    {
        match self {
            Mailer::Off => true,
            _ => false,
        }
    }

    /// The program to run and its arguments; nothing for [`Mailer::Off`].
    pub fn command(&self, envelope_from: &Option<String>) -> (r: Vec<String>)
        ensures
            texts(r@) == command_line(self@, crate::crontab::text_model(*envelope_from)),
    {
        let mut out: Vec<String> = Vec::new();
        match self {
            Mailer::Off => {},
            Mailer::Sendmail(path) => {
                out.push(path.clone());
                out.push("-FCronDaemon".to_owned());
                out.push("-i".to_owned());
                out.push("-odi".to_owned());
                out.push("-oem".to_owned());
                out.push("-oi".to_owned());
                out.push("-t".to_owned());
                if let Some(from) = envelope_from {
                    out.push("-f".to_owned());
                    out.push(from.clone());
                }
            },
            Mailer::Command(shell) => {
                out.push("/bin/sh".to_owned());
                out.push("-c".to_owned());
                out.push(shell.clone());
            },
        }
        assert(texts(out@) =~= command_line(self@, crate::crontab::text_model(*envelope_from)));
        out
    }
}

// ---------------------------------------------------------------------------
// Running the mailer
// ---------------------------------------------------------------------------

/// What to do about a running mailer.
#[derive(Debug, Clone, Copy, PartialEq, Eq, Structural)]
pub enum Poll {
    /// It has exited.
    Done,
    /// It has run too long: kill it and give up.
    Kill,
    /// Look again after this many milliseconds; the pause after that is twice
    /// as long, up to a limit.
    Sleep(u64),
}

/// Decides about a mailer that has run for `elapsed` milliseconds, looked at
/// every `delay` milliseconds so far.
pub fn poll_mailer(exited: bool, elapsed: u64, delay: u64) -> (r: Poll)
    ensures
        r == if exited {
            Poll::Done
        } else if elapsed >= MAILER_TIMEOUT * 1000 {
            Poll::Kill
        } else {
            Poll::Sleep(delay)
        },
{
    if exited {
        Poll::Done
    } else if elapsed >= MAILER_TIMEOUT * 1000 {
        Poll::Kill
    } else {
        Poll::Sleep(delay)
    }
}

/// The pause after one of `delay` milliseconds.
pub fn next_delay(delay: u64) -> (r: u64)
    ensures
        r == if 2 * delay < MAX_POLL_DELAY {
            2 * delay
        } else {
            MAX_POLL_DELAY as int
        },
{
    if delay < MAX_POLL_DELAY / 2 {
        2 * delay
    } else {
        MAX_POLL_DELAY
    }
}

/// Keeps the first bytes of what a mailer writes to stderr.
pub fn keep_stderr(kept: &mut Vec<u8>, chunk: &[u8])
    ensures
        final(kept)@ == old(kept)@ + chunk@.take(
            if old(kept)@.len() >= MAX_STDERR {
                0
            } else if chunk@.len() > MAX_STDERR - old(kept)@.len() {
                MAX_STDERR - old(kept)@.len()
            } else {
                chunk@.len() as int
            },
        ),
        old(kept)@.len() <= 1024 ==> {
            &&& final(kept)@.is_prefix_of(old(kept)@ + chunk@)
            &&& final(kept)@.len() == 1024 || final(kept)@ == old(kept)@ + chunk@
            &&& final(kept)@.len() <= 1024
        },
{
    let room: usize = if kept.len() >= MAX_STDERR {
        0
    } else {
        MAX_STDERR - kept.len()
    };
    let n: usize = if chunk.len() > room {
        room
    } else {
        chunk.len()
    };
    let part = &chunk[0..n];
    let mut more = copy_bytes(part);
    let ghost m = more@;
    kept.append(&mut more);
    assert(m =~= chunk@.take(n as int));
}

/// What went wrong with a mailer that exited: its status and stderr, or
/// failing that, what kept it from being fed.
pub open spec fn mail_failure(
    success: bool,
    status: Seq<char>,
    stderr: Seq<char>,
    write_error: Option<Seq<char>>,
) -> Option<Seq<char>> {
    let said = crate::text::trim(stderr);
    if !success {
        if said.len() == 0 {
            Some("mailer exited with "@ + status)
        } else {
            Some("mailer exited with "@ + status + ": "@ + said)
        }
    } else {
        match write_error {
            Some(e) => Some("writing to mailer: "@ + e),
            None => None,
        }
    }
}

/// The outcome of a mailer that exited.
pub fn mail_result(success: bool, status: &str, stderr: &str, write_error: &Option<String>) -> (r:
    Result<(), String>)
    ensures
        match mail_failure(
            success,
            status@,
            stderr@,
            crate::crontab::text_model(*write_error),
        ) {
            Some(e) => r matches Err(x) && x@ == e,
            None => r is Ok,
        },
{
    if !success {
        let chars = chars_of(stderr);
        let said = trimmed(chars.as_slice());
        let mut text = "mailer exited with ".to_owned();
        text.append(status);
        if said.len() > 0 {
            text.append(": ");
            let s = string_of(said);
            text.append(s.as_str());
        }
        return Err(text);
    }
    match write_error {
        Some(e) => {
            let mut text = "writing to mailer: ".to_owned();
            text.append(e.as_str());
            Err(text)
        },
        None => Ok(()),
    }
}

// ---------------------------------------------------------------------------
// Messages
// ---------------------------------------------------------------------------

/// A job-output message.
#[derive(Debug, Clone, PartialEq, Eq)]
pub struct Message {
    pub from: String,
    pub envelope_from: Option<String>,
    pub to: String,
    pub subject: String,
    pub content_type: String,
    pub env: Vec<(String, String)>,
    pub body: Vec<u8>,
}

/// The header lines that tell the job's environment.
pub open spec fn env_headers(env: crate::crontab::EnvModel) -> Seq<char>
    decreases env.len(),
{
    if env.len() == 0 {
        seq![]
    } else {
        env_headers(env.drop_last()) + ("X-Cron-Env: <"@ + env.last().0 + "="@ + env.last().1
            + ">\n"@)
    }
}

/// One header line.
pub open spec fn header(name: Seq<char>, value: Seq<char>) -> Seq<char> {
    name + ": "@ + value + "\n"@
}

/// The header of a message, up to the empty line that ends it.
pub open spec fn head_text(
    from: Seq<char>,
    to: Seq<char>,
    subject: Seq<char>,
    content_type: Seq<char>,
    env: crate::crontab::EnvModel,
) -> Seq<char> {
    header("From"@, from) + header("To"@, to) + header("Subject"@, subject) + header(
        "Content-Type"@,
        content_type,
    ) + header("Auto-Submitted"@, "auto-generated"@) + header("Precedence"@, "bulk"@) + header(
        "MIME-Version"@,
        "1.0"@,
    ) + env_headers(env) + "\n"@
}

/// The body, ending in a newline.
pub open spec fn closed_body(body: Seq<u8>) -> Seq<u8> {
    if body.len() > 0 && body.last() == 0x0a {
        body
    } else {
        body.push(0x0a)
    }
}

fn add_header(out: &mut String, name: &str, value: &str)
    ensures
        final(out)@ == old(out)@ + header(name@, value@),
{
    let ghost before = out@;
    out.append(name);
    out.append(": ");
    out.append(value);
    out.append("\n");
    assert(out@ =~= before + header(name@, value@));
}

impl Message {
    /// The header text of the message.
    pub open spec fn head(&self) -> Seq<char> {
        head_text(
            self.from@,
            self.to@,
            self.subject@,
            self.content_type@,
            crate::crontab::env_model(self.env@),
        )
    }

    fn head_string(&self) -> (r: String)
        ensures
            r@ == self.head(),
    {
        let mut out = String::new();
        add_header(&mut out, "From", self.from.as_str());
        add_header(&mut out, "To", self.to.as_str());
        add_header(&mut out, "Subject", self.subject.as_str());
        add_header(&mut out, "Content-Type", self.content_type.as_str());
        add_header(&mut out, "Auto-Submitted", "auto-generated");
        add_header(&mut out, "Precedence", "bulk");
        add_header(&mut out, "MIME-Version", "1.0");
        let ghost fixed = out@;
        let ghost env = crate::crontab::env_model(self.env@);
        assert(fixed =~= header("From"@, self.from@) + header("To"@, self.to@) + header(
            "Subject"@,
            self.subject@,
        ) + header("Content-Type"@, self.content_type@) + header(
            "Auto-Submitted"@,
            "auto-generated"@,
        ) + header("Precedence"@, "bulk"@) + header("MIME-Version"@, "1.0"@));
        let mut i: usize = 0;
        assert(env.take(0) =~= seq![]);
        assert(fixed + Seq::<char>::empty() =~= fixed);
        while i < self.env.len()
            invariant
                i <= self.env@.len(),
                env == crate::crontab::env_model(self.env@),
                out@ == fixed + env_headers(env.take(i as int)),
            decreases self.env@.len() - i,
        {
            let ghost before = out@;
            out.append("X-Cron-Env: <");
            out.append(self.env[i].0.as_str());
            out.append("=");
            out.append(self.env[i].1.as_str());
            out.append(">\n");
            proof {
                let line = "X-Cron-Env: <"@ + env[i as int].0 + "="@ + env[i as int].1 + ">\n"@;
                assert(out@ =~= before + line);
                assert(env.take(i + 1).drop_last() =~= env.take(i as int));
                assert(env.take(i + 1).last() == env[i as int]);
                assert(before + line =~= fixed + (env_headers(env.take(i as int)) + line));
            }
            i += 1;
        }
        assert(env.take(env.len() as int) =~= env);
        out.append("\n");
        assert(out@ =~= self.head());
        out
    }

    /// RFC 822 text as sendmail `-t` expects it.
    pub fn render(&self) -> (r: Vec<u8>)
        ensures
            r@ == crate::raw::bytes_of(self.head()) + closed_body(self.body@),
            (crate::raw::bytes_of(self.head()) + self.body@).is_prefix_of(r@),
            r@.len() <= crate::raw::bytes_of(self.head()).len() + self.body@.len() + 1,
            r@.last() == 0x0a,
    {
        let head = self.head_string();
        let mut out = crate::raw::bytes_from(head.as_str());
        let ghost h = out@;
        let mut body = copy_bytes(self.body.as_slice());
        let ends = body.len() > 0 && body[body.len() - 1] == 0x0a;
        if !ends {
            body.push(0x0a);
        }
        assert(body@ =~= closed_body(self.body@));
        let ghost b = body@;
        out.append(&mut body);
        assert(out@ =~= h + b);
        out
    }
}

/// Does the text hold no control characters, which could inject headers?
pub open spec fn safe(value: Seq<char>) -> bool {
    forall|i: int| 0 <= i < value.len() ==> !crate::text::control(#[trigger] value[i])
}

/// Is this a safe `MAILTO` value (no control characters that could inject
/// headers)?
pub fn mailto_is_safe(value: &str) -> (r: bool)
    ensures
        r == safe(value@),
{
    let chars = chars_of(value);
    let mut i: usize = 0;
    while i < chars.len()
        invariant
            i <= chars@.len(),
            chars@ == value@,
            forall|j: int| 0 <= j < i ==> !crate::text::control(#[trigger] chars@[j]),
        decreases chars@.len() - i,
    {
        if is_control(chars[i]) {
            assert(crate::text::control(value@[i as int]));
            return false;
        }
        i += 1;
    }
    true
}

// ---------------------------------------------------------------------------
// Laws
// ---------------------------------------------------------------------------

/// Number of newlines in a text.
pub open spec fn newlines(s: Seq<char>) -> nat
    decreases s.len(),
{
    if s.len() == 0 {
        0
    } else {
        newlines(s.drop_last()) + if s.last() == '\n' {
            1nat
        } else {
            0nat
        }
    }
}

proof fn lemma_newlines_add(a: Seq<char>, b: Seq<char>)
    ensures
        newlines(a + b) == newlines(a) + newlines(b),
    decreases b.len(),
{
    if b.len() == 0 {
        assert(a + b =~= a);
    } else {
        lemma_newlines_add(a, b.drop_last());
        assert((a + b).drop_last() =~= a + b.drop_last());
    }
}

proof fn lemma_safe_has_no_newline(s: Seq<char>)
    requires
        safe(s),
    ensures
        newlines(s) == 0,
    decreases s.len(),
{
    if s.len() > 0 {
        assert(!crate::text::control(s[s.len() - 1]));
        assert forall|i: int| 0 <= i < s.drop_last().len() implies !crate::text::control(
            #[trigger] s.drop_last()[i],
        ) by {
            assert(!crate::text::control(s[i]));
        }
        lemma_safe_has_no_newline(s.drop_last());
    }
}

proof fn lemma_header_line(name: Seq<char>, value: Seq<char>)
    requires
        newlines(name) == 0,
        newlines(value) == 0,
    ensures
        newlines(header(name, value)) == 1,
{
    reveal_strlit(": ");
    reveal_strlit("\n");
    reveal_with_fuel(newlines, 3);
    lemma_newlines_add(name, ": "@);
    lemma_newlines_add(name + ": "@, value);
    lemma_newlines_add(name + ": "@ + value, "\n"@);
}

proof fn lemma_env_text()
    ensures
        newlines("X-Cron-Env: <"@) == 0,
        newlines("="@) == 0,
        newlines(">\n"@) == 1,
{
    reveal_strlit("X-Cron-Env: <");
    reveal_strlit("=");
    reveal_strlit(">\n");
    lemma_no_newline("X-Cron-Env: <"@);
    lemma_no_newline("="@);
    reveal_with_fuel(newlines, 3);
}

proof fn lemma_env_lines(env: crate::crontab::EnvModel)
    requires
        forall|i: int|
            0 <= i < env.len() ==> safe((#[trigger] env[i]).0) && safe(env[i].1),
    ensures
        newlines(env_headers(env)) == env.len(),
    decreases env.len(),
{
    if env.len() > 0 {
        let shorter = env.drop_last();
        assert forall|i: int| 0 <= i < shorter.len() implies safe((#[trigger] shorter[i]).0)
            && safe(shorter[i].1) by {
            assert(safe(env[i].0));
        }
        lemma_env_lines(shorter);
        let name = env.last().0;
        let value = env.last().1;
        assert(safe(env[env.len() - 1].0));
        lemma_safe_has_no_newline(name);
        lemma_safe_has_no_newline(value);
        lemma_env_text();
        let a = "X-Cron-Env: <"@;
        lemma_newlines_add(a, name);
        lemma_newlines_add(a + name, "="@);
        lemma_newlines_add(a + name + "="@, value);
        lemma_newlines_add(a + name + "="@ + value, ">\n"@);
        lemma_newlines_add(
            env_headers(shorter),
            a + name + "="@ + value + ">\n"@,
        );
    }
}

/// Values without control characters cannot add header lines: there are the
/// seven fixed ones, one for every variable, and the empty line.
pub proof fn law_no_header_injection(
    from: Seq<char>,
    to: Seq<char>,
    subject: Seq<char>,
    content_type: Seq<char>,
    env: crate::crontab::EnvModel,
)
    requires
        safe(from),
        safe(to),
        safe(subject),
        safe(content_type),
        forall|i: int|
            0 <= i < env.len() ==> safe((#[trigger] env[i]).0) && safe(env[i].1),
    ensures
        newlines(head_text(from, to, subject, content_type, env)) == 8 + env.len(),
{
    lemma_safe_has_no_newline(from);
    lemma_safe_has_no_newline(to);
    lemma_safe_has_no_newline(subject);
    lemma_safe_has_no_newline(content_type);
    lemma_env_lines(env);
    lemma_fixed_text();
    lemma_header_line("From"@, from);
    lemma_header_line("To"@, to);
    lemma_header_line("Subject"@, subject);
    lemma_header_line("Content-Type"@, content_type);
    lemma_header_line("Auto-Submitted"@, "auto-generated"@);
    lemma_header_line("Precedence"@, "bulk"@);
    lemma_header_line("MIME-Version"@, "1.0"@);
    let h1 = header("From"@, from);
    let h2 = h1 + header("To"@, to);
    let h3 = h2 + header("Subject"@, subject);
    let h4 = h3 + header("Content-Type"@, content_type);
    let h5 = h4 + header("Auto-Submitted"@, "auto-generated"@);
    let h6 = h5 + header("Precedence"@, "bulk"@);
    let h7 = h6 + header("MIME-Version"@, "1.0"@);
    lemma_newlines_add(h1, header("To"@, to));
    lemma_newlines_add(h2, header("Subject"@, subject));
    lemma_newlines_add(h3, header("Content-Type"@, content_type));
    lemma_newlines_add(h4, header("Auto-Submitted"@, "auto-generated"@));
    lemma_newlines_add(h5, header("Precedence"@, "bulk"@));
    lemma_newlines_add(h6, header("MIME-Version"@, "1.0"@));
    lemma_newlines_add(h7, env_headers(env));
    lemma_newlines_add(h7 + env_headers(env), "\n"@);
}

proof fn lemma_no_newline(s: Seq<char>)
    requires
        forall|i: int| 0 <= i < s.len() ==> s[i] != '\n',
    ensures
        newlines(s) == 0,
    decreases s.len(),
{
    if s.len() > 0 {
        lemma_no_newline(s.drop_last());
    }
}

proof fn lemma_fixed_text()
    ensures
        newlines("From"@) == 0,
        newlines("To"@) == 0,
        newlines("Subject"@) == 0,
        newlines("Content-Type"@) == 0,
        newlines("Auto-Submitted"@) == 0,
        newlines("auto-generated"@) == 0,
        newlines("Precedence"@) == 0,
        newlines("bulk"@) == 0,
        newlines("MIME-Version"@) == 0,
        newlines("1.0"@) == 0,
        newlines("\n"@) == 1,
{
    reveal_strlit("From");
    reveal_strlit("To");
    reveal_strlit("Subject");
    reveal_strlit("Content-Type");
    reveal_strlit("Auto-Submitted");
    reveal_strlit("auto-generated");
    reveal_strlit("Precedence");
    reveal_strlit("bulk");
    reveal_strlit("MIME-Version");
    reveal_strlit("1.0");
    reveal_strlit("\n");
    lemma_no_newline("From"@);
    lemma_no_newline("To"@);
    lemma_no_newline("Subject"@);
    lemma_no_newline("Content-Type"@);
    lemma_no_newline("Auto-Submitted"@);
    lemma_no_newline("auto-generated"@);
    lemma_no_newline("Precedence"@);
    lemma_no_newline("bulk"@);
    lemma_no_newline("MIME-Version"@);
    lemma_no_newline("1.0"@);
    reveal_with_fuel(newlines, 2);
}

/// A rendered message is its header and then the whole of the job's output:
/// no byte of it is lost, and nothing follows it but the newline that it does
/// not already end in.
pub proof fn law_output_is_mailed_whole(m: Message, r: Vec<u8>)
    requires
        call_ensures(Message::render, (&m,), r),
    ensures
        ({
            let head = crate::raw::bytes_of(m.head());
            let whole = head + m.body@;
            &&& whole.is_prefix_of(r@)
            &&& r@.last() == 0x0a
            &&& m.body@.len() > 0 && m.body@.last() == 0x0a ==> r@ == whole
            &&& !(m.body@.len() > 0 && m.body@.last() == 0x0a) ==> r@ == whole + seq![0x0au8]
        }),
{
    let head = crate::raw::bytes_of(m.head());
    assert((head + m.body@) + seq![0x0au8] =~= head + m.body@.push(0x0a));
}

/// The header says who sent the message, to whom, about what, in which
/// character set and that a program wrote it, and ends in an empty line.
pub proof fn law_header_lines(m: Message)
    ensures
        m.head() == ("From: "@ + m.from@ + "\n"@) + ("To: "@ + m.to@ + "\n"@) + ("Subject: "@
            + m.subject@ + "\n"@) + ("Content-Type: "@ + m.content_type@ + "\n"@) + (
        "Auto-Submitted: auto-generated\n"@) + "Precedence: bulk\n"@ + "MIME-Version: 1.0\n"@
            + env_headers(crate::crontab::env_model(m.env@)) + "\n"@,
{
    lemma_header_texts();
    assert(header("From"@, m.from@) =~= "From: "@ + m.from@ + "\n"@);
    assert(header("To"@, m.to@) =~= "To: "@ + m.to@ + "\n"@);
    assert(header("Subject"@, m.subject@) =~= "Subject: "@ + m.subject@ + "\n"@);
    assert(header("Content-Type"@, m.content_type@) =~= "Content-Type: "@ + m.content_type@
        + "\n"@);
}

proof fn lemma_header_texts()
    ensures
        "From"@ + ": "@ == "From: "@,
        "To"@ + ": "@ == "To: "@,
        "Subject"@ + ": "@ == "Subject: "@,
        "Content-Type"@ + ": "@ == "Content-Type: "@,
        header("Auto-Submitted"@, "auto-generated"@) == "Auto-Submitted: auto-generated\n"@,
        header("Precedence"@, "bulk"@) == "Precedence: bulk\n"@,
        header("MIME-Version"@, "1.0"@) == "MIME-Version: 1.0\n"@,
{
    reveal_strlit(": ");
    reveal_strlit("\n");
    reveal_strlit("From");
    reveal_strlit("From: ");
    reveal_strlit("To");
    reveal_strlit("To: ");
    reveal_strlit("Subject");
    reveal_strlit("Subject: ");
    reveal_strlit("Content-Type");
    reveal_strlit("Content-Type: ");
    assert("From"@ + ": "@ =~= "From: "@);
    assert("To"@ + ": "@ =~= "To: "@);
    assert("Subject"@ + ": "@ =~= "Subject: "@);
    assert("Content-Type"@ + ": "@ =~= "Content-Type: "@);
    assert(header("Auto-Submitted"@, "auto-generated"@) =~= "Auto-Submitted: auto-generated\n"@)
        by {
        reveal_strlit("Auto-Submitted");
        reveal_strlit("auto-generated");
        reveal_strlit("Auto-Submitted: auto-generated\n");
    }
    assert(header("Precedence"@, "bulk"@) =~= "Precedence: bulk\n"@) by {
        reveal_strlit("Precedence");
        reveal_strlit("bulk");
        reveal_strlit("Precedence: bulk\n");
    }
    assert(header("MIME-Version"@, "1.0"@) =~= "MIME-Version: 1.0\n"@) by {
        reveal_strlit("MIME-Version");
        reveal_strlit("1.0");
        reveal_strlit("MIME-Version: 1.0\n");
    }
}

/// Every variable of the job has its line in the header, in order.
pub proof fn law_variables_are_told(
    before: crate::crontab::EnvModel,
    name: Seq<char>,
    value: Seq<char>,
    after: crate::crontab::EnvModel,
)
    ensures
        env_headers(before + seq![(name, value)] + after) == env_headers(before) + (
        "X-Cron-Env: <"@ + name + "="@ + value + ">\n"@) + env_headers(after),
    decreases after.len(),
{
    let all = before + seq![(name, value)] + after;
    let line = "X-Cron-Env: <"@ + name + "="@ + value + ">\n"@;
    if after.len() == 0 {
        assert(all.drop_last() =~= before);
        assert(all.last() == (name, value));
        assert(env_headers(before) + line + Seq::<char>::empty() =~= env_headers(before) + line);
    } else {
        law_variables_are_told(before, name, value, after.drop_last());
        assert(all.drop_last() =~= before + seq![(name, value)] + after.drop_last());
        assert(all.last() == after.last());
        let last = "X-Cron-Env: <"@ + after.last().0 + "="@ + after.last().1 + ">\n"@;
        assert((env_headers(before) + line + env_headers(after.drop_last())) + last
            =~= env_headers(before) + line + (env_headers(after.drop_last()) + last));
    }
}

/// `off`, in whatever case, turns mail off, and nothing else does: any other
/// argument is the command, as it stands.
pub proof fn law_mailer_argument(arg: Seq<char>)
    ensures
        mailer_arg(arg) == MailerModel::Off <==> {
            &&& arg.len() == 3
            &&& arg[0] == 'o' || arg[0] == 'O'
            &&& arg[1] == 'f' || arg[1] == 'F'
            &&& arg[2] == 'f' || arg[2] == 'F'
        },
        mailer_arg(arg) != MailerModel::Off ==> mailer_arg(arg) == MailerModel::Command(arg),
{
    reveal_strlit("off");
    let low = crate::text::lower_seq(arg);
    if arg.len() == 3 {
        assert(low[0] == crate::text::lower(arg[0]));
        assert(low[1] == crate::text::lower(arg[1]));
        assert(low[2] == crate::text::lower(arg[2]));
        if (arg[0] == 'o' || arg[0] == 'O') && (arg[1] == 'f' || arg[1] == 'F') && (arg[2] == 'f'
            || arg[2] == 'F') {
            assert(low =~= "off"@);
        }
    }
    if low == "off"@ {
        assert(low.len() == arg.len());
        assert(low[0] == 'o' && low[1] == 'f' && low[2] == 'f');
    }
}

/// The first of the usual places that holds a sendmail is used, and mail is
/// off only if none does.
pub proof fn law_detected_mailer(present: Seq<String>)
    ensures
        ({
            let a = crate::path_map::on_list(present, "/usr/sbin/sendmail"@);
            let b = crate::path_map::on_list(present, "/usr/lib/sendmail"@);
            let c = crate::path_map::on_list(present, "/usr/bin/sendmail"@);
            let d = crate::path_map::on_list(present, "/sbin/sendmail"@);
            let r = detected(present, 0);
            &&& a ==> r == MailerModel::Sendmail("/usr/sbin/sendmail"@)
            &&& !a && b ==> r == MailerModel::Sendmail("/usr/lib/sendmail"@)
            &&& !a && !b && c ==> r == MailerModel::Sendmail("/usr/bin/sendmail"@)
            &&& !a && !b && !c && d ==> r == MailerModel::Sendmail("/sbin/sendmail"@)
            &&& !a && !b && !c && !d ==> r == MailerModel::Off
        }),
{
    reveal_with_fuel(detected, 5);
}

/// Sendmail reads the recipients from the message and is told the envelope
/// sender if there is one; a command is run by the shell; off runs nothing.
pub proof fn law_mailer_command(path: Seq<char>, from: Seq<char>, envelope: Option<Seq<char>>)
    ensures
        ({
            let plain = command_line(MailerModel::Sendmail(path), None);
            &&& plain.len() == 7
            &&& plain[0] == path
            &&& plain.last() == "-t"@
            &&& plain.contains("-FCronDaemon"@)
            &&& plain.contains("-i"@)
            &&& plain.contains("-odi"@)
            &&& plain.contains("-oem"@)
            &&& plain.contains("-oi"@)
            &&& command_line(MailerModel::Sendmail(path), Some(from)) == plain + seq!["-f"@, from]
        }),
        command_line(MailerModel::Command(path), envelope) == seq!["/bin/sh"@, "-c"@, path],
        command_line(MailerModel::Off, envelope).len() == 0,
{
    let plain = command_line(MailerModel::Sendmail(path), None);
    assert(plain[1] == "-FCronDaemon"@);
    assert(plain[2] == "-i"@);
    assert(plain[3] == "-odi"@);
    assert(plain[4] == "-oem"@);
    assert(plain[5] == "-oi"@);
    assert(command_line(MailerModel::Sendmail(path), Some(from)) =~= plain + seq!["-f"@, from]);
}

/// A mailer that exited well and was fed all of the message has done its
/// work; any other leaves an error that tells its status and what it said, or
/// else what kept it from being fed.
pub proof fn law_mail_errors(
    success: bool,
    status: Seq<char>,
    stderr: Seq<char>,
    write_error: Option<Seq<char>>,
)
    ensures
        mail_failure(success, status, stderr, write_error) is None <==> success && write_error
            is None,
        !success && crate::text::trim(stderr).len() == 0 ==> mail_failure(
            success,
            status,
            stderr,
            write_error,
        ) == Some("mailer exited with "@ + status),
        !success && crate::text::trim(stderr).len() > 0 ==> mail_failure(
            success,
            status,
            stderr,
            write_error,
        ) == Some("mailer exited with "@ + status + ": "@ + crate::text::trim(stderr)),
        success ==> (write_error matches Some(e) ==> mail_failure(
            success,
            status,
            stderr,
            write_error,
        ) == Some("writing to mailer: "@ + e)),
{
}

/// A mailer that still runs after five minutes is killed and no earlier; until
/// then it is looked at again, and one that exited is never killed.
pub proof fn law_mailer_timeout(exited: bool, elapsed: u64, delay: u64, r: Poll)
    requires
        call_ensures(poll_mailer, (exited, elapsed, delay), r),
    ensures
        exited ==> r == Poll::Done,
        !exited && elapsed >= 300_000 ==> r == Poll::Kill,
        !exited && elapsed < 300_000 ==> r == Poll::Sleep(delay),
{
}

/// Pauses double up to a fifth of a second.
pub proof fn law_pauses_double(delay: u64, r: u64)
    requires
        call_ensures(next_delay, (delay,), r),
    ensures
        delay < 100 ==> r == 2 * delay,
        delay >= 100 ==> r == 200,
{
}

/// A value is safe in a header if and only if it holds no control character,
/// a line end least of all.
pub proof fn law_safe_values(value: Seq<char>)
    ensures
        safe(value) <==> forall|i: int|
            0 <= i < value.len() ==> (#[trigger] value[i]) as u32 >= 0x20 && value[i] as u32 != 0x7f
                && !(0x80 <= value[i] as u32 <= 0x9f),
        value.contains('\n') || value.contains('\r') ==> !safe(value),
{
    if safe(value) {
        assert forall|i: int| 0 <= i < value.len() implies (#[trigger] value[i]) as u32 >= 0x20
            && value[i] as u32 != 0x7f && !(0x80 <= value[i] as u32 <= 0x9f) by {
            assert(!crate::text::control(value[i]));
        }
    }
    if value.contains('\n') {
        let i = choose|i: int| 0 <= i < value.len() && value[i] == '\n';
        assert(crate::text::control(value[i]));
    }
    if value.contains('\r') {
        let i = choose|i: int| 0 <= i < value.len() && value[i] == '\r';
        assert(crate::text::control(value[i]));
    }
}

} // verus!
