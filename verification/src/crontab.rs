//! Crontab files: user crontabs, and system crontabs that carry a user field,
//! with Vixie/cronie semantics for environment lines, `%` stdin splitting and
//! the `-n` and `-q` command prefixes.

use std::str::FromStr;

use vstd::prelude::*;
use vstd::string::StringSliceAdditionalSpecFns;

use crate::raw::bytes_from;
use crate::schedule::{
    read_decimal, step_warnings, Schedule, ScheduleError, StepWarning,
};
use crate::text::{
    chars_of, find_char, find_white, is_digit, is_letter, is_white, same_str, skip_white,
    starts_with, string_of, trimmed_end, trimmed_start,
};

verus! {

/// Is this variable one that a crontab may not override?
pub open spec fn protected(name: Seq<char>) -> bool {
    name == "LOGNAME"@ || name == "USER"@
}

/// Variables that a crontab may not override.
pub const PROTECTED_VARS: [&'static str; 2] = ["LOGNAME", "USER"];

fn is_protected(name: &str) -> (r: bool)
    ensures
        r == protected(name@),
{
    same_str(name, PROTECTED_VARS[0]) || same_str(name, PROTECTED_VARS[1])
}

// ---------------------------------------------------------------------------
// Errors
// ---------------------------------------------------------------------------

#[derive(Debug, Clone, PartialEq, Eq)]
pub enum EntryError {
    Schedule(ScheduleError),
    BadUsername,
    BadCommand,
    /// An option that may not be given, or not twice.
    BadOption,
    BadTimezone(String),
    BadRandomDelay(String),
    /// The last line does not end with a newline.
    PrematureEof,
}

pub enum ErrorModel {
    Schedule(ScheduleError),
    BadUsername,
    BadCommand,
    BadOption,
    BadTimezone(Seq<char>),
    BadRandomDelay(Seq<char>),
    PrematureEof,
}

impl ErrorModel {
    /// The message shown to users.
    pub open spec fn text(self) -> Seq<char> {
        match self {
            ErrorModel::Schedule(e) => e.text(),
            ErrorModel::BadUsername => "bad username"@,
            ErrorModel::BadCommand => "bad command"@,
            ErrorModel::BadOption => "bad option"@,
            ErrorModel::BadTimezone(v) => "bad CRON_TZ value \""@ + v + "\""@,
            ErrorModel::BadRandomDelay(v) => "bad RANDOM_DELAY value \""@ + v + "\""@,
            ErrorModel::PrematureEof => "premature EOF"@,
        }
    }

    /// The message that the daemon logs.
    pub open spec fn log_text(self) -> Seq<char> {
        match self {
            ErrorModel::PrematureEof => "missing newline before EOF"@,
            _ => self.text(),
        }
    }
}

impl EntryError {
    pub open spec fn view(&self) -> ErrorModel {
        match self {
            EntryError::Schedule(e) => ErrorModel::Schedule(*e),
            EntryError::BadUsername => ErrorModel::BadUsername,
            EntryError::BadCommand => ErrorModel::BadCommand,
            EntryError::BadOption => ErrorModel::BadOption,
            EntryError::BadTimezone(v) => ErrorModel::BadTimezone(v@),
            EntryError::BadRandomDelay(v) => ErrorModel::BadRandomDelay(v@),
            EntryError::PrematureEof => ErrorModel::PrematureEof,
        }
    }

    /// The message shown to users.
    pub fn message(&self) -> (r: String)
        ensures
            r@ == self@.text(),
    {
        match self {
            EntryError::Schedule(e) => e.message(),
            EntryError::BadUsername => "bad username".to_owned(),
            EntryError::BadCommand => "bad command".to_owned(),
            EntryError::BadOption => "bad option".to_owned(),
            EntryError::BadTimezone(v) => {
                let mut s = "bad CRON_TZ value \"".to_owned();
                s.append(v.as_str());
                s.append("\"");
                s
            },
            EntryError::BadRandomDelay(v) => {
                let mut s = "bad RANDOM_DELAY value \"".to_owned();
                s.append(v.as_str());
                s.append("\"");
                s
            },
            EntryError::PrematureEof => "premature EOF".to_owned(),
        }
    }

    /// The message that the daemon logs.
    pub fn log_message(&self) -> (r: String)
        ensures
            r@ == self@.log_text(),
    {
        match self {
            EntryError::PrematureEof => "missing newline before EOF".to_owned(),
            _ => self.message(),
        }
    }
}

/// A parse error with the 1-based line number it occurred on.
#[derive(Debug, Clone, PartialEq, Eq)]
pub struct ParseError {
    pub line: usize,
    pub error: EntryError,
}

impl ParseError {
    pub open spec fn view(&self) -> (nat, ErrorModel) {
        (self.line as nat, self.error@)
    }

    /// The message shown to users, with the line number.
    pub fn message(&self) -> (r: String)
        ensures
            r@ == "line "@ + crate::text::decimal_text(self.line as nat) + ": "@ + self.error@.text(),
    {
        let mut s = "line ".to_owned();
        let number = crate::text::number_text(self.line as u64);
        s.append(number.as_str());
        s.append(": ");
        let tail = self.error.message();
        s.append(tail.as_str());
        s
    }
}

// ---------------------------------------------------------------------------
// Environment lists
// ---------------------------------------------------------------------------

/// Variables and their values, in order of declaration.
pub type EnvModel = Seq<(Seq<char>, Seq<char>)>;

pub open spec fn env_model(env: Seq<(String, String)>) -> EnvModel {
    env.map_values(|p: (String, String)| (p.0@, p.1@))
}

/// Index of the variable, or the length.
pub open spec fn env_index(env: EnvModel, name: Seq<char>) -> int
    decreases env.len(),
{
    if env.len() == 0 || env[0].0 == name {
        0
    } else {
        1 + env_index(env.skip(1), name)
    }
}

/// The value of a variable.
pub open spec fn env_value(env: EnvModel, name: Seq<char>) -> Option<Seq<char>> {
    let i = env_index(env, name);
    if i < env.len() {
        Some(env[i].1)
    } else {
        None
    }
}

/// The list after an assignment: in place if the variable is there already,
/// at the end otherwise.
pub open spec fn env_set(env: EnvModel, name: Seq<char>, value: Seq<char>) -> EnvModel {
    let i = env_index(env, name);
    if i < env.len() {
        env.update(i, (name, value))
    } else {
        env.push((name, value))
    }
}

pub proof fn lemma_env_index(env: EnvModel, name: Seq<char>)
    ensures
        0 <= env_index(env, name) <= env.len(),
        env_index(env, name) < env.len() ==> env[env_index(env, name)].0 == name,
        forall|i: int| 0 <= i < env_index(env, name) ==> (#[trigger] env[i]).0 != name,
    decreases env.len(),
{
    if env.len() > 0 && env[0].0 != name {
        let t = env.skip(1);
        lemma_env_index(t, name);
        assert forall|i: int| 0 <= i < env_index(env, name) implies (#[trigger] env[i]).0
            != name by {
            if i > 0 {
                assert(t[i - 1] == env[i]);
            }
        }
    }
}

pub proof fn lemma_env_index_is(env: EnvModel, name: Seq<char>, n: int)
    requires
        0 <= n <= env.len(),
        n < env.len() ==> env[n].0 == name,
        forall|i: int| 0 <= i < n ==> (#[trigger] env[i]).0 != name,
    ensures
        env_index(env, name) == n,
{
    lemma_env_index(env, name);
    let m = env_index(env, name);
    if m < n {
        assert(env[m].0 != name);
    } else if n < m {
        assert(env[n].0 != name);
    }
}

pub(crate) fn find_var(env: &[(String, String)], name: &str) -> (r: usize)
    ensures
        r == env_index(env_model(env@), name@),
        r <= env@.len(),
{
    let ghost model = env_model(env@);
    let mut i: usize = 0;
    while i < env.len()
        invariant
            i <= env@.len(),
            model == env_model(env@),
            forall|j: int| 0 <= j < i ==> (#[trigger] model[j]).0 != name@,
        decreases env@.len() - i,
    {
        if same_str(env[i].0.as_str(), name) {
            proof {
                lemma_env_index_is(model, name@, i as int);
            }
            return i;
        }
        assert(model[i as int].0 != name@);
        i += 1;
    }
    proof {
        lemma_env_index_is(model, name@, i as int);
    }
    i
}

/// Look up a variable in an entry's environment list.
pub fn env_get<'a>(env: &'a [(String, String)], name: &str) -> (r: Option<&'a str>)
    ensures
        match env_value(env_model(env@), name@) {
            Some(v) => r matches Some(s) && s@ == v,
            None => r is None,
        },
{
    let i = find_var(env, name);
    if i < env.len() {
        Some(env[i].1.as_str())
    } else {
        None
    }
}

pub fn set_env(env: &mut Vec<(String, String)>, name: String, value: String)
    ensures
        env_model(final(env)@) == env_set(env_model(old(env)@), name@, value@),
{
    let i = find_var(env.as_slice(), name.as_str());
    let ghost before = env@;
    let ghost pair = (name@, value@);
    proof {
        lemma_env_index(env_model(before), name@);
    }
    if i < env.len() {
        env.set(i, (name, value));
        assert(env_model(env@) =~= env_model(before).update(i as int, pair));
    } else {
        env.push((name, value));
        assert(env_model(env@) =~= env_model(before).push(pair));
    }
}

/// A copy of an environment list.
pub(crate) fn copy_env(env: &Vec<(String, String)>) -> (r: Vec<(String, String)>)
    ensures
        env_model(r@) == env_model(env@),
{
    let mut out: Vec<(String, String)> = Vec::new();
    let mut i: usize = 0;
    while i < env.len()
        invariant
            i <= env@.len(),
            out@.len() == i,
            forall|j: int|
                0 <= j < i ==> (#[trigger] out@[j]).0@ == env@[j].0@ && out@[j].1@ == env@[j].1@,
        decreases env@.len() - i,
    {
        out.push((env[i].0.clone(), env[i].1.clone()));
        i += 1;
    }
    assert(env_model(out@) =~= env_model(env@));
    out
}

// ---------------------------------------------------------------------------
// Environment lines
// ---------------------------------------------------------------------------

pub open spec fn name_start(c: char) -> bool {
    crate::text::letter(c) || c == '_'
}

pub open spec fn name_char(c: char) -> bool {
    crate::text::letter(c) || crate::text::digit(c) || c == '_'
}

/// A letter or underscore, then letters, digits and underscores.
pub open spec fn var_name(name: Seq<char>) -> bool {
    &&& name.len() > 0
    &&& name_start(name[0])
    &&& forall|i: int| 1 <= i < name.len() ==> name_char(#[trigger] name[i])
}

pub fn is_valid_var_name(name: &[char]) -> (r: bool)
    ensures
        r == var_name(name@),
{
    if name.len() == 0 || !(is_letter(name[0]) || name[0] == '_') {
        return false;
    }
    let mut i: usize = 1;
    while i < name.len()
        invariant
            1 <= i <= name@.len(),
            name_start(name@[0]),
            forall|j: int| 1 <= j < i ==> name_char(#[trigger] name@[j]),
        decreases name@.len() - i,
    {
        if !(is_letter(name[i]) || is_digit(name[i]) || name[i] == '_') {
            return false;
        }
        i += 1;
    }
    true
}

/// Index of the first `=` or white-space character, or the length.
pub open spec fn name_stop(s: Seq<char>) -> int
    decreases s.len(),
{
    if s.len() == 0 || s[0] == '=' || crate::text::white(s[0]) {
        0
    } else {
        1 + name_stop(s.skip(1))
    }
}

fn find_name_stop(s: &[char]) -> (r: usize)
    ensures
        r == name_stop(s@),
        r <= s@.len(),
{
    let mut i: usize = 0;
    assert(s@.skip(0) =~= s@);
    while i < s.len() && s[i] != '=' && !is_white(s[i])
        invariant
            i <= s@.len(),
            name_stop(s@) == i + name_stop(s@.skip(i as int)),
        decreases s@.len() - i,
    {
        assert(s@.skip(i as int).skip(1) =~= s@.skip(i + 1));
        i += 1;
    }
    i
}

/// The value after the `=` of an environment line: what stands between
/// quotes, if only white space follows them, or the text without white space
/// at its end.
pub open spec fn env_line_value(rest: Seq<char>) -> Option<Seq<char>> {
    if rest.len() > 0 && (rest[0] == '"' || rest[0] == '\'') {
        let inner = rest.skip(1);
        let close = crate::text::first_of(inner, rest[0]);
        if close < inner.len() && crate::text::trim(inner.skip(close + 1)).len() == 0 {
            Some(inner.take(close))
        } else {
            None
        }
    } else {
        Some(crate::text::trim_end(rest))
    }
}

/// A line `NAME = value`.
pub open spec fn env_line(line: Seq<char>) -> Option<(Seq<char>, Seq<char>)> {
    let line = crate::text::trim_start(line);
    let n = name_stop(line);
    let rest = crate::text::trim_start(line.skip(n));
    if n < line.len() && var_name(line.take(n)) && rest.len() > 0 && rest[0] == '=' {
        match env_line_value(crate::text::trim_start(rest.skip(1))) {
            Some(v) => Some((line.take(n), v)),
            None => None,
        }
    } else {
        None
    }
}

fn parse_env_value(rest: &[char]) -> (r: Option<String>)
    ensures
        match env_line_value(rest@) {
            Some(v) => r matches Some(s) && s@ == v,
            None => r is None,
        },
{
    if rest.len() > 0 && (rest[0] == '"' || rest[0] == '\'') {
        let inner = &rest[1..rest.len()];
        assert(inner@ =~= rest@.skip(1));
        let close = find_char(inner, rest[0]);
        if close >= inner.len() {
            return None;
        }
        let after = &inner[close + 1..inner.len()];
        assert(after@ =~= inner@.skip(close + 1));
        if trimmed_end(trimmed_start(after)).len() > 0 {
            return None;
        }
        let value = &inner[0..close];
        assert(value@ =~= inner@.take(close as int));
        Some(string_of(value))
    } else {
        Some(string_of(trimmed_end(rest)))
    }
}

pub(crate) fn read_env_line(line: &[char]) -> (r: Option<(String, String)>)
    ensures
        match env_line(line@) {
            Some((n, v)) => r matches Some((a, b)) && a@ == n && b@ == v,
            None => r is None,
        },
{
    let line = trimmed_start(line);
    let n = find_name_stop(line);
    if n >= line.len() {
        return None;
    }
    let name = &line[0..n];
    assert(name@ =~= line@.take(n as int));
    if !is_valid_var_name(name) {
        return None;
    }
    let tail = &line[n..line.len()];
    assert(tail@ =~= line@.skip(n as int));
    let rest = trimmed_start(tail);
    if rest.len() == 0 || rest[0] != '=' {
        return None;
    }
    let after = &rest[1..rest.len()];
    assert(after@ =~= rest@.skip(1));
    match parse_env_value(trimmed_start(after)) {
        Some(value) => Some((string_of(name), value)),
        None => None,
    }
}

/// Try to interpret a line as `NAME = value`.
///
/// Returns `None` when the line is not an environment assignment (and so
/// should be parsed as a job). Quotes around the value (matching single or
/// double) are stripped; a quoted value may only be followed by white space.
pub fn parse_env_line(line: &str) -> (r: Option<(String, String)>)
    ensures
        match env_line(line@) {
            Some((n, v)) => r matches Some((a, b)) && a@ == n && b@ == v,
            None => r is None,
        },
{
    let chars = chars_of(line);
    read_env_line(chars.as_slice())
}

// ---------------------------------------------------------------------------
// Commands
// ---------------------------------------------------------------------------

/// Does the text begin with an escaped percent sign?
pub open spec fn escaped(s: Seq<char>) -> bool {
    s.len() > 1 && s[0] == '\\' && s[1] == '%'
}

/// The command up to the first unescaped `%`, with `\%` read as `%`, and what
/// follows that sign.
pub open spec fn command_part(s: Seq<char>) -> (Seq<char>, Option<Seq<char>>)
    decreases s.len(),
{
    if s.len() == 0 {
        (seq![], None)
    } else if escaped(s) {
        let (c, rest) = command_part(s.skip(2));
        (seq!['%'] + c, rest)
    } else if s[0] == '%' {
        (seq![], Some(s.skip(1)))
    } else {
        let (c, rest) = command_part(s.skip(1));
        (seq![s[0]] + c, rest)
    }
}

/// The text with `\%` read as `%` and every other `%` as a newline.
pub open spec fn stdin_lines(s: Seq<char>) -> Seq<char>
    decreases s.len(),
{
    if s.len() == 0 {
        seq![]
    } else if escaped(s) {
        seq!['%'] + stdin_lines(s.skip(2))
    } else if s[0] == '%' {
        seq!['\n'] + stdin_lines(s.skip(1))
    } else {
        seq![s[0]] + stdin_lines(s.skip(1))
    }
}

/// What is fed to the command: the lines, ending in a newline.
pub open spec fn stdin_text(s: Seq<char>) -> Seq<char> {
    let lines = stdin_lines(s);
    if lines.len() > 0 && lines.last() == '\n' {
        lines
    } else {
        lines.push('\n')
    }
}

pub open spec fn split(raw: Seq<char>) -> (Seq<char>, Option<Seq<char>>) {
    match command_part(raw) {
        (command, Some(rest)) => (command, Some(stdin_text(rest))),
        (command, None) => (command, None),
    }
}

fn read_stdin(s: &[char], from: usize) -> (r: String)
    requires
        from <= s@.len(),
    ensures
        r@ == stdin_text(s@.skip(from as int)),
{
    let mut out: Vec<char> = Vec::new();
    let ghost whole = stdin_lines(s@.skip(from as int));
    let mut i: usize = from;
    assert(out@ + whole =~= whole);
    while i < s.len()
        invariant
            from <= i <= s@.len(),
            whole == stdin_lines(s@.skip(from as int)),
            out@ + stdin_lines(s@.skip(i as int)) == whole,
        decreases s@.len() - i,
    {
        let ghost tail = s@.skip(i as int);
        let ghost before = out@;
        if s[i] == '\\' && i + 1 < s.len() && s[i + 1] == '%' {
            out.push('%');
            assert(tail.skip(2) =~= s@.skip(i + 2));
            assert(before + (seq!['%'] + stdin_lines(tail.skip(2))) =~= out@ + stdin_lines(
                tail.skip(2),
            ));
            i += 2;
        } else {
            let c = if s[i] == '%' {
                '\n'
            } else {
                s[i]
            };
            out.push(c);
            assert(tail.skip(1) =~= s@.skip(i + 1));
            assert(before + (seq![c] + stdin_lines(tail.skip(1))) =~= out@ + stdin_lines(
                tail.skip(1),
            ));
            i += 1;
        }
    }
    assert(out@ + Seq::<char>::empty() =~= out@);
    if out.len() == 0 || out[out.len() - 1] != '\n' {
        out.push('\n');
    }
    string_of(out.as_slice())
}

pub(crate) fn split_chars(s: &[char]) -> (r: (String, Option<String>))
    ensures
        ({
            let (command, stdin) = split(s@);
            &&& r.0@ == command
            &&& match stdin {
                Some(d) => r.1 matches Some(t) && t@ == d,
                None => r.1 is None,
            }
        }),
{
    let mut out: Vec<char> = Vec::new();
    let mut i: usize = 0;
    let ghost whole = command_part(s@);
    assert(s@.skip(0) =~= s@);
    assert(out@ + whole.0 =~= whole.0);
    while i < s.len()
        invariant
            i <= s@.len(),
            whole == command_part(s@),
            out@ + command_part(s@.skip(i as int)).0 == whole.0,
            command_part(s@.skip(i as int)).1 == whole.1,
        decreases s@.len() - i,
    {
        let ghost tail = s@.skip(i as int);
        let ghost before = out@;
        if s[i] == '\\' && i + 1 < s.len() && s[i + 1] == '%' {
            out.push('%');
            assert(tail.skip(2) =~= s@.skip(i + 2));
            assert(before + (seq!['%'] + command_part(tail.skip(2)).0) =~= out@ + command_part(
                tail.skip(2),
            ).0);
            i += 2;
        } else if s[i] == '%' {
            assert(tail.skip(1) =~= s@.skip(i + 1));
            assert(out@ + Seq::<char>::empty() =~= out@);
            return (string_of(out.as_slice()), Some(read_stdin(s, i + 1)));
        } else {
            out.push(s[i]);
            assert(tail.skip(1) =~= s@.skip(i + 1));
            assert(before + (seq![tail[0]] + command_part(tail.skip(1)).0) =~= out@ + command_part(
                tail.skip(1),
            ).0);
            i += 1;
        }
    }
    assert(out@ + Seq::<char>::empty() =~= out@);
    (string_of(out.as_slice()), None)
}

/// Split a raw command at the first unescaped `%`. In both halves `\%`
/// becomes `%`; in the stdin half every further `%` becomes a newline. The
/// stdin text always ends in a newline.
pub fn split_command(raw: &str) -> (r: (String, Option<String>))
    ensures
        ({
            let (command, stdin) = split(raw@);
            &&& r.0@ == command
            &&& match stdin {
                Some(d) => r.1 matches Some(t) && t@ == d,
                None => r.1 is None,
            }
        }),
{
    let chars = chars_of(raw);
    split_chars(chars.as_slice())
}

pub open spec fn user_char(c: char) -> bool {
    crate::text::letter(c) || crate::text::digit(c) || c == '_' || c == '-' || c == '.' || c == '$'
        || c == '@'
}

pub open spec fn user_name(s: Seq<char>) -> bool {
    s.len() > 0 && forall|i: int| 0 <= i < s.len() ==> user_char(#[trigger] s[i])
}

pub fn is_valid_username(user: &[char]) -> (r: bool)
    ensures
        r == user_name(user@),
{
    if user.len() == 0 {
        return false;
    }
    let mut i: usize = 0;
    while i < user.len()
        invariant
            i <= user@.len(),
            forall|j: int| 0 <= j < i ==> user_char(#[trigger] user@[j]),
        decreases user@.len() - i,
    {
        let c = user[i];
        if !(is_letter(c) || is_digit(c) || c == '_' || c == '-' || c == '.' || c == '$' || c
            == '@') {
            return false;
        }
        i += 1;
    }
    true
}

/// The text after a flag `-c` and the white space behind it.
pub open spec fn after_flag(s: Seq<char>, c: char) -> Option<Seq<char>> {
    if s.len() > 2 && s[0] == '-' && s[1] == c && crate::text::white(s[2]) {
        Some(crate::text::trim_start(s.skip(2)))
    } else {
        None
    }
}

/// Length of a flag `-c` and the white space behind it, 0 without one.
fn strip_flag(s: &[char], c: char) -> (r: usize)
    ensures
        match after_flag(s@, c) {
            Some(rest) => 2 < r <= s@.len() && s@.skip(r as int) == rest,
            None => r == 0,
        },
{
    if s.len() > 2 && s[0] == '-' && s[1] == c && is_white(s[2]) {
        let tail = &s[2..s.len()];
        assert(tail@ =~= s@.skip(2));
        let n = skip_white(tail);
        proof {
            crate::text::lemma_lead_white(tail@);
            assert(tail@[0] == s@[2]);
            assert(n > 0);
            assert(s@.skip(2 + n) =~= tail@.skip(n as int));
        }
        2 + n
    } else {
        0
    }
}

pub struct Flags {
    pub mail_on_failure_only: bool,
    pub quiet: bool,
    pub rest: Seq<char>,
}

/// The flags before a command, `-n` at most once, and the command.
pub open spec fn flags_of(s: Seq<char>, failure_only: bool, quiet: bool) -> Option<Flags>
    decreases s.len(),
{
    proof {
        crate::text::lemma_lead_white(s.skip(2));
    }
    match after_flag(s, 'n') {
        Some(rest) => if failure_only {
            None
        } else {
            flags_of(rest, true, quiet)
        },
        None => match after_flag(s, 'q') {
            Some(rest) => flags_of(rest, failure_only, true),
            None => Some(Flags { mail_on_failure_only: failure_only, quiet, rest: s }),
        },
    }
}

/// Which crontab format a file uses.
#[derive(Debug, Clone, Copy, PartialEq, Eq, Structural)]
pub enum Format {
    /// `min hour dom mon dow command`: the owner runs the command.
    User,
    /// `min hour dom mon dow user command` (`/etc/crontab`, `/etc/cron.d`).
    System,
}

/// What a job line says, but for what is left to chance: the fields of its
/// time specification, `None` for `@reboot`, stand for the schedule.
pub struct JobModel {
    pub fields: Option<Seq<crate::schedule::FieldModel>>,
    pub user: Option<Seq<char>>,
    pub raw_command: Seq<char>,
    pub mail_on_failure_only: bool,
    pub quiet: bool,
}

/// The user and the rest of what follows the time specification.
pub open spec fn user_of(rest: Seq<char>, format: Format) -> Option<(Option<Seq<char>>, Seq<char>)> {
    match format {
        Format::User => Some((None, rest)),
        Format::System => if user_name(crate::schedule::first_word(rest)) {
            Some((Some(crate::schedule::first_word(rest)), crate::schedule::after_word(rest)))
        } else {
            None
        },
    }
}

/// The part of a job line after the time specification.
pub open spec fn task_of(
    fields: Option<Seq<crate::schedule::FieldModel>>,
    rest: Seq<char>,
    format: Format,
    hidden: bool,
) -> Result<JobModel, ErrorModel> {
    match user_of(rest, format) {
        None => Err(ErrorModel::BadUsername),
        Some((user, tail)) => match flags_of(tail, false, hidden) {
            None => Err(ErrorModel::BadOption),
            Some(f) => if f.rest.len() == 0 {
                Err(ErrorModel::BadCommand)
            } else {
                Ok(
                    JobModel {
                        fields,
                        user,
                        raw_command: f.rest,
                        mail_on_failure_only: f.mail_on_failure_only,
                        quiet: f.quiet,
                    },
                )
            },
        },
    }
}

/// A job line. A `-` in front hides the job from the log, which only system
/// crontabs and root (`privileged`) may ask for. A `*` behind the five time
/// fields is taken for a sixth one.
pub open spec fn job_of(line: Seq<char>, format: Format, privileged: bool) -> Result<
    JobModel,
    ErrorModel,
> {
    let line = crate::text::trim_start(line);
    let hidden = line.len() > 0 && line[0] == '-';
    let body = if hidden {
        crate::text::trim_start(line.skip(1))
    } else {
        line
    };
    if hidden && !privileged && format == Format::User {
        Err(ErrorModel::BadOption)
    } else {
        match crate::schedule::prefix_of(body) {
            Err(e) => Err(ErrorModel::Schedule(e)),
            Ok((fields, rest)) => if body[0] != '@' && rest.len() > 0 && rest[0] == '*' {
                Err(ErrorModel::BadCommand)
            } else {
                task_of(fields, rest, format, hidden)
            },
        }
    }
}

/// One job line from a crontab.
#[derive(Debug, Clone, PartialEq, Eq)]
pub struct Entry {
    pub schedule: Schedule,
    /// User to run as; `None` for user crontabs (the file owner runs it).
    pub user: Option<String>,
    /// The shell command, with `\%` unescaped and any `%` stdin part removed.
    pub command: String,
    /// Data fed to the command's standard input (from `%` sections).
    pub stdin: Option<String>,
    /// The full command text as written.
    pub raw_command: String,
    /// Environment in effect for this entry, in declaration order.
    pub env: Vec<(String, String)>,
    /// `CRON_TZ` in effect for this entry, if any.
    pub tz: Option<String>,
    /// `RANDOM_DELAY` in minutes (upper bound) in effect for this entry, if any.
    pub random_delay: Option<u32>,
    /// `-n` prefix: only mail output when the job fails.
    pub mail_on_failure_only: bool,
    /// `-q` prefix, or `-` before the time: do not log the job start.
    pub quiet: bool,
    /// 1-based source line number.
    pub line: usize,
}

pub open spec fn text_model(s: Option<String>) -> Option<Seq<char>> {
    match s {
        Some(t) => Some(t@),
        None => None,
    }
}

/// Is this a schedule for the given fields?
pub open spec fn scheduled(
    schedule: Schedule,
    fields: Option<Seq<crate::schedule::FieldModel>>,
) -> bool {
    match fields {
        Some(f) => exists|draws: Seq<Seq<u32>>|
            crate::schedule::admissible(f, draws) && schedule.described_by(f, draws),
        None => schedule.boots(),
    }
}

/// A job line with what was declared before it.
pub struct EntryModel {
    pub job: JobModel,
    pub env: EnvModel,
    pub tz: Option<Seq<char>>,
    pub random_delay: Option<u32>,
    pub line: nat,
}

impl Entry {
    /// Is this the entry that the model describes?
    pub open spec fn fits(self, m: EntryModel) -> bool {
        &&& scheduled(self.schedule, m.job.fields)
        &&& text_model(self.user) == m.job.user
        &&& self.raw_command@ == m.job.raw_command
        &&& (self.command@, text_model(self.stdin)) == split(m.job.raw_command)
        &&& env_model(self.env@) == m.env
        &&& text_model(self.tz) == m.tz
        &&& self.random_delay == m.random_delay
        &&& self.mail_on_failure_only == m.job.mail_on_failure_only
        &&& self.quiet == m.job.quiet
        &&& self.line == m.line
    }
}

fn copy_text(s: &Option<String>) -> (r: Option<String>)
    ensures
        text_model(r) == text_model(*s),
{
    match s {
        Some(t) => Some(t.clone()),
        None => None,
    }
}

/// Reads the user field of a system crontab; also returns where it and the
/// white space behind it end.
fn parse_user(rest: &[char], format: Format) -> (r: Option<(Option<String>, usize)>)
    ensures
        match user_of(rest@, format) {
            Some((user, tail)) => r matches Some((u, n)) && text_model(u) == user && n
                <= rest@.len() && rest@.skip(n as int) == tail,
            None => r is None,
        },
{
    match format {
        Format::User => {
            assert(rest@.skip(0) =~= rest@);
            Some((None, 0))
        },
        Format::System => {
            let n = find_white(rest);
            let word = &rest[0..n];
            assert(word@ =~= crate::schedule::first_word(rest@));
            if !is_valid_username(word) {
                return None;
            }
            let tail = &rest[n..rest.len()];
            assert(tail@ =~= rest@.skip(n as int));
            let blank = skip_white(tail);
            assert(rest@.skip(n + blank) =~= crate::schedule::after_word(rest@));
            Some((Some(string_of(word)), n + blank))
        },
    }
}

/// Reads the flags before a command; also returns where the command begins.
fn parse_flags(s: &[char], hidden: bool) -> (r: Option<(bool, bool, usize)>)
    ensures
        match flags_of(s@, false, hidden) {
            Some(f) => r matches Some((n, q, pos)) && n == f.mail_on_failure_only && q == f.quiet
                && pos <= s@.len() && s@.skip(pos as int) == f.rest,
            None => r is None,
        },
{
    let mut failure_only = false;
    let mut quiet = hidden;
    let mut pos: usize = 0;
    let ghost whole = flags_of(s@, false, hidden);
    assert(s@.skip(0) =~= s@);
    loop
        invariant
            pos <= s@.len(),
            whole == flags_of(s@, false, hidden),
            flags_of(s@.skip(pos as int), failure_only, quiet) == whole,
        decreases s@.len() - pos,
    {
        let here = &s[pos..s.len()];
        assert(here@ =~= s@.skip(pos as int));
        let n = strip_flag(here, 'n');
        if n > 0 {
            if failure_only {
                return None;
            }
            failure_only = true;
            assert(here@.skip(n as int) =~= s@.skip(pos + n));
            pos = pos + n;
        } else {
            let q = strip_flag(here, 'q');
            if q == 0 {
                return Some((failure_only, quiet, pos));
            }
            quiet = true;
            assert(here@.skip(q as int) =~= s@.skip(pos + q));
            pos = pos + q;
        }
    }
}

/// The part of an entry after the time specification.
struct Task {
    user: Option<String>,
    raw_command: String,
    mail_on_failure_only: bool,
    quiet: bool,
}

fn parse_task(
    rest: &[char],
    format: Format,
    hidden: bool,
    Ghost(fields): Ghost<Option<Seq<crate::schedule::FieldModel>>>,
) -> (r: Result<Task, EntryError>)
    ensures
        match task_of(fields, rest@, format, hidden) {
            Ok(job) => r matches Ok(t) && text_model(t.user) == job.user && t.raw_command@
                == job.raw_command && t.mail_on_failure_only == job.mail_on_failure_only && t.quiet
                == job.quiet && job.fields == fields,
            Err(x) => r matches Err(e) && e@ == x,
        },
{
    let (user, n) = match parse_user(rest, format) {
        Some(v) => v,
        None => return Err(EntryError::BadUsername),
    };
    let tail = &rest[n..rest.len()];
    assert(tail@ =~= rest@.skip(n as int));
    let (mail_on_failure_only, quiet, pos) = match parse_flags(tail, hidden) {
        Some(v) => v,
        None => return Err(EntryError::BadOption),
    };
    let raw = &tail[pos..tail.len()];
    assert(raw@ =~= tail@.skip(pos as int));
    if raw.len() == 0 {
        return Err(EntryError::BadCommand);
    }
    Ok(Task { user, raw_command: string_of(raw), mail_on_failure_only, quiet })
}

fn parse_entry(
    line: &[char],
    format: Format,
    privileged: bool,
    env: &Vec<(String, String)>,
    tz: &Option<String>,
    random_delay: Option<u32>,
    lineno: usize,
) -> (r: Result<Entry, EntryError>)
    ensures
        match job_of(line@, format, privileged) {
            Ok(job) => r matches Ok(e) && e.fits(
                (EntryModel {
                    job,
                    env: env_model(env@),
                    tz: text_model(*tz),
                    random_delay,
                    line: lineno as nat,
                }),
            ),
            Err(x) => r matches Err(e) && e@ == x,
        },
{
    let line = trimmed_start(line);
    let hidden = line.len() > 0 && line[0] == '-';
    if hidden && !privileged && format == Format::User {
        return Err(EntryError::BadOption);
    }
    let body = if hidden {
        let tail = &line[1..line.len()];
        assert(tail@ =~= line@.skip(1));
        trimmed_start(tail)
    } else {
        line
    };
    let text = string_of(body);
    let (schedule, rest) = match Schedule::parse_prefix(text.as_str()) {
        Ok(v) => v,
        Err(e) => return Err(EntryError::Schedule(e)),
    };
    let ghost fields = crate::schedule::prefix_of(body@)->Ok_0.0;
    proof {
        crate::schedule::lemma_prefix_nonempty(body@);
    }
    let rest = chars_of(rest);
    let rest = rest.as_slice();
    if rest.len() > 0 && rest[0] == '*' && body[0] != '@' {
        return Err(EntryError::BadCommand);
    }
    let task = match parse_task(rest, format, hidden, Ghost(fields)) {
        Ok(t) => t,
        Err(e) => return Err(e),
    };
    let raw = chars_of(task.raw_command.as_str());
    let (command, stdin) = split_chars(raw.as_slice());
    Ok(
        Entry {
            schedule,
            user: task.user,
            command,
            stdin,
            raw_command: task.raw_command,
            env: copy_env(env),
            tz: copy_text(tz),
            random_delay,
            mail_on_failure_only: task.mail_on_failure_only,
            quiet: task.quiet,
            line: lineno,
        },
    )
}

// ---------------------------------------------------------------------------
// Files
// ---------------------------------------------------------------------------

/// A line of text, and whether a newline ends it.
pub struct Line {
    pub text: Seq<char>,
    pub ended: bool,
}

/// A line without the carriage return before its newline.
pub open spec fn without_cr(s: Seq<char>) -> Seq<char> {
    if s.len() > 0 && s.last() == '\r' {
        s.drop_last()
    } else {
        s
    }
}

pub open spec fn lines_of(text: Seq<char>) -> Seq<Line>
    decreases text.len(),
{
    proof {
        crate::text::lemma_first_of(text, '\n');
    }
    let n = crate::text::first_of(text, '\n');
    if text.len() == 0 {
        seq![]
    } else if n < text.len() {
        seq![Line { text: without_cr(text.take(n)), ended: true }] + lines_of(text.skip(n + 1))
    } else {
        seq![Line { text, ended: false }]
    }
}

/// There are no more lines than characters.
pub proof fn lemma_line_count(text: Seq<char>)
    ensures
        lines_of(text).len() <= text.len(),
    decreases text.len(),
{
    crate::text::lemma_first_of(text, '\n');
    let n = crate::text::first_of(text, '\n');
    if n < text.len() {
        lemma_line_count(text.skip(n + 1));
    }
}

/// Cuts the first line off a text that is not empty: how long the line is,
/// how much of the text it takes up, and whether a newline ends it.
fn cut_line(s: &[char]) -> (r: (usize, usize, bool))
    requires
        s@.len() > 0,
    ensures
        r.0 <= r.1 <= s@.len(),
        0 < r.1,
        lines_of(s@) == seq![Line { text: s@.take(r.0 as int), ended: r.2 }] + lines_of(
            s@.skip(r.1 as int),
        ),
{
    let n = find_char(s, '\n');
    if n < s.len() {
        let stop: usize = if n > 0 && s[n - 1] == '\r' {
            n - 1
        } else {
            n
        };
        assert(s@.take(stop as int) =~= without_cr(s@.take(n as int)));
        (stop, n + 1, true)
    } else {
        proof {
            assert(s@.take(n as int) =~= s@);
            assert(s@.skip(n as int) =~= seq![]);
            assert(lines_of(s@) =~= seq![Line { text: s@, ended: false }] + lines_of(
                s@.skip(n as int),
            ));
        }
        (n, n, false)
    }
}

/// Going from one line to the next.
proof fn lemma_next_line(all: Seq<Line>, k: int, next: Line, tail: Seq<Line>)
    requires
        0 <= k <= all.len(),
        all.take(k) + (seq![next] + tail) == all,
    ensures
        k < all.len(),
        all.take(k + 1).drop_last() == all.take(k),
        all.take(k + 1).last() == next,
        all.take(k + 1) + tail == all,
{
    let done = all.take(k);
    assert(all.len() == done.len() + 1 + tail.len());
    assert(all[k] == (done + (seq![next] + tail))[k]);
    assert(all.take(k + 1).drop_last() =~= done);
    assert(all.take(k + 1) =~= done.push(next));
    assert(done.push(next) + tail =~= done + (seq![next] + tail));
}

/// Is this the name of a zone that `CRON_TZ` can be set to?
pub uninterp spec fn zone_known(name: Seq<char>) -> bool;

/// `chrono_tz::Tz::from_str`: whether the name is in the crate's table of
/// IANA zones.
#[verifier::external_body]
fn is_known_zone(name: &str) -> (r: bool)
    ensures
        r == zone_known(name@),
{
    chrono_tz::Tz::from_str(name).is_ok()
}

/// The name of the zone that a value of `CRON_TZ` asks for, without the part of
/// the zone database (with or without leap seconds) it is taken from.
pub open spec fn zone_name(value: Seq<char>) -> Seq<char> {
    if crate::text::has_prefix(value, "posix/"@) {
        value.skip("posix/"@.len() as int)
    } else if crate::text::has_prefix(value, "right/"@) {
        value.skip("right/"@.len() as int)
    } else {
        value
    }
}

fn is_known_value(value: &str) -> (r: bool)
    ensures
        r == zone_known(zone_name(value@)),
{
    let chars = chars_of(value);
    let posix = chars_of("posix/");
    let right = chars_of("right/");
    let n: usize = if starts_with(chars.as_slice(), posix.as_slice()) {
        posix.len()
    } else if starts_with(chars.as_slice(), right.as_slice()) {
        right.len()
    } else {
        0
    };
    let name = &chars.as_slice()[n..chars.len()];
    assert(name@ =~= zone_name(value@));
    is_known_zone(string_of(name).as_str())
}

/// Does a value of `CRON_TZ` name a file: by a path, or behind a colon?
pub open spec fn names_file(value: Seq<char>) -> bool {
    value.len() > 0 && (value[0] == '/' || value[0] == ':')
}

/// Is this a value of `CRON_TZ` that a zone can be made from: the name of a
/// known zone, a file, or a POSIX string? What a file holds is not looked at.
pub open spec fn zone_accepted(value: Seq<char>, known: bool) -> bool {
    known || names_file(value) || crate::posix_tz::readable(crate::raw::bytes_of(value))
}

/// What a line `CRON_TZ = value` sets, given whether the value is the name of
/// a known zone: nothing for an empty value.
pub open spec fn zone_setting_of(value: Seq<char>, known: bool) -> Result<
    Option<Seq<char>>,
    ErrorModel,
> {
    if value.len() == 0 {
        Ok(None)
    } else if zone_accepted(value, known) {
        Ok(Some(value))
    } else {
        Err(ErrorModel::BadTimezone(value))
    }
}

pub fn zone_setting(value: &str, known: bool) -> (r: Result<Option<String>, EntryError>)
    ensures
        match zone_setting_of(value@, known) {
            Ok(tz) => r matches Ok(t) && text_model(t) == tz,
            Err(e) => r matches Err(f) && f@ == e,
        },
{
    if value.unicode_len() == 0 {
        return Ok(None);
    }
    let first = value.get_char(0);
    let bytes = bytes_from(value);
    if known || first == '/' || first == ':' || crate::posix_tz::is_readable(bytes.as_slice()) {
        Ok(Some(value.to_owned()))
    } else {
        Err(EntryError::BadTimezone(value.to_owned()))
    }
}

/// What a value of `RANDOM_DELAY` says.
#[derive(Debug, Clone, Copy, PartialEq, Eq, Structural)]
pub enum Delay {
    Minutes(u32),
    /// A whole number, but not one of minutes to wait.
    OutOfRange,
    Unreadable,
}

/// Decimal digits, behind an optional sign.
pub open spec fn delay_of(value: Seq<char>) -> Delay {
    let signed = value.len() > 0 && (value[0] == '+' || value[0] == '-');
    let digits = if signed {
        value.skip(1)
    } else {
        value
    };
    let n = crate::schedule::decimal(digits);
    if digits.len() == 0 || !crate::schedule::all_digits(digits) {
        Delay::Unreadable
    } else if n > u32::MAX || value[0] == '-' && n > 0 {
        Delay::OutOfRange
    } else {
        Delay::Minutes(n as u32)
    }
}

fn parse_delay(value: &[char]) -> (r: Delay)
    ensures
        r == delay_of(value@),
{
    let signed = value.len() > 0 && (value[0] == '+' || value[0] == '-');
    let digits = if signed {
        &value[1..value.len()]
    } else {
        value
    };
    proof {
        if signed {
            assert(digits@ =~= value@.skip(1));
        }
    }
    match read_decimal(digits) {
        None => Delay::Unreadable,
        Some(n) => if n > 0xffff_ffff || value[0] == '-' && n > 0 {
            Delay::OutOfRange
        } else {
            Delay::Minutes(n as u32)
        },
    }
}

/// The variables that a crontab has from the environment of the program that
/// reads it.
pub open spec fn inherited(name: Seq<char>) -> bool {
    name == "LANG"@ || name == "LANGUAGE"@ || name == "RANDOM_DELAY"@ || name == "MAILFROM"@
        || crate::text::has_prefix(name, "LC_"@)
}

/// Those among the variables of an environment.
pub open spec fn kept(outer: EnvModel) -> EnvModel
    decreases outer.len(),
{
    if outer.len() == 0 {
        seq![]
    } else {
        let before = kept(outer.drop_last());
        let (name, value) = outer.last();
        if inherited(name) {
            env_set(before, name, value)
        } else {
            before
        }
    }
}

/// The delay that an environment sets; one that is no number of minutes does
/// not count.
pub open spec fn env_delay(env: EnvModel) -> Option<u32> {
    match env_value(env, "RANDOM_DELAY"@) {
        Some(v) => match delay_of(v) {
            Delay::Minutes(n) => Some(n),
            _ => None,
        },
        None => None,
    }
}

fn is_inherited(name: &str) -> (r: bool)
    ensures
        r == inherited(name@),
{
    let locale = chars_of("LC_");
    same_str(name, "LANG") || same_str(name, "LANGUAGE") || same_str(name, "RANDOM_DELAY")
        || same_str(name, "MAILFROM") || starts_with(chars_of(name).as_slice(), locale.as_slice())
}

fn keep_inherited(outer: &Vec<(String, String)>) -> (r: Vec<(String, String)>)
    ensures
        env_model(r@) == kept(env_model(outer@)),
{
    let ghost all = env_model(outer@);
    let mut env: Vec<(String, String)> = Vec::new();
    assert(all.take(0) =~= seq![]);
    assert(env_model(env@) =~= seq![]);
    let mut i: usize = 0;
    while i < outer.len()
        invariant
            i <= outer@.len(),
            all == env_model(outer@),
            env_model(env@) == kept(all.take(i as int)),
        decreases outer@.len() - i,
    {
        assert(all.take(i + 1).drop_last() =~= all.take(i as int));
        assert(all.take(i + 1).last() == all[i as int]);
        if is_inherited(outer[i].0.as_str()) {
            set_env(&mut env, outer[i].0.clone(), outer[i].1.clone());
        }
        i += 1;
    }
    assert(all.take(all.len() as int) =~= all);
    env
}

fn inherited_delay(env: &Vec<(String, String)>) -> (r: Option<u32>)
    ensures
        r == env_delay(env_model(env@)),
{
    match env_get(env.as_slice(), "RANDOM_DELAY") {
        Some(v) => match parse_delay(chars_of(v).as_slice()) {
            Delay::Minutes(n) => Some(n),
            _ => None,
        },
        None => None,
    }
}

/// What has been read of a crontab.
pub struct TabModel {
    pub env: EnvModel,
    pub tz: Option<Seq<char>>,
    pub random_delay: Option<u32>,
    pub entries: Seq<EntryModel>,
    pub errors: Seq<(nat, ErrorModel)>,
    /// The lines that set a delay which is out of range.
    pub ignored: Seq<nat>,
}

impl TabModel {
    /// Before the first line: what comes from the environment of the program
    /// that reads the crontab.
    pub open spec fn starting(outer: EnvModel) -> TabModel {
        TabModel {
            env: kept(outer),
            tz: None,
            random_delay: env_delay(kept(outer)),
            entries: seq![],
            errors: seq![],
            ignored: seq![],
        }
    }

    pub open spec fn fail(self, line: nat, e: ErrorModel) -> TabModel {
        TabModel { errors: self.errors.push((line, e)), ..self }
    }

    /// After a line `name = value`. The protected variables are ignored, and so
    /// is a delay that is out of range.
    pub open spec fn declare(self, name: Seq<char>, value: Seq<char>, line: nat) -> TabModel {
        let zone = zone_setting_of(value, zone_known(zone_name(value)));
        let delay = delay_of(value);
        if name == "CRON_TZ"@ && zone is Err {
            self.fail(line, zone->Err_0)
        } else if name == "RANDOM_DELAY"@ && delay is Unreadable {
            self.fail(line, ErrorModel::BadRandomDelay(value))
        } else {
            TabModel {
                tz: if name == "CRON_TZ"@ {
                    zone->Ok_0
                } else {
                    self.tz
                },
                random_delay: if name == "RANDOM_DELAY"@ && delay is Minutes {
                    Some(delay->Minutes_0)
                } else {
                    self.random_delay
                },
                ignored: if name == "RANDOM_DELAY"@ && delay is OutOfRange {
                    self.ignored.push(line)
                } else {
                    self.ignored
                },
                env: if protected(name) {
                    self.env
                } else {
                    env_set(self.env, name, value)
                },
                ..self
            }
        }
    }

    /// After one more line.
    pub open spec fn read(self, l: Line, line: nat, format: Format, privileged: bool) -> TabModel {
        let text = crate::text::trim_start(l.text);
        if text.len() == 0 || text[0] == '#' {
            self
        } else if !l.ended {
            self.fail(line, ErrorModel::PrematureEof)
        } else {
            match env_line(text) {
                Some((name, value)) => self.declare(name, value, line),
                None => match job_of(text, format, privileged) {
                    Ok(job) => TabModel {
                        entries: self.entries.push(
                            EntryModel {
                                job,
                                env: self.env,
                                tz: self.tz,
                                random_delay: self.random_delay,
                                line,
                            },
                        ),
                        ..self
                    },
                    Err(e) => self.fail(line, e),
                },
            }
        }
    }
}

/// What is read of the lines by a program with the environment `outer`.
pub open spec fn tab_of(
    outer: EnvModel,
    lines: Seq<Line>,
    format: Format,
    privileged: bool,
) -> TabModel
    decreases lines.len(),
{
    if lines.len() == 0 {
        TabModel::starting(outer)
    } else {
        tab_of(outer, lines.drop_last(), format, privileged).read(
            lines.last(),
            lines.len(),
            format,
            privileged,
        )
    }
}

/// A parsed crontab file.
#[derive(Debug, Clone, PartialEq, Eq)]
pub struct Crontab {
    pub entries: Vec<Entry>,
    /// `RANDOM_DELAY` in minutes (upper bound) in effect at the end of the file,
    /// if any.
    pub random_delay: Option<u32>,
    /// The numbers of the lines whose `RANDOM_DELAY` is out of range, and is
    /// ignored.
    pub ignored_delays: Vec<usize>,
}

pub open spec fn numbers_model(numbers: Seq<usize>) -> Seq<nat> {
    numbers.map_values(|n: usize| n as nat)
}

/// A crontab of which some lines may be bad: what the good ones say, and the
/// errors.
#[derive(Debug)]
pub struct Parsed {
    pub crontab: Crontab,
    pub errors: Vec<ParseError>,
}

impl Crontab {
    /// Is this what the good lines say?
    pub open spec fn fits(self, m: TabModel) -> bool {
        &&& entries_fit(self.entries@, m.entries)
        &&& self.random_delay == m.random_delay
        &&& numbers_model(self.ignored_delays@) == m.ignored
    }
}

pub open spec fn errors_model(errors: Seq<ParseError>) -> Seq<(nat, ErrorModel)> {
    errors.map_values(|e: ParseError| e@)
}

/// Are these the entries that the models describe?
pub open spec fn entries_fit(entries: Seq<Entry>, models: Seq<EntryModel>) -> bool {
    &&& entries.len() == models.len()
    &&& forall|i: int| 0 <= i < entries.len() ==> (#[trigger] entries[i]).fits(models[i])
}

/// A crontab while it is read.
struct Reading {
    env: Vec<(String, String)>,
    tz: Option<String>,
    random_delay: Option<u32>,
    entries: Vec<Entry>,
    errors: Vec<ParseError>,
    ignored: Vec<usize>,
}

impl Reading {
    spec fn fits(self, m: TabModel) -> bool {
        &&& env_model(self.env@) == m.env
        &&& text_model(self.tz) == m.tz
        &&& self.random_delay == m.random_delay
        &&& entries_fit(self.entries@, m.entries)
        &&& errors_model(self.errors@) == m.errors
        &&& numbers_model(self.ignored@) == m.ignored
    }

    fn fail(&mut self, line: usize, error: EntryError, Ghost(m): Ghost<TabModel>)
        requires
            old(self).fits(m),
        ensures
            final(self).fits(m.fail(line as nat, error@)),
    {
        let ghost before = self.errors@;
        let ghost e = error@;
        self.errors.push(ParseError { line, error });
        assert(errors_model(self.errors@) =~= errors_model(before).push((line as nat, e)));
    }

    fn declare(&mut self, name: String, value: String, line: usize, Ghost(m): Ghost<TabModel>)
        requires
            old(self).fits(m),
        ensures
            final(self).fits(m.declare(name@, value@, line as nat)),
    {
        let is_tz = same_str(name.as_str(), "CRON_TZ");
        let is_delay = same_str(name.as_str(), "RANDOM_DELAY");
        if is_tz {
            match zone_setting(value.as_str(), is_known_value(value.as_str())) {
                Err(error) => {
                    self.fail(line, error, Ghost(m));
                    return;
                },
                Ok(tz) => {
                    self.tz = tz;
                },
            }
        }
        if is_delay {
            proof {
                reveal_strlit("CRON_TZ");
                reveal_strlit("RANDOM_DELAY");
                assert("CRON_TZ"@.len() != "RANDOM_DELAY"@.len());
            }
            match parse_delay(chars_of(value.as_str()).as_slice()) {
                Delay::Unreadable => {
                    self.fail(line, EntryError::BadRandomDelay(value), Ghost(m));
                    return;
                },
                Delay::OutOfRange => {
                    let ghost before = self.ignored@;
                    self.ignored.push(line);
                    assert(numbers_model(self.ignored@) =~= numbers_model(before).push(
                        line as nat,
                    ));
                },
                Delay::Minutes(d) => {
                    self.random_delay = Some(d);
                },
            }
        }
        if !is_protected(name.as_str()) {
            set_env(&mut self.env, name, value);
        }
    }

    fn read(
        &mut self,
        line: &[char],
        ended: bool,
        lineno: usize,
        format: Format,
        privileged: bool,
        Ghost(m): Ghost<TabModel>,
    )
        requires
            old(self).fits(m),
        ensures
            final(self).fits(
                m.read(Line { text: line@, ended }, lineno as nat, format, privileged),
            ),
    {
        let text = trimmed_start(line);
        if text.len() == 0 || text[0] == '#' {
            return;
        }
        if !ended {
            self.fail(lineno, EntryError::PrematureEof, Ghost(m));
            return;
        }
        match read_env_line(text) {
            Some((name, value)) => {
                self.declare(name, value, lineno, Ghost(m));
            },
            None => {
                let parsed = parse_entry(
                    text,
                    format,
                    privileged,
                    &self.env,
                    &self.tz,
                    self.random_delay,
                    lineno,
                );
                match parsed {
                    Ok(entry) => {
                        self.entries.push(entry);
                    },
                    Err(error) => {
                        self.fail(lineno, error, Ghost(m));
                    },
                }
            },
        }
    }
}

impl Crontab {
    /// Parse crontab text. Returns every error found, one per bad line.
    pub fn parse(text: &str, format: Format) -> (r: Result<Crontab, Vec<ParseError>>)
        ensures
            ({
                let m = tab_of(seq![], lines_of(text@), format, false);
                match r {
                    Ok(tab) => m.errors.len() == 0 && tab.fits(m),
                    Err(errors) => m.errors.len() > 0 && errors_model(errors@) == m.errors,
                }
            }),
    {
        let none: Vec<(String, String)> = Vec::new();
        assert(env_model(none@) =~= seq![]);
        Crontab::parse_as(text, format, false, &none)
    }

    /// [`parse`](Self::parse) by a program with the environment `outer`, for a
    /// crontab that belongs to root if `privileged` is set.
    pub fn parse_as(
        text: &str,
        format: Format,
        privileged: bool,
        outer: &Vec<(String, String)>,
    ) -> (r: Result<Crontab, Vec<ParseError>>)
        ensures
            ({
                let m = tab_of(env_model(outer@), lines_of(text@), format, privileged);
                match r {
                    Ok(tab) => m.errors.len() == 0 && tab.fits(m),
                    Err(errors) => m.errors.len() > 0 && errors_model(errors@) == m.errors,
                }
            }),
    {
        let parsed = Crontab::parse_lines(text, format, privileged, outer);
        assert(errors_model(parsed.errors@).len() == parsed.errors@.len());
        if parsed.errors.len() == 0 {
            Ok(parsed.crontab)
        } else {
            Err(parsed.errors)
        }
    }

    /// Like [`parse_as`](Self::parse_as), but bad lines are skipped: what the
    /// good ones say comes along with the errors.
    pub fn parse_lines(
        text: &str,
        format: Format,
        privileged: bool,
        outer: &Vec<(String, String)>,
    ) -> (r: Parsed)
        ensures
            ({
                let m = tab_of(env_model(outer@), lines_of(text@), format, privileged);
                r.crontab.fits(m) && errors_model(r.errors@) == m.errors
            }),
    {
        let chars = chars_of(text);
        let s = chars.as_slice();
        let ghost all = lines_of(text@);
        let ghost given = env_model(outer@);
        let env = keep_inherited(outer);
        let random_delay = inherited_delay(&env);
        let mut state = Reading {
            env,
            tz: None,
            random_delay,
            entries: Vec::new(),
            errors: Vec::new(),
            ignored: Vec::new(),
        };
        let mut pos: usize = 0;
        let mut lineno: usize = 0;
        proof {
            assert(s@.skip(0) =~= s@);
            assert(all.take(0) =~= seq![]);
            assert(errors_model(state.errors@) =~= seq![]);
            assert(numbers_model(state.ignored@) =~= seq![]);
            assert(all.take(0) + lines_of(s@.skip(0)) =~= all);
        }
        while pos < s.len()
            invariant
                pos <= s@.len(),
                lineno <= pos,
                lineno <= all.len(),
                all == lines_of(s@),
                all.take(lineno as int) + lines_of(s@.skip(pos as int)) == all,
                state.fits(tab_of(given, all.take(lineno as int), format, privileged)),
            decreases s@.len() - pos,
        {
            let rest = &s[pos..s.len()];
            assert(rest@ =~= s@.skip(pos as int));
            let (stop, used, ended) = cut_line(rest);
            let line = &rest[0..stop];
            let ghost next = Line { text: line@, ended };
            let ghost m = tab_of(given, all.take(lineno as int), format, privileged);
            proof {
                assert(line@ =~= rest@.take(stop as int));
                assert(rest@.skip(used as int) =~= s@.skip(pos + used));
                lemma_next_line(all, lineno as int, next, lines_of(s@.skip(pos + used)));
            }
            lineno = lineno + 1;
            state.read(line, ended, lineno, format, privileged, Ghost(m));
            pos = pos + used;
        }
        proof {
            assert(s@.skip(pos as int) =~= seq![]);
            assert(all.take(lineno as int) + Seq::<Line>::empty() =~= all.take(lineno as int));
            assert(all.take(lineno as int) == all);
        }
        Parsed {
            crontab: Crontab {
                entries: state.entries,
                random_delay: state.random_delay,
                ignored_delays: state.ignored,
            },
            errors: state.errors,
        }
    }
}

// ---------------------------------------------------------------------------
// Limits
// ---------------------------------------------------------------------------

/// How many variables a crontab may set.
pub const MAX_VARIABLES: usize = 1000;

/// How many jobs it may hold.
pub const MAX_ENTRIES: usize = 10000;

/// How many characters of comments and blank space may stand between two
/// other lines.
pub const MAX_GARBAGE: usize = 32768;

/// How many bytes a name, a value or a command may have.
pub const MAX_FIELD: usize = 131072;

/// Which limit a crontab exceeds.
#[derive(Debug, Clone, Copy, PartialEq, Eq, Structural)]
pub enum LimitError {
    Variables,
    Entries,
    Garbage,
    Field,
}

impl LimitError {
    pub open spec fn text(self) -> Seq<char> {
        match self {
            LimitError::Variables =>
                "There are too many environment variables in the crontab file. Limit: 1000"@,
            LimitError::Entries =>
                "There are too many entries in the crontab file. Limit: 10000"@,
            LimitError::Garbage =>
                "There is too much non-parseable content in the crontab file. Limit: 32768"@,
            LimitError::Field => "There is a too long field in the crontab file. Limit: 131072"@,
        }
    }

    pub fn message(&self) -> (r: String)
        ensures
            r@ == self.text(),
    {
        match self {
            LimitError::Variables =>
                "There are too many environment variables in the crontab file. Limit: 1000".to_owned(),
            LimitError::Entries =>
                "There are too many entries in the crontab file. Limit: 10000".to_owned(),
            LimitError::Garbage =>
                "There is too much non-parseable content in the crontab file. Limit: 32768".to_owned(),
            LimitError::Field =>
                "There is a too long field in the crontab file. Limit: 131072".to_owned(),
        }
    }
}

/// The number of bytes of a text.
pub open spec fn byte_len(s: Seq<char>) -> nat {
    crate::raw::bytes_of(s).len()
}

/// What the lines so far amount to: variables, jobs, and the characters since
/// the last line that was either.
pub struct Tally {
    pub variables: int,
    pub entries: int,
    pub garbage: int,
}

impl Tally {
    pub open spec fn add_line(self, l: Line) -> Result<Tally, LimitError> {
        let text = crate::text::trim_start(l.text);
        if text.len() == 0 || text[0] == '#' {
            let garbage = self.garbage + l.text.len() + 1;
            if garbage > MAX_GARBAGE {
                Err(LimitError::Garbage)
            } else {
                Ok(Tally { garbage, ..self })
            }
        } else {
            match env_line(text) {
                Some((name, value)) => if self.variables >= MAX_VARIABLES {
                    Err(LimitError::Variables)
                } else if byte_len(name) > MAX_FIELD || byte_len(value) > MAX_FIELD {
                    Err(LimitError::Field)
                } else {
                    Ok(Tally { variables: self.variables + 1, garbage: 0, ..self })
                },
                None => if self.entries >= MAX_ENTRIES {
                    Err(LimitError::Entries)
                } else {
                    Ok(Tally { entries: self.entries + 1, garbage: 0, ..self })
                },
            }
        }
    }
}

/// The tally of all lines, or the first limit that they exceed.
pub open spec fn tally(lines: Seq<Line>) -> Result<Tally, LimitError>
    decreases lines.len(),
{
    if lines.len() == 0 {
        Ok(Tally { variables: 0, entries: 0, garbage: 0 })
    } else {
        match tally(lines.drop_last()) {
            Ok(t) => t.add_line(lines.last()),
            Err(e) => Err(e),
        }
    }
}

/// The limit that a crontab with these lines and commands exceeds, if any.
pub open spec fn exceeded(lines: Seq<Line>, commands: Seq<Seq<char>>) -> Option<LimitError> {
    if tally(lines) is Err {
        Some(tally(lines)->Err_0)
    } else if exists|i: int|
        0 <= i < commands.len() && byte_len(#[trigger] commands[i]) > MAX_FIELD {
        Some(LimitError::Field)
    } else {
        None
    }
}

/// The commands of the entries, as written.
pub open spec fn commands_of(entries: Seq<Entry>) -> Seq<Seq<char>> {
    entries.map_values(|e: Entry| e.raw_command@)
}

pub open spec fn model_commands(entries: Seq<EntryModel>) -> Seq<Seq<char>> {
    entries.map_values(|e: EntryModel| e.job.raw_command)
}

proof fn lemma_tally_prefix(lines: Seq<Line>, n: int)
    requires
        0 <= n <= lines.len(),
        tally(lines.take(n)) is Err,
    ensures
        tally(lines) == tally(lines.take(n)),
    decreases lines.len() - n,
{
    if n < lines.len() {
        assert(lines.take(n + 1).drop_last() =~= lines.take(n));
        lemma_tally_prefix(lines, n + 1);
    } else {
        assert(lines.take(n) =~= lines);
    }
}

/// Counts of the lines so far.
struct Counts {
    variables: usize,
    entries: usize,
    garbage: usize,
}

impl Counts {
    spec fn view(&self) -> Tally {
        Tally {
            variables: self.variables as int,
            entries: self.entries as int,
            garbage: self.garbage as int,
        }
    }

    fn add_line(&mut self, line: &[char], ended: bool) -> (r: Option<LimitError>)
        requires
            old(self).garbage <= MAX_GARBAGE,
        ensures
            match old(self)@.add_line(Line { text: line@, ended }) {
                Ok(t) => r is None && final(self)@ == t && final(self).garbage <= MAX_GARBAGE,
                Err(e) => r == Some(e),
            },
    {
        let text = trimmed_start(line);
        if text.len() == 0 || text[0] == '#' {
            if line.len() >= MAX_GARBAGE || self.garbage + line.len() + 1 > MAX_GARBAGE {
                return Some(LimitError::Garbage);
            }
            self.garbage = self.garbage + line.len() + 1;
            return None;
        }
        match read_env_line(text) {
            Some((name, value)) => {
                if self.variables >= MAX_VARIABLES {
                    return Some(LimitError::Variables);
                }
                if bytes_from(name.as_str()).len() > MAX_FIELD || bytes_from(value.as_str()).len()
                    > MAX_FIELD {
                    return Some(LimitError::Field);
                }
                self.variables = self.variables + 1;
            },
            None => {
                if self.entries >= MAX_ENTRIES {
                    return Some(LimitError::Entries);
                }
                self.entries = self.entries + 1;
            },
        }
        self.garbage = 0;
        None
    }
}

/// The first limit that the lines of a text exceed.
fn lines_over(text: &str) -> (r: Option<LimitError>)
    ensures
        match tally(lines_of(text@)) {
            Ok(_) => r is None,
            Err(e) => r == Some(e),
        },
{
    let chars = chars_of(text);
    let s = chars.as_slice();
    let ghost all = lines_of(text@);
    let mut counts = Counts { variables: 0, entries: 0, garbage: 0 };
    let mut pos: usize = 0;
    let ghost mut k: int = 0;
    proof {
        assert(s@.skip(0) =~= s@);
        assert(all.take(0) =~= seq![]);
        assert(all.take(0) + lines_of(s@.skip(0)) =~= all);
    }
    while pos < s.len()
        invariant
            pos <= s@.len(),
            0 <= k <= all.len(),
            all == lines_of(s@),
            s@ == text@,
            all.take(k) + lines_of(s@.skip(pos as int)) == all,
            tally(all.take(k)) == Ok::<Tally, LimitError>(counts@),
            counts.garbage <= MAX_GARBAGE,
        decreases s@.len() - pos,
    {
        let rest = &s[pos..s.len()];
        assert(rest@ =~= s@.skip(pos as int));
        let (stop, used, ended) = cut_line(rest);
        let line = &rest[0..stop];
        let ghost next = Line { text: line@, ended };
        proof {
            assert(line@ =~= rest@.take(stop as int));
            assert(rest@.skip(used as int) =~= s@.skip(pos + used));
            lemma_next_line(all, k, next, lines_of(s@.skip(pos + used)));
        }
        if let Some(e) = counts.add_line(line, ended) {
            proof {
                lemma_tally_prefix(all, k + 1);
            }
            return Some(e);
        }
        proof {
            k = k + 1;
        }
        pos = pos + used;
    }
    proof {
        assert(s@.skip(pos as int) =~= seq![]);
        assert(all.take(k) + Seq::<Line>::empty() =~= all.take(k));
        assert(all.take(k) == all);
    }
    None
}

impl Crontab {
    /// The limit that this crontab, read from `text`, exceeds.
    pub fn over_limit(&self, text: &str) -> (r: Option<LimitError>)
        ensures
            r == exceeded(lines_of(text@), commands_of(self.entries@)),
    {
        if let Some(e) = lines_over(text) {
            return Some(e);
        }
        let mut i: usize = 0;
        while i < self.entries.len()
            invariant
                i <= self.entries@.len(),
                forall|j: int|
                    0 <= j < i ==> byte_len((#[trigger] self.entries@[j]).raw_command@)
                        <= MAX_FIELD,
                tally(lines_of(text@)) is Ok,
            decreases self.entries@.len() - i,
        {
            if bytes_from(self.entries[i].raw_command.as_str()).len() > MAX_FIELD {
                assert(byte_len(commands_of(self.entries@)[i as int]) > MAX_FIELD);
                return Some(LimitError::Field);
            }
            i += 1;
        }
        None
    }
}

// ---------------------------------------------------------------------------
// Warnings
// ---------------------------------------------------------------------------

/// A job line without the `-` in front.
pub open spec fn job_body(line: Seq<char>) -> Seq<char> {
    let line = crate::text::trim_start(line);
    if line.len() > 0 && line[0] == '-' {
        crate::text::trim_start(line.skip(1))
    } else {
        line
    }
}

/// The warnings about one line; only job lines give any.
pub open spec fn warnings_about(l: Line) -> Seq<StepWarning> {
    let text = crate::text::trim_start(l.text);
    if text.len() == 0 || text[0] == '#' || env_line(text) is Some {
        seq![]
    } else {
        crate::schedule::line_warnings(job_body(text))
    }
}

/// The warnings about the first `n` lines.
pub open spec fn warnings_in(lines: Seq<Line>, n: int) -> Seq<StepWarning>
    decreases n,
{
    if n <= 0 {
        seq![]
    } else {
        warnings_in(lines, n - 1) + warnings_about(lines[n - 1])
    }
}

fn line_step_warnings(line: &[char], Ghost(ended): Ghost<bool>) -> (r: Vec<StepWarning>)
    ensures
        r@ == warnings_about(Line { text: line@, ended }),
{
    let text = trimmed_start(line);
    if text.len() == 0 || text[0] == '#' || read_env_line(text).is_some() {
        return Vec::new();
    }
    let again = trimmed_start(text);
    if again.len() > 0 && again[0] == '-' {
        let rest = &again[1..again.len()];
        assert(rest@ =~= again@.skip(1));
        step_warnings(trimmed_start(rest))
    } else {
        step_warnings(again)
    }
}

/// The warnings about the first lines of a crontab, up to `limit` of them.
pub fn warnings(text: &str, limit: usize) -> (r: Vec<StepWarning>)
    ensures
        ({
            let lines = lines_of(text@);
            r@ == warnings_in(
                lines,
                if lines.len() < limit {
                    lines.len() as int
                } else {
                    limit as int
                },
            )
        }),
{
    let chars = chars_of(text);
    let s = chars.as_slice();
    let ghost all = lines_of(text@);
    let mut out: Vec<StepWarning> = Vec::new();
    let mut pos: usize = 0;
    let mut k: usize = 0;
    proof {
        assert(s@.skip(0) =~= s@);
        assert(all.take(0) + lines_of(s@.skip(0)) =~= all);
    }
    while pos < s.len() && k < limit
        invariant
            k <= pos <= s@.len(),
            k <= limit,
            k <= all.len(),
            all.take(k as int) + lines_of(s@.skip(pos as int)) == all,
            out@ == warnings_in(all, k as int),
        decreases s@.len() - pos,
    {
        let rest = &s[pos..s.len()];
        assert(rest@ =~= s@.skip(pos as int));
        let (stop, used, ended) = cut_line(rest);
        let line = &rest[0..stop];
        proof {
            assert(line@ =~= rest@.take(stop as int));
            assert(rest@.skip(used as int) =~= s@.skip(pos + used));
            lemma_next_line(
                all,
                k as int,
                Line { text: line@, ended },
                lines_of(s@.skip(pos + used)),
            );
            assert(all[k as int] == all.take(k + 1).last());
        }
        let mut more = line_step_warnings(line, Ghost(ended));
        let ghost added = more@;
        let ghost before = out@;
        out.append(&mut more);
        assert(out@ =~= before + added);
        pos = pos + used;
        k = k + 1;
    }
    proof {
        if pos >= s@.len() {
            assert(s@.skip(pos as int) =~= seq![]);
            assert(all.take(k as int) + Seq::<Line>::empty() =~= all.take(k as int));
        }
    }
    out
}

// ---------------------------------------------------------------------------
// Laws
// ---------------------------------------------------------------------------

/// A variable has the value last assigned to it, and an assignment leaves
/// every other variable alone.
pub proof fn law_assignment(env: EnvModel, name: Seq<char>, value: Seq<char>, other: Seq<char>)
    ensures
        env_value(env_set(env, name, value), name) == Some(value),
        other != name ==> env_value(env_set(env, name, value), other) == env_value(env, other),
{
    let after = env_set(env, name, value);
    lemma_env_index(env, name);
    lemma_env_index(env, other);
    let i = env_index(env, name);
    assert forall|j: int| 0 <= j < i implies (#[trigger] after[j]).0 != name by {
        assert(after[j] == env[j]);
    }
    lemma_env_index_is(after, name, i);
    if other != name {
        let k = env_index(env, other);
        if k < env.len() {
            assert forall|j: int| 0 <= j < k implies (#[trigger] after[j]).0 != other by {
                assert(env[j].0 != other);
            }
            lemma_env_index_is(after, other, k);
        } else {
            assert forall|j: int| 0 <= j < after.len() implies (#[trigger] after[j]).0 != other by {
                if j < env.len() {
                    assert(env[j].0 != other);
                }
            }
            lemma_env_index_is(after, other, after.len() as int);
        }
    }
}

proof fn lemma_kept_unprotected(outer: EnvModel, name: Seq<char>)
    requires
        protected(name),
    ensures
        env_value(kept(outer), name) is None,
    decreases outer.len(),
{
    if outer.len() > 0 {
        lemma_kept_unprotected(outer.drop_last(), name);
        let (n, v) = outer.last();
        if inherited(n) {
            reveal_strlit("LOGNAME");
            reveal_strlit("USER");
            reveal_strlit("LANG");
            reveal_strlit("LANGUAGE");
            reveal_strlit("RANDOM_DELAY");
            reveal_strlit("MAILFROM");
            reveal_strlit("LC_");
            assert("LOGNAME"@[1] == 'O' && "USER"@[0] == 'U');
            assert(crate::text::has_prefix(n, "LC_"@) ==> n.take(3)[0] == 'L' && n.take(3)[1] == 'C');
            assert(n != name) by {
                if n == "LANG"@ {
                    assert(n[0] == 'L' && n[1] == 'A');
                } else if n == "LANGUAGE"@ || n == "RANDOM_DELAY"@ || n == "MAILFROM"@ {
                    assert(n.len() >= 8);
                }
            }
            law_assignment(kept(outer.drop_last()), n, v, name);
        }
    }
}

/// No line sets a protected variable: no job gets one from its crontab.
pub proof fn law_protected_vars_stay_unset(
    outer: EnvModel,
    lines: Seq<Line>,
    format: Format,
    privileged: bool,
    name: Seq<char>,
)
    requires
        protected(name),
    ensures
        env_value(tab_of(outer, lines, format, privileged).env, name) is None,
        forall|i: int|
            0 <= i < tab_of(outer, lines, format, privileged).entries.len() ==> env_value(
                (#[trigger] tab_of(outer, lines, format, privileged).entries[i]).env,
                name,
            ) is None,
    decreases lines.len(),
{
    if lines.len() == 0 {
        lemma_kept_unprotected(outer, name);
    } else {
        law_protected_vars_stay_unset(outer, lines.drop_last(), format, privileged, name);
        let before = tab_of(outer, lines.drop_last(), format, privileged);
        let after = tab_of(outer, lines, format, privileged);
        let l = lines.last();
        if let Some((n, v)) = env_line(crate::text::trim_start(l.text)) {
            if !protected(n) {
                law_assignment(before.env, n, v, name);
            }
        }
        assert forall|i: int| 0 <= i < after.entries.len() implies env_value(
            (#[trigger] after.entries[i]).env,
            name,
        ) is None by {
            if i < before.entries.len() {
                assert(after.entries[i] == before.entries[i]);
            }
        }
    }
}

/// Errors are reported in the order of the lines, at most one for a line, and
/// entries stand in that order too.
pub proof fn law_one_report_per_line(
    outer: EnvModel,
    lines: Seq<Line>,
    format: Format,
    privileged: bool,
)
    ensures
        ({
            let m = tab_of(outer, lines, format, privileged);
            &&& forall|i: int|
                0 <= i < m.errors.len() ==> 1 <= (#[trigger] m.errors[i]).0 <= lines.len()
            &&& forall|i: int, j: int|
                0 <= i < j < m.errors.len() ==> (#[trigger] m.errors[i]).0 < (
                #[trigger] m.errors[j]).0
            &&& forall|i: int|
                0 <= i < m.entries.len() ==> 1 <= (#[trigger] m.entries[i]).line <= lines.len()
            &&& forall|i: int, j: int|
                0 <= i < j < m.entries.len() ==> (#[trigger] m.entries[i]).line < (
                #[trigger] m.entries[j]).line
        }),
    decreases lines.len(),
{
    if lines.len() > 0 {
        law_one_report_per_line(outer, lines.drop_last(), format, privileged);
        let before = tab_of(outer, lines.drop_last(), format, privileged);
        let m = tab_of(outer, lines, format, privileged);
        assert forall|i: int| 0 <= i < m.errors.len() implies 1 <= (#[trigger] m.errors[i]).0
            <= lines.len() by {
            if i < before.errors.len() {
                assert(m.errors[i] == before.errors[i]);
            }
        }
        assert forall|i: int, j: int| 0 <= i < j < m.errors.len() implies (
        #[trigger] m.errors[i]).0 < (#[trigger] m.errors[j]).0 by {
            assert(m.errors[i] == before.errors[i]);
            if j < before.errors.len() {
                assert(m.errors[j] == before.errors[j]);
            }
        }
        assert forall|i: int| 0 <= i < m.entries.len() implies 1 <= (#[trigger] m.entries[i]).line
            <= lines.len() by {
            if i < before.entries.len() {
                assert(m.entries[i] == before.entries[i]);
            }
        }
        assert forall|i: int, j: int| 0 <= i < j < m.entries.len() implies (
        #[trigger] m.entries[i]).line < (#[trigger] m.entries[j]).line by {
            assert(m.entries[i] == before.entries[i]);
            if j < before.entries.len() {
                assert(m.entries[j] == before.entries[j]);
            }
        }
    }
}

/// A job line gets the variables, the zone and the delay declared before it.
pub proof fn law_declarations_apply_to_later_jobs(
    outer: EnvModel,
    lines: Seq<Line>,
    format: Format,
    privileged: bool,
    i: int,
)
    requires
        0 <= i < tab_of(outer, lines, format, privileged).entries.len(),
    ensures
        ({
            let e = tab_of(outer, lines, format, privileged).entries[i];
            let before = tab_of(outer, lines.take(e.line - 1), format, privileged);
            &&& 1 <= e.line <= lines.len()
            &&& e.env == before.env
            &&& e.tz == before.tz
            &&& e.random_delay == before.random_delay
        }),
    decreases lines.len(),
{
    let m = tab_of(outer, lines, format, privileged);
    let shorter = lines.drop_last();
    let before = tab_of(outer, shorter, format, privileged);
    assert(lines.take(lines.len() - 1) =~= shorter);
    if i < before.entries.len() {
        assert(m.entries[i] == before.entries[i]);
        law_declarations_apply_to_later_jobs(outer, shorter, format, privileged, i);
        assert(lines.take(m.entries[i].line - 1) =~= shorter.take(m.entries[i].line - 1));
    }
}

/// A bad line is as good as an empty one to the rest of the crontab: it gives
/// the same jobs and declarations.
pub proof fn law_bad_lines_are_skipped(
    outer: EnvModel,
    lines: Seq<Line>,
    format: Format,
    privileged: bool,
    i: int,
)
    requires
        0 <= i < lines.len(),
        exists|j: int|
            0 <= j < tab_of(outer, lines, format, privileged).errors.len() && (
            #[trigger] tab_of(outer, lines, format, privileged).errors[j]).0 == i + 1,
    ensures
        ({
            let m = tab_of(outer, lines, format, privileged);
            let k = tab_of(
                outer,
                lines.update(i, Line { text: seq![], ended: true }),
                format,
                privileged,
            );
            &&& m.entries == k.entries
            &&& m.env == k.env
            &&& m.tz == k.tz
            &&& m.random_delay == k.random_delay
            &&& m.ignored == k.ignored
        }),
    decreases lines.len(),
{
    let blank = Line { text: seq![], ended: true };
    let n = lines.len() as int;
    let shorter = lines.drop_last();
    let before = tab_of(outer, shorter, format, privileged);
    let m = tab_of(outer, lines, format, privileged);
    let j = choose|j: int| 0 <= j < m.errors.len() && (#[trigger] m.errors[j]).0 == i + 1;
    let changed = lines.update(i, blank);
    law_one_report_per_line(outer, shorter, format, privileged);
    if i == n - 1 {
        assert(changed.drop_last() =~= shorter);
        assert(crate::text::trim_start(blank.text) =~= seq![]);
        if j < before.errors.len() {
            assert(m.errors[j] == before.errors[j]);
        }
    } else {
        assert(j < before.errors.len());
        assert(before.errors[j] == m.errors[j]);
        law_bad_lines_are_skipped(outer, shorter, format, privileged, i);
        assert(changed.drop_last() =~= shorter.update(i, blank));
        assert(changed.last() == lines.last());
    }
}

/// What a job line becomes: its command and input are those of the command as
/// written, which is not empty, and it names a user exactly if the format has a
/// user field.
pub proof fn law_job_line(
    line: Seq<char>,
    format: Format,
    privileged: bool,
    declared: EntryModel,
    e: Entry,
)
    requires
        job_of(line, format, privileged) == Ok::<JobModel, ErrorModel>(declared.job),
        e.fits(declared),
    ensures
        (e.command@, text_model(e.stdin)) == split(e.raw_command@),
        e.raw_command@.len() > 0,
        e.user is Some <==> format == Format::System,
        env_model(e.env@) == declared.env,
        text_model(e.tz) == declared.tz,
        e.line == declared.line,
{
}

/// A bad user name is reported whether or not a command follows it. A `*` behind
/// the time fields is no user name but a bad command.
pub proof fn law_bad_username_comes_first(line: Seq<char>, privileged: bool)
    requires
        crate::schedule::prefix_of(job_body(line)) is Ok,
        ({
            let rest = crate::schedule::prefix_of(job_body(line))->Ok_0.1;
            &&& !user_name(crate::schedule::first_word(rest))
            &&& rest.len() == 0 || rest[0] != '*'
        }),
    ensures
        job_of(line, Format::System, privileged) == Err::<JobModel, ErrorModel>(
            ErrorModel::BadUsername,
        ),
{
}

/// Without a percent sign the whole text is the command; the input made from
/// a percent sign ends in a newline.
pub proof fn law_percent(raw: Seq<char>)
    ensures
        !raw.contains('%') ==> split(raw) == (raw, None::<Seq<char>>),
        split(raw).1 matches Some(stdin) ==> stdin.len() > 0 && stdin.last() == '\n',
    decreases raw.len(),
{
    if !raw.contains('%') && raw.len() > 0 {
        let t = raw.skip(1);
        assert forall|i: int| 0 <= i < t.len() implies t[i] != '%' by {
            assert(raw[i + 1] == t[i]);
            assert(raw.contains(raw[i + 1]));
        }
        assert(!t.contains('%'));
        law_percent(t);
        assert(raw.contains(raw[0]));
        if raw.len() > 1 {
            assert(raw.contains(raw[1]));
        }
        assert(seq![raw[0]] + t =~= raw);
    } else if raw.len() == 0 {
        assert(raw =~= seq![]);
    }
}

/// A text with every percent sign escaped.
pub open spec fn escape(s: Seq<char>) -> Seq<char>
    decreases s.len(),
{
    if s.len() == 0 {
        seq![]
    } else if s[0] == '%' {
        seq!['\\', '%'] + escape(s.skip(1))
    } else {
        seq![s[0]] + escape(s.skip(1))
    }
}

proof fn lemma_escape_start(s: Seq<char>)
    ensures
        escape(s).len() > 0 ==> escape(s)[0] != '%',
{
}

/// Reading an escaped text and going on with what follows it.
pub proof fn lemma_escape(s: Seq<char>, tail: Seq<char>)
    requires
        tail.len() == 0 || tail[0] == '%',
        s.len() > 0 && s.last() == '\\' ==> tail.len() == 0,
    ensures
        command_part(escape(s) + tail) == (s + command_part(tail).0, command_part(tail).1),
        stdin_lines(escape(s) + tail) == s + stdin_lines(tail),
    decreases s.len(),
{
    let all = escape(s) + tail;
    if s.len() == 0 {
        assert(all =~= tail);
        assert(s + command_part(tail).0 =~= command_part(tail).0);
        assert(s + stdin_lines(tail) =~= stdin_lines(tail));
    } else {
        let t = s.skip(1);
        let rest = escape(t) + tail;
        assert(t.len() > 0 ==> t.last() == s.last());
        lemma_escape(t, tail);
        lemma_escape_start(t);
        if s[0] == '%' {
            assert(all.skip(2) =~= rest);
            assert(escaped(all));
        } else {
            assert(all.skip(1) =~= rest);
            if escaped(all) {
                assert(all[1] == rest[0]);
                if t.len() == 0 {
                    assert(escape(t) =~= seq![]);
                    assert(s.last() == s[0]);
                } else {
                    assert(escape(t).len() > 0);
                    assert(rest[0] == escape(t)[0]);
                }
            }
        }
        assert(seq![s[0]] + (t + command_part(tail).0) =~= s + command_part(tail).0);
        assert(seq![s[0]] + (t + stdin_lines(tail)) =~= s + stdin_lines(tail));
    }
}

/// Escaping percent signs is undone by reading: an escaped command comes back
/// as it was, without input, and so do a command and a line of input that a
/// percent sign sets apart. A command that ends in a backslash would escape
/// that sign.
pub proof fn law_escaping_is_undone(command: Seq<char>, line: Seq<char>)
    ensures
        split(escape(command)) == (command, None::<Seq<char>>),
        (command.len() > 0 ==> command.last() != '\\') && (line.len() > 0 ==> line.last() != '\n')
            ==> split(escape(command) + seq!['%'] + escape(line)) == (
            command,
            Some(line.push('\n')),
        ),
{
    let none = Seq::<char>::empty();
    lemma_escape(command, none);
    assert(escape(command) + none =~= escape(command));
    assert(command + none =~= command);
    if (command.len() > 0 ==> command.last() != '\\') && (line.len() > 0 ==> line.last() != '\n') {
        let tail = seq!['%'] + escape(line);
        lemma_escape(command, tail);
        assert(escape(command) + seq!['%'] + escape(line) =~= escape(command) + tail);
        assert(tail.skip(1) =~= escape(line));
        assert(!escaped(tail));
        lemma_escape(line, none);
        assert(escape(line) + none =~= escape(line));
        assert(line + none =~= line);
    }
}

} // verus!
