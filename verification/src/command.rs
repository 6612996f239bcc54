//! What the `crontab` utility is asked to do, and the decisions it takes on
//! the way.

use vstd::prelude::*;

use crate::crontab::{warnings, Crontab, Format, LimitError, ParseError};
use crate::schedule::StepWarning;
use crate::text::{chars_of, number_text, same_str, string_of, trimmed};

verus! {

// ---------------------------------------------------------------------------
// Arguments
// ---------------------------------------------------------------------------

/// An argument, in the order of the command line.
#[derive(Debug, Clone, PartialEq, Eq)]
pub enum Arg {
    /// `-u`
    User(String),
    /// `-l`
    List,
    /// `-r`
    Remove,
    /// `-e`
    Edit,
    /// `-T`
    Test,
    /// `-n`
    SetHost(String),
    /// `-c`
    ShowHost,
    /// `-i`
    Interactive,
    File(String),
}

/// What to do.
#[derive(Debug, Clone, PartialEq, Eq)]
pub enum Action {
    Install,
    List,
    Remove,
    Edit,
    Test,
    SetHost(String),
    ShowHost,
}

#[derive(Debug, Clone, Copy, PartialEq, Eq, Structural)]
pub enum UsageError {
    /// `-u` by somebody other than root.
    UserNotPrivileged,
    /// `-u` after `-n`, `-c` or `-T`.
    UserConflict,
    /// `-n` by somebody other than root.
    HostNotPrivileged,
    /// `-n` or `-c` for another user.
    HostConflict,
    /// More than one action.
    TwoActions,
    /// A file where none is read.
    FileConflict,
}

impl UsageError {
    pub open spec fn text(self) -> Seq<char> {
        match self {
            UsageError::UserNotPrivileged => "must be privileged to use -u"@,
            UsageError::UserConflict => "cannot use -u with -n, -c or -T"@,
            UsageError::HostNotPrivileged => "must be privileged to set host with -n"@,
            UsageError::HostConflict => "cannot use -u with -n or -c"@,
            UsageError::TwoActions => "only one operation permitted"@,
            UsageError::FileConflict =>
                "a file argument cannot be combined with -l, -r, -e, -n or -c"@,
        }
    }

    pub fn message(&self) -> (r: String)
        ensures
            r@ == self.text(),
    {
        match self {
            UsageError::UserNotPrivileged => "must be privileged to use -u".to_owned(),
            UsageError::UserConflict => "cannot use -u with -n, -c or -T".to_owned(),
            UsageError::HostNotPrivileged => "must be privileged to set host with -n".to_owned(),
            UsageError::HostConflict => "cannot use -u with -n or -c".to_owned(),
            UsageError::TwoActions => "only one operation permitted".to_owned(),
            UsageError::FileConflict =>
                "a file argument cannot be combined with -l, -r, -e, -n or -c".to_owned(),
        }
    }
}

/// What the arguments ask for.
#[derive(Debug, Clone, PartialEq, Eq)]
pub struct Request {
    pub action: Action,
    /// Whose crontab; that of the invoking user if nobody is named.
    pub user: Option<String>,
    pub file: Option<String>,
    /// Prompt before removing.
    pub interactive: bool,
}

pub enum ActionModel {
    Install,
    List,
    Remove,
    Edit,
    Test,
    SetHost(Seq<char>),
    ShowHost,
}

pub enum ArgModel {
    User(Seq<char>),
    Action(ActionModel),
    Interactive,
    File(Seq<char>),
}

impl Action {
    pub open spec fn view(&self) -> ActionModel {
        match self {
            Action::Install => ActionModel::Install,
            Action::List => ActionModel::List,
            Action::Remove => ActionModel::Remove,
            Action::Edit => ActionModel::Edit,
            Action::Test => ActionModel::Test,
            Action::SetHost(h) => ActionModel::SetHost(h@),
            Action::ShowHost => ActionModel::ShowHost,
        }
    }
}

impl Arg {
    pub open spec fn view(&self) -> ArgModel {
        match self {
            Arg::User(u) => ArgModel::User(u@),
            Arg::List => ArgModel::Action(ActionModel::List),
            Arg::Remove => ArgModel::Action(ActionModel::Remove),
            Arg::Edit => ArgModel::Action(ActionModel::Edit),
            Arg::Test => ArgModel::Action(ActionModel::Test),
            Arg::SetHost(h) => ArgModel::Action(ActionModel::SetHost(h@)),
            Arg::ShowHost => ArgModel::Action(ActionModel::ShowHost),
            Arg::Interactive => ArgModel::Interactive,
            Arg::File(f) => ArgModel::File(f@),
        }
    }
}

/// What the arguments so far ask for. The action is `Install` until one is
/// named.
pub struct RequestModel {
    pub action: ActionModel,
    pub user: Option<Seq<char>>,
    pub file: Option<Seq<char>>,
    pub interactive: bool,
}

impl Request {
    pub open spec fn view(&self) -> RequestModel {
        RequestModel {
            action: self.action@,
            user: crate::crontab::text_model(self.user),
            file: crate::crontab::text_model(self.file),
            interactive: self.interactive,
        }
    }
}

/// Does the action concern the host of a cluster?
pub open spec fn on_host(action: ActionModel) -> bool {
    action is SetHost || action is ShowHost
}

impl RequestModel {
    /// Is somebody other than the invoking user named?
    pub open spec fn for_other(self, me: Seq<char>) -> bool {
        self.user matches Some(u) && u != me
    }

    pub open spec fn with_arg(self, arg: ArgModel, me: Seq<char>, root: bool) -> Result<
        RequestModel,
        UsageError,
    > {
        match arg {
            ArgModel::User(name) => if !root {
                Err(UsageError::UserNotPrivileged)
            } else if on_host(self.action) || self.action is Test {
                Err(UsageError::UserConflict)
            } else {
                Ok(RequestModel { user: Some(name), ..self })
            },
            ArgModel::Action(action) => if action is SetHost && !root {
                Err(UsageError::HostNotPrivileged)
            } else if !(self.action is Install) {
                Err(UsageError::TwoActions)
            } else if on_host(action) && self.for_other(me) {
                Err(UsageError::HostConflict)
            } else {
                Ok(RequestModel { action, ..self })
            },
            ArgModel::Interactive => Ok(RequestModel { interactive: true, ..self }),
            ArgModel::File(f) => Ok(RequestModel { file: Some(f), ..self }),
        }
    }
}

/// What the first `n` arguments ask for.
pub open spec fn asked(args: Seq<Arg>, n: int, me: Seq<char>, root: bool) -> Result<
    RequestModel,
    UsageError,
>
    decreases n,
{
    if n <= 0 {
        Ok(
            RequestModel {
                action: ActionModel::Install,
                user: None,
                file: None,
                interactive: false,
            },
        )
    } else {
        match asked(args, n - 1, me, root) {
            Ok(r) => r.with_arg(args[n - 1]@, me, root),
            Err(e) => Err(e),
        }
    }
}

/// What the arguments ask for; a file goes with installing and testing only.
pub open spec fn request_of(args: Seq<Arg>, me: Seq<char>, root: bool) -> Result<
    RequestModel,
    UsageError,
> {
    match asked(args, args.len() as int, me, root) {
        Ok(r) => if r.file is Some && !(r.action is Install || r.action is Test) {
            Err(UsageError::FileConflict)
        } else {
            Ok(r)
        },
        Err(e) => Err(e),
    }
}

proof fn lemma_asked_err(args: Seq<Arg>, n: int, m: int, me: Seq<char>, root: bool)
    requires
        0 <= n <= m,
        asked(args, n, me, root) is Err,
    ensures
        asked(args, m, me, root) == asked(args, n, me, root),
    decreases m - n,
{
    if n < m {
        lemma_asked_err(args, n, m - 1, me, root);
    }
}

impl Request {
    fn is_host(&self) -> (r: bool)
        ensures
            r == on_host(self.action@),
    {
        match &self.action {
            Action::SetHost(_) => true,
            Action::ShowHost => true,
            _ => false,
        }
    }

    fn set_user(&mut self, name: &String, root: bool) -> (r: Option<UsageError>)
        ensures
            forall|me: Seq<char>|
                match #[trigger] old(self)@.with_arg(ArgModel::User(name@), me, root) {
                    Ok(m) => r is None && final(self)@ == m,
                    Err(e) => r == Some(e),
                },
    {
        if !root {
            return Some(UsageError::UserNotPrivileged);
        }
        let testing = match &self.action {
            Action::Test => true,
            _ => false,
        };
        if self.is_host() || testing {
            return Some(UsageError::UserConflict);
        }
        self.user = Some(name.clone());
        None
    }

    fn set_action(&mut self, action: Action, me: &str, root: bool) -> (r: Option<UsageError>)
        ensures
            match old(self)@.with_arg(ArgModel::Action(action@), me@, root) {
                Ok(m) => r is None && final(self)@ == m,
                Err(e) => r == Some(e),
            },
    {
        let mut host = false;
        match &action {
            Action::SetHost(_) => {
                if !root {
                    return Some(UsageError::HostNotPrivileged);
                }
                host = true;
            },
            Action::ShowHost => {
                host = true;
            },
            _ => {},
        }
        match &self.action {
            Action::Install => {},
            _ => {
                return Some(UsageError::TwoActions);
            },
        }
        if host {
            if let Some(u) = &self.user {
                if !same_str(u.as_str(), me) {
                    return Some(UsageError::HostConflict);
                }
            }
        }
        self.action = action;
        None
    }

    fn take(&mut self, arg: &Arg, me: &str, root: bool) -> (r: Option<UsageError>)
        ensures
            match old(self)@.with_arg(arg@, me@, root) {
                Ok(m) => r is None && final(self)@ == m,
                Err(e) => r == Some(e),
            },
    {
        match arg {
            Arg::User(name) => self.set_user(name, root),
            Arg::List => self.set_action(Action::List, me, root),
            Arg::Remove => self.set_action(Action::Remove, me, root),
            Arg::Edit => self.set_action(Action::Edit, me, root),
            Arg::Test => self.set_action(Action::Test, me, root),
            Arg::SetHost(h) => self.set_action(Action::SetHost(h.clone()), me, root),
            Arg::ShowHost => self.set_action(Action::ShowHost, me, root),
            Arg::Interactive => {
                self.interactive = true;
                None
            },
            Arg::File(f) => {
                self.file = Some(f.clone());
                None
            },
        }
    }

    /// What the arguments ask for; `me` is the invoking user, and `root` says
    /// whether that is root.
    pub fn from_args(args: &Vec<Arg>, me: &str, root: bool) -> (r: Result<Request, UsageError>)
        ensures
            match request_of(args@, me@, root) {
                Ok(m) => r matches Ok(q) && q@ == m,
                Err(e) => r matches Err(f) && f == e,
            },
    {
        let mut request = Request {
            action: Action::Install,
            user: None,
            file: None,
            interactive: false,
        };
        let mut i: usize = 0;
        while i < args.len()
            invariant
                i <= args@.len(),
                asked(args@, i as int, me@, root) == Ok::<RequestModel, UsageError>(request@),
            decreases args@.len() - i,
        {
            if let Some(e) = request.take(&args[i], me, root) {
                proof {
                    lemma_asked_err(args@, i + 1, args@.len() as int, me@, root);
                }
                return Err(e);
            }
            i += 1;
        }
        if request.file.is_some() {
            match &request.action {
                Action::Install => {},
                Action::Test => {},
                _ => {
                    return Err(UsageError::FileConflict);
                },
            }
        }
        Ok(request)
    }
}

/// Only root works on another user's crontab or names the cluster host.
pub proof fn law_privileges(args: Seq<Arg>, me: Seq<char>, n: int)
    requires
        0 <= n <= args.len(),
    ensures
        asked(args, n, me, false) matches Ok(r) ==> r.user is None && !(r.action is SetHost),
    decreases n,
{
    if n > 0 {
        law_privileges(args, me, n - 1);
    }
}

// ---------------------------------------------------------------------------
// Checking
// ---------------------------------------------------------------------------

/// Why a crontab is refused: its first error, or the limit it exceeds.
#[derive(Debug, Clone, PartialEq, Eq)]
pub enum Refusal {
    Syntax(ParseError),
    Limit(LimitError),
}

pub enum RefusalModel {
    Syntax(nat, crate::crontab::ErrorModel),
    Limit(LimitError),
}

impl Refusal {
    pub open spec fn view(&self) -> RefusalModel {
        match self {
            Refusal::Syntax(e) => RefusalModel::Syntax(e@.0, e@.1),
            Refusal::Limit(e) => RefusalModel::Limit(*e),
        }
    }

    /// The line that is printed about a refused file.
    pub open spec fn line(&self, source: Seq<char>) -> Seq<char> {
        match self {
            Refusal::Syntax(e) => "\""@ + source + "\":"@ + crate::text::decimal_text(
                e.line as nat,
            ) + ": "@ + e.error@.text(),
            Refusal::Limit(e) => e.text(),
        }
    }

    pub fn report(&self, source: &str) -> (r: String)
        ensures
            r@ == self.line(source@),
    {
        match self {
            Refusal::Syntax(e) => {
                let mut s = "\"".to_owned();
                s.append(source);
                s.append("\":");
                s.append(number_text(e.line as u64).as_str());
                s.append(": ");
                s.append(e.error.message().as_str());
                s
            },
            Refusal::Limit(e) => e.message(),
        }
    }
}

/// What is wrong with a user's crontab, if anything.
pub open spec fn refusal_of(
    text: Seq<char>,
    privileged: bool,
    outer: crate::crontab::EnvModel,
) -> Option<RefusalModel> {
    let lines = crate::crontab::lines_of(text);
    let m = crate::crontab::tab_of(outer, lines, Format::User, privileged);
    if m.errors.len() > 0 {
        Some(RefusalModel::Syntax(m.errors[0].0, m.errors[0].1))
    } else {
        match crate::crontab::exceeded(lines, crate::crontab::model_commands(m.entries)) {
            Some(e) => Some(RefusalModel::Limit(e)),
            None => None,
        }
    }
}

/// Checks a user's crontab. `privileged` says that the user is root, and
/// `outer` is the environment of the program.
pub fn check_text(text: &str, privileged: bool, outer: &Vec<(String, String)>) -> (r: Option<
    Refusal,
>)
    ensures
        match refusal_of(text@, privileged, crate::crontab::env_model(outer@)) {
            Some(m) => r matches Some(f) && f@ == m,
            None => r is None,
        },
{
    match Crontab::parse_as(text, Format::User, privileged, outer) {
        Err(errors) => {
            let mut list = errors;
            assert(crate::crontab::errors_model(list@)[0] == list@[0]@);
            Some(Refusal::Syntax(list.remove(0)))
        },
        Ok(tab) => {
            proof {
                let m = crate::crontab::tab_of(
                    crate::crontab::env_model(outer@),
                    crate::crontab::lines_of(text@),
                    Format::User,
                    privileged,
                );
                assert(crate::crontab::commands_of(tab.entries@)
                    =~= crate::crontab::model_commands(m.entries));
            }
            match tab.over_limit(text) {
                Some(e) => Some(Refusal::Limit(e)),
                None => None,
            }
        },
    }
}

/// How many lines of a crontab are read: those before its first error.
pub open spec fn lines_read(lines: nat, refusal: Option<RefusalModel>) -> int {
    match refusal {
        Some(RefusalModel::Syntax(n, _)) => if n == 0 {
            0
        } else if n <= lines {
            n - 1
        } else {
            lines as int
        },
        _ => lines as int,
    }
}

pub open spec fn refusal_view(refusal: Option<Refusal>) -> Option<RefusalModel> {
    match refusal {
        Some(f) => Some(f@),
        None => None,
    }
}

/// The warnings to print about a crontab that was checked: those about the
/// lines before its first error.
pub fn check_warnings(text: &str, refusal: &Option<Refusal>) -> (r: Vec<StepWarning>)
    ensures
        ({
            let lines = crate::crontab::lines_of(text@);
            r@ == crate::crontab::warnings_in(
                lines,
                lines_read(lines.len(), refusal_view(*refusal)),
            )
        }),
{
    let limit: usize = match refusal {
        Some(Refusal::Syntax(e)) => if e.line == 0 {
            0
        } else {
            e.line - 1
        },
        _ => text.unicode_len(),
    };
    proof {
        crate::crontab::lemma_line_count(text@);
    }
    warnings(text, limit)
}

/// What follows an edit.
#[derive(Debug, Clone, PartialEq, Eq)]
pub enum EditStep {
    /// Nothing was changed.
    Unchanged,
    Install,
    /// The text has an error; ask whether to edit again.
    Refused(Refusal),
}

/// Decides what follows after a crontab was edited.
pub fn after_edit(
    original: &str,
    edited: &str,
    privileged: bool,
    outer: &Vec<(String, String)>,
) -> (r: EditStep)
    ensures
        if edited@ == original@ {
            r is Unchanged
        } else {
            match refusal_of(edited@, privileged, crate::crontab::env_model(outer@)) {
                Some(m) => r matches EditStep::Refused(f) && f@ == m,
                None => r is Install,
            }
        },
{
    if same_str(edited, original) {
        return EditStep::Unchanged;
    }
    match check_text(edited, privileged, outer) {
        Some(f) => EditStep::Refused(f),
        None => EditStep::Install,
    }
}

/// The text to store: a last line that is not closed is closed.
pub open spec fn stored(text: Seq<char>) -> Seq<char> {
    if text.len() > 0 && text.last() != '\n' {
        text.push('\n')
    } else {
        text
    }
}

pub fn stored_text(text: &str) -> (r: String)
    ensures
        r@ == stored(text@),
{
    let n = text.unicode_len();
    let mut s = text.to_owned();
    if n > 0 && text.get_char(n - 1) != '\n' {
        s.push('\n');
    }
    s
}

/// The lines of an open text once it is closed.
proof fn lemma_closed_lines(text: Seq<char>)
    requires
        text.len() > 0,
        text.last() != '\n',
    ensures
        ({
            let lines = crate::crontab::lines_of(text);
            let last = lines.last();
            &&& lines.len() > 0
            &&& !last.ended
            &&& crate::crontab::lines_of(text.push('\n')) == lines.drop_last().push(
                crate::crontab::Line { text: crate::crontab::without_cr(last.text), ended: true },
            )
        }),
    decreases text.len(),
{
    let closed = text.push('\n');
    let n = crate::text::first_of(text, '\n');
    crate::text::lemma_first_of(text, '\n');
    let lines = crate::crontab::lines_of(text);
    if n < text.len() {
        crate::text::lemma_first_of_is(closed, '\n', n);
        let t = text.skip(n + 1);
        assert(n + 1 < text.len());
        lemma_closed_lines(t);
        assert(closed.skip(n + 1) =~= t.push('\n'));
        assert(closed.take(n) =~= text.take(n));
        let tail = crate::crontab::lines_of(t);
        let head = seq![
            crate::crontab::Line {
                text: crate::crontab::without_cr(text.take(n)),
                ended: true,
            },
        ];
        assert(lines == head + tail);
        assert(lines.last() == tail.last());
        assert(lines.drop_last() =~= head + tail.drop_last());
        let end = crate::crontab::Line {
            text: crate::crontab::without_cr(tail.last().text),
            ended: true,
        };
        assert(crate::crontab::lines_of(closed) =~= head + tail.drop_last().push(end));
        assert(head + tail.drop_last().push(end) =~= lines.drop_last().push(end));
    } else {
        crate::text::lemma_first_of_is(closed, '\n', text.len() as int);
        assert(closed.take(text.len() as int) =~= text);
        assert(closed.skip(text.len() as int + 1) =~= seq![]);
        assert(lines =~= seq![crate::crontab::Line { text, ended: false }]);
        let end = crate::crontab::Line { text: crate::crontab::without_cr(text), ended: true };
        assert(crate::crontab::lines_of(closed.skip(text.len() as int + 1)) =~= seq![]);
        assert(crate::crontab::lines_of(closed) =~= seq![end]);
        assert(lines.drop_last().push(end) =~= seq![end]);
    }
}

/// A blank line or a comment stays one without its carriage return.
proof fn lemma_garbage_without_cr(s: Seq<char>)
    requires
        crate::text::trim_start(s).len() == 0 || crate::text::trim_start(s)[0] == '#',
    ensures
        ({
            let t = crate::text::trim_start(crate::crontab::without_cr(s));
            t.len() == 0 || t[0] == '#'
        }),
{
    let u = crate::crontab::without_cr(s);
    crate::text::lemma_lead_white(s);
    crate::text::lemma_lead_white(u);
    let n = crate::text::lead_white(s);
    let m = crate::text::lead_white(u);
    if u.len() < s.len() {
        if n >= u.len() {
            crate::text::lemma_lead_white_is(u, u.len() as int);
        } else {
            crate::text::lemma_lead_white_is(u, n);
            assert(u.skip(n)[0] == s.skip(n)[0]);
        }
    }
}

/// A crontab that passes the check passes it as stored too, and the same
/// entries are read back.
pub proof fn law_checked_text_is_read_back(
    text: Seq<char>,
    privileged: bool,
    outer: crate::crontab::EnvModel,
)
    requires
        refusal_of(text, privileged, outer) is None,
    ensures
        refusal_of(stored(text), privileged, outer) is None,
        crate::crontab::tab_of(
            outer,
            crate::crontab::lines_of(stored(text)),
            Format::User,
            privileged,
        ) == crate::crontab::tab_of(
            outer,
            crate::crontab::lines_of(text),
            Format::User,
            privileged,
        ),
{
    if text.len() > 0 && text.last() != '\n' {
        lemma_closed_lines(text);
        let lines = crate::crontab::lines_of(text);
        let kept = crate::crontab::lines_of(stored(text));
        let last = lines.last();
        let before = crate::crontab::tab_of(outer, lines.drop_last(), Format::User, privileged);
        let m = crate::crontab::tab_of(outer, lines, Format::User, privileged);
        let t = crate::text::trim_start(last.text);
        if !(t.len() == 0 || t[0] == '#') {
            assert(m.errors.len() > 0);
        }
        lemma_garbage_without_cr(last.text);
        assert(kept.drop_last() =~= lines.drop_last());
        assert(kept.last().text == crate::crontab::without_cr(last.text));
        assert(crate::crontab::tab_of(outer, kept, Format::User, privileged) == before);
    }
}

// ---------------------------------------------------------------------------
// Questions and settings
// ---------------------------------------------------------------------------

/// What an answer to a yes-or-no question says.
#[derive(Debug, Clone, Copy, PartialEq, Eq, Structural)]
pub enum Answer {
    Yes,
    No,
    /// Neither; ask again.
    Again,
}

pub open spec fn answer_of(line: Option<Seq<char>>) -> Answer {
    match line {
        None => Answer::No,
        Some(s) => {
            let t = crate::text::trim(s);
            if t.len() > 0 && (t[0] == 'y' || t[0] == 'Y') {
                Answer::Yes
            } else if t.len() > 0 && (t[0] == 'n' || t[0] == 'N') {
                Answer::No
            } else {
                Answer::Again
            }
        },
    }
}

/// Reads an answer by its first letter. No line at all means no.
pub fn read_answer(line: Option<&str>) -> (r: Answer)
    ensures
        r == answer_of(crate::job::opt_text(line)),
{
    match line {
        None => Answer::No,
        Some(s) => {
            let chars = chars_of(s);
            let t = trimmed(chars.as_slice());
            if t.len() > 0 && (t[0] == 'y' || t[0] == 'Y') {
                Answer::Yes
            } else if t.len() > 0 && (t[0] == 'n' || t[0] == 'N') {
                Answer::No
            } else {
                Answer::Again
            }
        },
    }
}

/// Is this a value that is not blank?
pub open spec fn given(value: Option<Seq<char>>) -> bool {
    value matches Some(v) && crate::text::trim(v).len() > 0
}

fn is_given(value: Option<&str>) -> (r: bool)
    ensures
        r == given(crate::job::opt_text(value)),
{
    match value {
        Some(v) => {
            let chars = chars_of(v);
            trimmed(chars.as_slice()).len() > 0
        },
        None => false,
    }
}

pub open spec fn editor_of(visual: Option<Seq<char>>, editor: Option<Seq<char>>) -> Seq<char> {
    if given(visual) {
        visual->0
    } else if given(editor) {
        editor->0
    } else {
        "vi"@
    }
}

/// The editor: `$VISUAL`, else `$EDITOR`, unless blank, else `vi`.
pub fn choose_editor(visual: Option<&str>, editor: Option<&str>) -> (r: String)
    ensures
        r@ == editor_of(crate::job::opt_text(visual), crate::job::opt_text(editor)),
{
    if let Some(v) = visual {
        if is_given(visual) {
            return v.to_owned();
        }
    }
    if let Some(e) = editor {
        if is_given(editor) {
            return e.to_owned();
        }
    }
    "vi".to_owned()
}

/// The content of the cluster host file for a host; `None` if there is to be
/// no such file.
pub fn host_file_text(host: &str) -> (r: Option<String>)
    ensures
        if host@.len() == 0 {
            r is None
        } else {
            r matches Some(t) && t@ == host@.push('\n')
        },
{
    if host.unicode_len() == 0 {
        return None;
    }
    let mut s = host.to_owned();
    s.push('\n');
    Some(s)
}

/// The host that a cluster host file names.
pub fn shown_host(text: &str) -> (r: String)
    ensures
        r@ == crate::text::trim(text@),
{
    let chars = chars_of(text);
    string_of(trimmed(chars.as_slice()))
}

/// The host that is shown is the one that was set, and user crontabs run
/// there.
pub proof fn law_set_host_is_shown(host: Seq<char>)
    requires
        crate::text::trim(host) == host,
    ensures
        crate::text::trim(host.push('\n')) == host,
        forall|text: String| #![trigger text@]
            text@ == host.push('\n') ==> crate::daemon::cluster_ok(true, Ok(text), host),
{
    let text = host.push('\n');
    if host.len() == 0 {
        crate::text::lemma_lead_white_is(text, 1);
        assert(crate::text::trim_start(text) =~= host);
    } else {
        let n = crate::text::lead_white(host);
        crate::text::lemma_lead_white(host);
        lemma_trim_end_len(crate::text::trim_start(host));
        assert(n == 0);
        assert(crate::text::trim_start(host) =~= host);
        crate::text::lemma_lead_white_is(text, 0);
        assert(crate::text::trim_start(text) =~= text);
        assert(text.drop_last() =~= host);
    }
}

proof fn lemma_trim_end_len(s: Seq<char>)
    ensures
        crate::text::trim_end(s).len() <= s.len(),
    decreases s.len(),
{
    if s.len() > 0 && crate::text::white(s.last()) {
        lemma_trim_end_len(s.drop_last());
    }
}

// ---------------------------------------------------------------------------
// Laws
// ---------------------------------------------------------------------------

/// Without arguments the crontab of the invoking user is installed, from no
/// named file and without a question.
pub proof fn law_no_arguments(args: Seq<Arg>, me: Seq<char>, root: bool)
    requires
        args.len() == 0,
    ensures
        request_of(args, me, root) matches Ok(r) && r.action is Install && r.user is None && r.file
            is None && !r.interactive,
{
}

/// Arguments are taken one after the other, and the first error counts. Each one
/// says one thing and leaves what the others say alone.
pub proof fn law_arguments_in_turn(args: Seq<Arg>, n: int, me: Seq<char>, root: bool)
    requires
        0 < n <= args.len(),
    ensures
        asked(args, n - 1, me, root) matches Err(e) ==> asked(args, n, me, root) == Err::<
            RequestModel,
            UsageError,
        >(e),
        asked(args, n - 1, me, root) matches Ok(before) ==> (asked(args, n, me, root) matches Ok(
            after,
        ) ==> match args[n - 1] {
            Arg::User(u) => after == (RequestModel { user: Some(u@), ..before }),
            Arg::File(f) => after == (RequestModel { file: Some(f@), ..before }),
            Arg::Interactive => after == (RequestModel { interactive: true, ..before }),
            Arg::List => before.action is Install && after == (RequestModel {
                action: ActionModel::List,
                ..before
            }),
            Arg::Remove => before.action is Install && after == (RequestModel {
                action: ActionModel::Remove,
                ..before
            }),
            Arg::Edit => before.action is Install && after == (RequestModel {
                action: ActionModel::Edit,
                ..before
            }),
            Arg::Test => before.action is Install && after == (RequestModel {
                action: ActionModel::Test,
                ..before
            }),
            Arg::SetHost(h) => root && before.action is Install && after == (RequestModel {
                action: ActionModel::SetHost(h@),
                ..before
            }),
            Arg::ShowHost => before.action is Install && after == (RequestModel {
                action: ActionModel::ShowHost,
                ..before
            }),
        }),
{
}

/// An argument is refused for these reasons and no others: two actions, a user or
/// a host named by somebody other than root, a user named together with an action
/// that is not about a user's crontab.
pub proof fn law_refused_arguments(before: RequestModel, arg: Arg, me: Seq<char>, root: bool)
    ensures
        ({
            let r = before.with_arg(arg@, me, root);
            let about_host = before.action is SetHost || before.action is ShowHost;
            let other = before.user matches Some(u) && u != me;
            match arg {
                Arg::User(_) => {
                    &&& !root ==> r == Err::<RequestModel, UsageError>(
                        UsageError::UserNotPrivileged,
                    )
                    &&& root && (about_host || before.action is Test) ==> r == Err::<
                        RequestModel,
                        UsageError,
                    >(UsageError::UserConflict)
                    &&& root && !about_host && !(before.action is Test) ==> r is Ok
                },
                Arg::File(_) => r is Ok,
                Arg::Interactive => r is Ok,
                Arg::SetHost(_) => {
                    &&& !root ==> r == Err::<RequestModel, UsageError>(
                        UsageError::HostNotPrivileged,
                    )
                    &&& root && !(before.action is Install) ==> r == Err::<
                        RequestModel,
                        UsageError,
                    >(UsageError::TwoActions)
                    &&& root && before.action is Install && other ==> r == Err::<
                        RequestModel,
                        UsageError,
                    >(UsageError::HostConflict)
                    &&& root && before.action is Install && !other ==> r is Ok
                },
                Arg::ShowHost => {
                    &&& !(before.action is Install) ==> r == Err::<RequestModel, UsageError>(
                        UsageError::TwoActions,
                    )
                    &&& before.action is Install && other ==> r == Err::<RequestModel, UsageError>(
                        UsageError::HostConflict,
                    )
                    &&& before.action is Install && !other ==> r is Ok
                },
                _ => {
                    &&& !(before.action is Install) ==> r == Err::<RequestModel, UsageError>(
                        UsageError::TwoActions,
                    )
                    &&& before.action is Install ==> r is Ok
                },
            }
        }),
{
}

/// A file goes with installing and testing only; otherwise what the arguments
/// say stands.
pub proof fn law_file_argument(args: Seq<Arg>, me: Seq<char>, root: bool)
    ensures
        asked(args, args.len() as int, me, root) matches Ok(r) ==> {
            &&& r.file is None || r.action is Install || r.action is Test ==> request_of(
                args,
                me,
                root,
            ) == Ok::<RequestModel, UsageError>(r)
            &&& r.file is Some && !(r.action is Install) && !(r.action is Test) ==> request_of(
                args,
                me,
                root,
            ) == Err::<RequestModel, UsageError>(UsageError::FileConflict)
        },
        asked(args, args.len() as int, me, root) matches Err(e) ==> request_of(args, me, root)
            == Err::<RequestModel, UsageError>(e),
{
}

/// A crontab is refused if and only if one of its lines is bad or it exceeds a
/// limit. It is the first bad line that is told, and bad lines come before
/// limits.
pub proof fn law_refusals(text: Seq<char>, privileged: bool, outer: crate::crontab::EnvModel)
    ensures
        ({
            let lines = crate::crontab::lines_of(text);
            let m = crate::crontab::tab_of(outer, lines, Format::User, privileged);
            let limit = crate::crontab::exceeded(lines, crate::crontab::model_commands(m.entries));
            &&& refusal_of(text, privileged, outer) is None <==> m.errors.len() == 0 && limit
                is None
            &&& m.errors.len() == 0 ==> (limit matches Some(e) ==> refusal_of(
                text,
                privileged,
                outer,
            ) == Some(RefusalModel::Limit(e)))
            &&& m.errors.len() > 0 ==> {
                &&& refusal_of(text, privileged, outer) matches Some(RefusalModel::Syntax(n, e))
                    && m.errors.contains((n, e)) && forall|i: int|
                    0 <= i < m.errors.len() ==> n <= (#[trigger] m.errors[i]).0
            }
        }),
{
    let lines = crate::crontab::lines_of(text);
    let m = crate::crontab::tab_of(outer, lines, Format::User, privileged);
    crate::crontab::law_one_report_per_line(outer, lines, Format::User, privileged);
    if m.errors.len() > 0 {
        assert(m.errors[0] == (m.errors[0].0, m.errors[0].1));
        assert(m.errors.contains(m.errors[0]));
    }
}

/// Warnings are given about the lines before the first bad one, and about all of
/// them if none is bad.
pub proof fn law_warned_lines(lines: nat, n: nat, e: crate::crontab::ErrorModel, limit: LimitError)
    requires
        1 <= n <= lines,
    ensures
        lines_read(lines, Some(RefusalModel::Syntax(n, e))) == n - 1,
        lines_read(lines, Some(RefusalModel::Limit(limit))) == lines,
        lines_read(lines, None) == lines,
{
}

/// A text is stored as it is, but for a newline behind a last line that has none.
pub proof fn law_stored_text(text: Seq<char>)
    ensures
        text.is_prefix_of(stored(text)),
        text.len() == 0 ==> stored(text).len() == 0,
        text.len() > 0 ==> stored(text).last() == '\n',
        text.len() > 0 && text.last() == '\n' ==> stored(text) == text,
        text.len() > 0 && text.last() != '\n' ==> stored(text) == text + seq!['\n'],
        stored(stored(text)) == stored(text),
{
    if text.len() > 0 && text.last() != '\n' {
        assert(text.push('\n') =~= text + seq!['\n']);
    }
}

/// An answer is taken by its first letter, whatever white space stands before it
/// and whatever follows it. No answer at all is a no.
pub proof fn law_answers(lead: Seq<char>, s: Seq<char>, end: Seq<char>)
    requires
        forall|i: int| 0 <= i < lead.len() ==> crate::text::white(#[trigger] lead[i]),
        forall|i: int| 0 <= i < end.len() ==> crate::text::white(#[trigger] end[i]),
        s.len() > 0 ==> !crate::text::white(s[0]) && !crate::text::white(s.last()),
    ensures
        answer_of(Some(lead + s + end)) == Answer::Yes <==> s.len() > 0 && (s[0] == 'y' || s[0]
            == 'Y'),
        answer_of(Some(lead + s + end)) == Answer::No <==> s.len() > 0 && (s[0] == 'n' || s[0]
            == 'N'),
        answer_of(None) == Answer::No,
{
    crate::text::law_trim(lead, s, end);
}

/// The first of `VISUAL` and `EDITOR` that is not blank is the editor, as it is
/// written, and `vi` is if neither is there.
pub proof fn law_editor(v: Seq<char>, e: Seq<char>, editor: Option<Seq<char>>)
    ensures
        crate::text::trim(v).len() > 0 ==> editor_of(Some(v), editor) == v,
        crate::text::trim(v).len() == 0 ==> editor_of(Some(v), editor) == editor_of(None, editor),
        crate::text::trim(e).len() > 0 ==> editor_of(None, Some(e)) == e,
        crate::text::trim(e).len() == 0 ==> editor_of(None, Some(e)) == "vi"@,
        editor_of(None, None) == "vi"@,
{
}

/// A host that is set is shown again, and an empty one takes the setting away.
pub proof fn law_host_comes_back(host: &str, file: Option<String>, text: &str, shown: String)
    requires
        call_ensures(host_file_text, (host,), file),
        file matches Some(t) ==> t@ == text@,
        call_ensures(shown_host, (text,), shown),
        crate::text::trim(host@) == host@,
    ensures
        file is None <==> host@.len() == 0,
        file is Some ==> shown@ == host@,
{
    law_set_host_is_shown(host@);
}

/// An edited crontab is installed if it differs from the original and nothing is
/// wrong with it; what is wrong is told, and a text that was not changed is left
/// alone, right or wrong.
pub proof fn law_edits(
    original: &str,
    edited: &str,
    privileged: bool,
    outer: Vec<(String, String)>,
    r: EditStep,
)
    requires
        call_ensures(after_edit, (original, edited, privileged, &outer), r),
    ensures
        r is Unchanged <==> edited@ == original@,
        r is Install <==> edited@ != original@ && refusal_of(
            edited@,
            privileged,
            crate::crontab::env_model(outer@),
        ) is None,
        r matches EditStep::Refused(f) ==> refusal_of(
            edited@,
            privileged,
            crate::crontab::env_model(outer@),
        ) == Some(f@),
{
}

} // verus!
