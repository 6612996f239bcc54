//! The set of crontabs currently loaded, and how to refresh it.
//!
//! The caller looks at the files and hands over what it found; the functions
//! here decide which files to consider, what their ownership and mode allow,
//! and what becomes of the loaded set.

use vstd::prelude::*;

use crate::config::{join, Config};
use crate::crontab::{Crontab, Format, LimitError, ParseError};
use crate::path_map::PathMap;
use crate::text::{chars_of, ends_with, same_str, starts_with};

verus! {

/// Identifies a specific version of a file's metadata, so a `chmod` or `chown`
/// that leaves the modification time alone is still noticed.
#[derive(Debug, Clone, Copy, PartialEq, Eq, Structural)]
pub struct MetaKey {
    pub mtime: i64,
    pub mtime_nsec: i64,
    pub ctime: i64,
    pub ctime_nsec: i64,
}

/// What the checks look at.
#[derive(Debug, Clone, Copy, PartialEq, Eq, Structural)]
pub struct FileMeta {
    pub key: MetaKey,
    pub is_file: bool,
    pub mode: u32,
    pub uid: u32,
    pub nlink: u64,
}

/// Why a file could not be opened.
#[derive(Debug, Clone, Copy, PartialEq, Eq, Structural)]
pub enum OpenFailure {
    NotFound,
    /// The path is a symbolic link.
    Loop,
    Other,
}

/// The outcome of looking up a user by name.
#[derive(Debug, Clone, Copy, PartialEq, Eq, Structural)]
pub enum Lookup {
    Found(u32),
    Missing,
    /// The user database could not be asked; it may answer later.
    Failed,
}

/// One crontab file that has been read successfully.
#[derive(Debug)]
pub struct LoadedTab {
    pub path: String,
    pub key: MetaKey,
    pub format: Format,
    /// For spool crontabs, the owning user (who runs every entry).
    pub owner: Option<String>,
    pub crontab: Crontab,
    /// Delays in minutes applied to the jobs, in the order of the entries.
    pub delays: Vec<u32>,
    /// Name used in log messages (user name or file path).
    pub label: String,
}

impl LoadedTab {
    pub open spec fn delay_of(self, entry: int) -> u32 {
        if 0 <= entry < self.delays@.len() {
            self.delays@[entry]
        } else {
            0
        }
    }

    /// Delay in minutes applied to the job at a position; none unless set.
    pub fn delay(&self, entry: usize) -> (r: u32)
        ensures
            r == self.delay_of(entry as int),
    {
        if entry < self.delays.len() {
            self.delays[entry]
        } else {
            0
        }
    }
}

// ---------------------------------------------------------------------------
// Names, ownership and modes
// ---------------------------------------------------------------------------

pub open spec fn starts_dotted(name: Seq<char>) -> bool {
    name.len() > 0 && name[0] == '.'
}

pub open spec fn is_backup(name: Seq<char>) -> bool {
    name.len() > 0 && name.last() == '~'
}

/// Is this a file of `cron.d` to be read? Hidden files, editor backups and
/// package-manager leftovers are not.
pub open spec fn drop_in_name(name: Seq<char>) -> bool {
    &&& !starts_dotted(name)
    &&& !is_backup(name)
    &&& !crate::text::has_suffix(name, ".rpmsave"@)
    &&& !crate::text::has_suffix(name, ".rpmorig"@)
    &&& !crate::text::has_suffix(name, ".rpmnew"@)
    &&& !crate::text::has_suffix(name, ".dpkg-dist"@)
    &&& !crate::text::has_suffix(name, ".dpkg-old"@)
    &&& !crate::text::has_suffix(name, ".dpkg-new"@)
    &&& !crate::text::has_suffix(name, ".pacsave"@)
    &&& !crate::text::has_suffix(name, ".pacnew"@)
    &&& !crate::text::has_suffix(name, ".orig"@)
    &&& !crate::text::has_suffix(name, ".bak"@)
}

fn ends(name: &[char], suffix: &str) -> (r: bool)
    ensures
        r == crate::text::has_suffix(name@, suffix@),
{
    let s = chars_of(suffix);
    ends_with(name, s.as_slice())
}

pub fn cron_d_name_ok(name: &str) -> (r: bool)
    ensures
        r == drop_in_name(name@),
{
    let n = chars_of(name);
    let n = n.as_slice();
    if n.len() > 0 && (n[0] == '.' || n[n.len() - 1] == '~') {
        return false;
    }
    !(ends(n, ".rpmsave") || ends(n, ".rpmorig") || ends(n, ".rpmnew") || ends(n, ".dpkg-dist")
        || ends(n, ".dpkg-old") || ends(n, ".dpkg-new") || ends(n, ".pacsave") || ends(n, ".pacnew")
        || ends(n, ".orig") || ends(n, ".bak"))
}

/// Is this a file of the spool to be read?
pub open spec fn spool_name(name: Seq<char>) -> bool {
    !starts_dotted(name) && !is_backup(name)
}

pub fn spool_name_ok(name: &str) -> (r: bool)
    ensures
        r == spool_name(name@),
{
    let n = chars_of(name);
    !(n.len() > 0 && (n[0] == '.' || n[n.len() - 1] == '~'))
}

/// Ownership, mode and regularity problems.
#[derive(Debug, Clone, Copy, PartialEq, Eq, Structural)]
pub enum SecurityError {
    NotRegular,
    WrongOwner,
    /// Writable (system crontabs) or accessible (spool files) by others.
    InsecureMode(Format),
    WrongLinkCount,
    /// The lookup needed to validate ownership failed. Not to be remembered,
    /// so that it is tried again at the next refresh.
    LookupFailed,
}

impl SecurityError {
    pub open spec fn text(self) -> Seq<char> {
        match self {
            SecurityError::NotRegular => "NOT REGULAR"@,
            SecurityError::WrongOwner => "WRONG FILE OWNER"@,
            SecurityError::InsecureMode(Format::System) => "INSECURE MODE (group/world writable)"@,
            SecurityError::InsecureMode(Format::User) => "INSECURE MODE (group/world accessible)"@,
            SecurityError::WrongLinkCount => "WRONG FILE LINK COUNT"@,
            SecurityError::LookupFailed => "CAN'T LOOKUP USER"@,
        }
    }

    /// The message for the log.
    pub fn message(&self) -> (r: String)
        ensures
            r@ == self.text(),
    {
        let s = match self {
            SecurityError::NotRegular => "NOT REGULAR",
            SecurityError::WrongOwner => "WRONG FILE OWNER",
            SecurityError::InsecureMode(Format::System) => "INSECURE MODE (group/world writable)",
            SecurityError::InsecureMode(Format::User) => "INSECURE MODE (group/world accessible)",
            SecurityError::WrongLinkCount => "WRONG FILE LINK COUNT",
            SecurityError::LookupFailed => "CAN'T LOOKUP USER",
        };
        s.to_owned()
    }
}

/// The first problem with a file, if any: system crontabs must belong to root
/// and not be writable by others; spool files must belong to root or their
/// user, have one link, and not be accessible by others.
pub open spec fn security_problem(meta: FileMeta, format: Format, owner: Lookup) -> Option<
    SecurityError,
> {
    if !meta.is_file {
        Some(SecurityError::NotRegular)
    } else {
        match format {
            Format::System => if meta.uid != 0 {
                Some(SecurityError::WrongOwner)
            } else if meta.mode & 0o022 != 0 {
                Some(SecurityError::InsecureMode(format))
            } else {
                None
            },
            Format::User => if owner == Lookup::Failed {
                Some(SecurityError::LookupFailed)
            } else if meta.uid != 0 && owner != Lookup::Found(meta.uid) {
                Some(SecurityError::WrongOwner)
            } else if meta.nlink != 1 {
                Some(SecurityError::WrongLinkCount)
            } else if meta.mode & 0o077 != 0 {
                Some(SecurityError::InsecureMode(format))
            } else {
                None
            },
        }
    }
}

pub fn check_file_security(meta: &FileMeta, format: Format, owner: Lookup) -> (r: Result<
    (),
    SecurityError,
>)
    ensures
        match security_problem(*meta, format, owner) {
            Some(e) => r == Err::<(), SecurityError>(e),
            None => r == Ok::<(), SecurityError>(()),
        },
{
    if !meta.is_file {
        return Err(SecurityError::NotRegular);
    }
    match format {
        Format::System => {
            if meta.uid != 0 {
                return Err(SecurityError::WrongOwner);
            }
            if meta.mode & 0o022 != 0 {
                return Err(SecurityError::InsecureMode(format));
            }
        },
        Format::User => {
            if owner == Lookup::Failed {
                return Err(SecurityError::LookupFailed);
            }
            if meta.uid != 0 && owner != Lookup::Found(meta.uid) {
                return Err(SecurityError::WrongOwner);
            }
            if meta.nlink != 1 {
                return Err(SecurityError::WrongLinkCount);
            }
            if meta.mode & 0o077 != 0 {
                return Err(SecurityError::InsecureMode(format));
            }
        },
    }
    Ok(())
}

/// Is it safe to read spool crontabs from a directory with this mode? It must
/// not be writable by others unless the sticky bit is set. `None` stands for
/// a directory that cannot be looked at.
pub open spec fn spool_mode_ok(permissive: bool, mode: Option<u32>) -> bool {
    match mode {
        Some(m) => permissive || m & 0o022 == 0 || m & 0o1000 != 0,
        None => true,
    }
}

pub fn spool_dir_secure(permissive: bool, mode: Option<u32>) -> (r: bool)
    ensures
        r == spool_mode_ok(permissive, mode),
{
    match mode {
        Some(m) => permissive || m & 0o022 == 0 || m & 0o1000 != 0,
        None => true,
    }
}

// ---------------------------------------------------------------------------
// Considering one file
// ---------------------------------------------------------------------------

/// All loaded crontabs, by path.
#[derive(Debug)]
pub struct Database {
    cfg: Config,
    permissive: bool,
    /// Files that failed to load, with the metadata they failed at, so errors
    /// are logged once per version of the file.
    bad: PathMap<MetaKey>,
    /// Spool files with no user, with the metadata that was last logged.
    /// Unlike `bad`, these are tried again at every refresh.
    orphan_logged: PathMap<MetaKey>,
    tabs: PathMap<LoadedTab>,
}

pub struct DbModel {
    pub tabs: Map<Seq<char>, LoadedTab>,
    pub bad: Map<Seq<char>, MetaKey>,
    pub orphans: Map<Seq<char>, MetaKey>,
}

/// Something to log about a file.
#[derive(Debug)]
pub enum Report {
    Nothing,
    NotRegular,
    CantStat,
    Security(SecurityError),
    CantLookup,
    Orphan,
    CantOpen,
    /// Loaded, but for the lines with these errors.
    Load(Vec<ParseError>),
    Reload(Vec<ParseError>),
    /// Not loaded: nothing in it is good.
    BadCrontab(Vec<ParseError>),
    OverLimit(LimitError, Vec<ParseError>),
}

/// What became of a file: whether the loaded set changed, and what to log.
#[derive(Debug)]
pub struct Outcome {
    pub changed: bool,
    pub report: Report,
}

/// What to do with an opened file.
#[derive(Debug)]
pub enum Examined {
    /// Nothing: this version is loaded, or known to be bad.
    Current,
    /// Nothing more: it did not pass the checks.
    Refused(Outcome),
    /// Read it.
    Read,
}

/// A file to be considered.
#[derive(Debug)]
pub struct Candidate {
    pub path: String,
    pub format: Format,
    pub owner: Option<String>,
    pub label: String,
}

pub struct CandidateModel {
    pub path: Seq<char>,
    pub format: Format,
    pub owner: Option<Seq<char>>,
    pub label: Seq<char>,
}

impl Candidate {
    pub open spec fn view(&self) -> CandidateModel {
        CandidateModel {
            path: self.path@,
            format: self.format,
            owner: crate::crontab::text_model(self.owner),
            label: self.label@,
        }
    }
}

/// What becomes of the loaded set when the text of a file was read: `m` is what
/// its lines say.
pub open spec fn text_taken(
    before: DbModel,
    after: DbModel,
    c: CandidateModel,
    key: MetaKey,
    m: crate::crontab::TabModel,
    lines: Seq<crate::crontab::Line>,
    r: Outcome,
) -> bool {
    let limit = crate::crontab::exceeded(lines, crate::crontab::model_commands(m.entries));
    if c.format == Format::User && limit is Some {
        &&& r.changed == before.tabs.contains_key(c.path)
        &&& r.report matches Report::OverLimit(e, errors) && limit == Some(e)
            && crate::crontab::errors_model(errors@) == m.errors
        &&& after == before.reject(c.path, key)
    } else if m.errors.len() > 0 && m.entries.len() == 0 {
        &&& r.changed == before.tabs.contains_key(c.path)
        &&& r.report matches Report::BadCrontab(errors) && crate::crontab::errors_model(errors@)
            == m.errors
        &&& after == before.reject(c.path, key)
    } else {
        &&& r.changed
        &&& if before.tabs.contains_key(c.path) {
            r.report matches Report::Reload(errors) && crate::crontab::errors_model(errors@)
                == m.errors
        } else {
            r.report matches Report::Load(errors) && crate::crontab::errors_model(errors@)
                == m.errors
        }
        &&& after.tabs.contains_key(c.path)
        &&& after.tabs.remove(c.path) == before.tabs.remove(c.path)
        &&& after.bad == before.bad.remove(c.path)
        &&& after.orphans == before.orphans
        &&& after.tabs[c.path].path@ == c.path
        &&& after.tabs[c.path].key == key
        &&& after.tabs[c.path].format == c.format
        &&& crate::crontab::text_model(after.tabs[c.path].owner) == c.owner
        &&& after.tabs[c.path].label@ == c.label
        &&& after.tabs[c.path].delays@.len() == 0
        &&& after.tabs[c.path].crontab.fits(m)
    }
}

impl DbModel {
    pub open spec fn unload(self, path: Seq<char>) -> DbModel {
        DbModel { tabs: self.tabs.remove(path), ..self }
    }

    /// With other delays for the jobs of a loaded tab.
    pub open spec fn with_delays(self, path: Seq<char>, delays: Vec<u32>) -> DbModel {
        if self.tabs.contains_key(path) {
            DbModel {
                tabs: self.tabs.insert(path, LoadedTab { delays, ..self.tabs[path] }),
                ..self
            }
        } else {
            self
        }
    }

    /// Is this version of the file loaded, or known to be bad?
    pub open spec fn current(self, path: Seq<char>, key: MetaKey) -> bool {
        ||| self.tabs.contains_key(path) && self.tabs[path].key == key
        ||| self.known_bad(path, key)
    }

    /// Unloaded, and remembered as bad in this version.
    pub open spec fn reject(self, path: Seq<char>, key: MetaKey) -> DbModel {
        DbModel { tabs: self.tabs.remove(path), bad: self.bad.insert(path, key), ..self }
    }

    /// After a failure to open a file. One that is missing, or failed before in
    /// the same way, is only unloaded.
    pub open spec fn fail_open(self, path: Seq<char>, failure: OpenFailure, key: MetaKey) -> DbModel {
        if failure == OpenFailure::NotFound || self.known_bad(path, key) {
            self.unload(path)
        } else {
            self.reject(path, key)
        }
    }

    /// Is this version of the file known to be bad?
    pub open spec fn known_bad(self, path: Seq<char>, key: MetaKey) -> bool {
        self.bad.contains_key(path) && self.bad[path] == key
    }

    /// A file that failed in one version is not loaded, and every tab is kept
    /// under its own path.
    pub open spec fn wf(self) -> bool {
        &&& forall|p: Seq<char>| #[trigger] self.bad.contains_key(p) ==> !self.tabs.contains_key(p)
        &&& forall|p: Seq<char>| #[trigger]
            self.tabs.contains_key(p) ==> self.tabs[p].path@ == p
    }

    /// After the checks of a file: the new state, what to log, and whether the
    /// file is to be read.
    pub open spec fn check(
        self,
        permissive: bool,
        path: Seq<char>,
        format: Format,
        has_owner: bool,
        meta: FileMeta,
        lookup: Lookup,
    ) -> (DbModel, Report, bool) {
        let problem = if permissive {
            None
        } else {
            security_problem(meta, format, lookup)
        };
        match problem {
            Some(SecurityError::LookupFailed) => (self, Report::CantLookup, false),
            Some(e) => (self.reject(path, meta.key), Report::Security(e), false),
            None => if !has_owner {
                (self, Report::Nothing, true)
            } else {
                match lookup {
                    Lookup::Found(_) => (
                        DbModel { orphans: self.orphans.remove(path), ..self },
                        Report::Nothing,
                        true,
                    ),
                    Lookup::Missing => if self.orphans.contains_key(path) && self.orphans[path]
                        == meta.key {
                        (self.unload(path), Report::Nothing, false)
                    } else {
                        (
                            DbModel {
                                orphans: self.orphans.insert(path, meta.key),
                                ..self.unload(path)
                            },
                            Report::Orphan,
                            false,
                        )
                    },
                    Lookup::Failed => (self, Report::CantLookup, false),
                }
            },
        }
    }
}

/// Unloading and rejecting a file keep the loaded and the bad files apart.
pub proof fn law_rejected_files_are_not_loaded(m: DbModel, path: Seq<char>, key: MetaKey)
    requires
        m.wf(),
    ensures
        m.unload(path).wf(),
        m.reject(path, key).wf(),
        !m.reject(path, key).tabs.contains_key(path),
{
    let u = m.unload(path);
    assert forall|p: Seq<char>| #[trigger] u.bad.contains_key(p) implies !u.tabs.contains_key(
        p,
    ) by {
        assert(m.bad.contains_key(p));
    }
    assert forall|p: Seq<char>| #[trigger] u.tabs.contains_key(p) implies u.tabs[p].path@ == p by {
        assert(m.tabs.contains_key(p));
    }
    let r = m.reject(path, key);
    assert forall|p: Seq<char>| #[trigger] r.bad.contains_key(p) implies !r.tabs.contains_key(
        p,
    ) by {
        if p != path {
            assert(m.bad.contains_key(p));
        }
    }
    assert forall|p: Seq<char>| #[trigger] r.tabs.contains_key(p) implies r.tabs[p].path@ == p by {
        assert(m.tabs.contains_key(p));
    }
}

impl Database {
    pub closed spec fn view(&self) -> DbModel {
        DbModel { tabs: self.tabs@, bad: self.bad@, orphans: self.orphan_logged@ }
    }

    pub closed spec fn wf(&self) -> bool {
        self@.wf()
    }

    pub closed spec fn cfg(&self) -> Config {
        self.cfg
    }

    pub closed spec fn permits_any(&self) -> bool {
        self.permissive
    }

    /// The loaded tabs in the order of their paths.
    pub closed spec fn listed(&self) -> Seq<(String, LoadedTab)> {
        self.tabs.listed()
    }

    /// Nothing but the loaded set and what is remembered about files differs.
    pub open spec fn same_setup(&self, other: &Database) -> bool {
        self.cfg() == other.cfg() && self.permits_any() == other.permits_any()
    }

    pub fn new(cfg: Config, permissive: bool) -> (r: Database)
        ensures
            r.wf(),
            r.cfg() == cfg,
            r.permits_any() == permissive,
            r@.tabs == Map::<Seq<char>, LoadedTab>::empty(),
            r@.bad == Map::<Seq<char>, MetaKey>::empty(),
            r@.orphans == Map::<Seq<char>, MetaKey>::empty(),
    {
        Database {
            cfg,
            permissive,
            bad: PathMap::new(),
            orphan_logged: PathMap::new(),
            tabs: PathMap::new(),
        }
    }

    /// Drop all cached state so the next refresh reloads every file.
    pub fn forget_all(&mut self)
        ensures
            final(self).wf(),
            final(self).same_setup(old(self)),
            final(self)@.tabs == Map::<Seq<char>, LoadedTab>::empty(),
            final(self)@.bad == Map::<Seq<char>, MetaKey>::empty(),
            final(self)@.orphans == Map::<Seq<char>, MetaKey>::empty(),
    {
        self.tabs = PathMap::new();
        self.bad = PathMap::new();
        self.orphan_logged = PathMap::new();
    }

    pub fn config(&self) -> (r: &Config)
        ensures
            *r == self.cfg(),
    {
        &self.cfg
    }

    pub fn is_permissive(&self) -> (r: bool)
        ensures
            r == self.permits_any(),
    {
        self.permissive
    }

    /// Number of loaded tabs.
    pub fn tab_count(&self) -> (r: usize)
        ensures
            r == self.listed().len(),
            crate::path_map::in_order(self.listed()),
    {
        self.tabs.len()
    }

    /// The loaded tab at a position of the order.
    pub fn tab(&self, i: usize) -> (r: &LoadedTab)
        requires
            i < self.listed().len(),
        ensures
            *r == self.listed()[i as int].1,
    {
        &self.tabs.nth(i).1
    }

    /// The tab loaded from a path.
    pub fn tab_at(&self, path: &str) -> (r: Option<&LoadedTab>)
        ensures
            match r {
                Some(t) => self@.tabs.contains_key(path@) && *t == self@.tabs[path@],
                None => !self@.tabs.contains_key(path@),
            },
    {
        self.tabs.get(path)
    }

    fn unload(&mut self, path: &str) -> (r: bool)
        requires
            old(self).wf(),
        ensures
            final(self).wf(),
            final(self).same_setup(old(self)),
            final(self)@ == old(self)@.unload(path@),
            r == old(self)@.tabs.contains_key(path@),
    {
        proof {
            law_rejected_files_are_not_loaded(self@, path@, arbitrary());
        }
        self.tabs.remove(path).is_some()
    }

    fn reject(&mut self, path: &str, key: MetaKey) -> (r: bool)
        requires
            old(self).wf(),
        ensures
            final(self).wf(),
            final(self).same_setup(old(self)),
            final(self)@ == old(self)@.reject(path@, key),
            r == old(self)@.tabs.contains_key(path@),
    {
        proof {
            law_rejected_files_are_not_loaded(self@, path@, key);
        }
        self.bad.insert(path.to_owned(), key);
        self.tabs.remove(path).is_some()
    }

    /// A file could not be opened. `key` is what could be learnt of the path
    /// itself, so that a link which fails again is not logged again.
    pub fn open_failed(&mut self, path: &str, failure: OpenFailure, key: MetaKey) -> (r: Outcome)
        requires
            old(self).wf(),
        ensures
            final(self).wf(),
            final(self).same_setup(old(self)),
            r.changed == old(self)@.tabs.contains_key(path@),
            final(self)@ == old(self)@.fail_open(path@, failure, key),
            if failure == OpenFailure::NotFound || old(self)@.known_bad(path@, key) {
                r.report is Nothing
            } else if failure == OpenFailure::Loop {
                r.report is NotRegular
            } else {
                r.report is CantStat
            },
            !final(self)@.tabs.contains_key(path@),
            forall|p: Seq<char>|
                p != path@ ==> #[trigger] same_about(old(self)@, final(self)@, p),
    {
        if failure == OpenFailure::NotFound {
            return Outcome { changed: self.unload(path), report: Report::Nothing };
        }
        if let Some(k) = self.bad.get(path) {
            if *k == key {
                return Outcome { changed: self.unload(path), report: Report::Nothing };
            }
        }
        let changed = self.reject(path, key);
        if failure == OpenFailure::Loop {
            Outcome { changed, report: Report::NotRegular }
        } else {
            Outcome { changed, report: Report::CantStat }
        }
    }

    /// An opened file could not be examined.
    pub fn stat_failed(&mut self, path: &str) -> (r: Outcome)
        requires
            old(self).wf(),
        ensures
            final(self).wf(),
            final(self).same_setup(old(self)),
            final(self)@ == old(self)@.unload(path@),
            r.changed == old(self)@.tabs.contains_key(path@),
            r.report is CantStat,
            !final(self)@.tabs.contains_key(path@),
            final(self)@.bad == old(self)@.bad,
            forall|p: Seq<char>|
                p != path@ ==> #[trigger] same_about(old(self)@, final(self)@, p),
    {
        Outcome { changed: self.unload(path), report: Report::CantStat }
    }

    /// Is this version of the file loaded, or known to be bad?
    pub fn is_current(&self, path: &str, key: MetaKey) -> (r: bool)
        ensures
            r == self@.current(path@, key),
    {
        if let Some(t) = self.tabs.get(path) {
            if t.key == key {
                return true;
            }
        }
        if let Some(k) = self.bad.get(path) {
            return *k == key;
        }
        false
    }

    /// Decides about an opened file: nothing is to be done if it is current, and
    /// otherwise the checks come first. Nothing is said of a current file, so
    /// that its problems are logged once for every version.
    pub fn examine(
        &mut self,
        path: &str,
        format: Format,
        has_owner: bool,
        meta: &FileMeta,
        lookup: Lookup,
    ) -> (r: Examined)
        requires
            old(self).wf(),
        ensures
            final(self).wf(),
            final(self).same_setup(old(self)),
            if old(self)@.current(path@, meta.key) {
                *final(self) == *old(self) && r is Current
            } else {
                let (state, report, read) = old(self)@.check(
                    old(self).permits_any(),
                    path@,
                    format,
                    has_owner,
                    *meta,
                    lookup,
                );
                &&& final(self)@ == state
                &&& if read {
                    r is Read
                } else {
                    r matches Examined::Refused(o) && o.report == report && o.changed == (
                    old(self)@.tabs.contains_key(path@) && !state.tabs.contains_key(path@))
                }
            },
            r is Read ==> final(self)@.tabs == old(self)@.tabs && !(old(self)@.tabs.contains_key(path@)
                && old(self)@.tabs[path@].key == meta.key),
            r matches Examined::Refused(o) ==> (o.changed <==> old(self)@.tabs.contains_key(path@)
                && !final(self)@.tabs.contains_key(path@)),
            forall|p: Seq<char>|
                p != path@ ==> #[trigger] same_about(old(self)@, final(self)@, p),
    {
        if self.is_current(path, meta.key) {
            return Examined::Current;
        }
        match self.check(path, format, has_owner, meta, lookup) {
            Some(o) => Examined::Refused(o),
            None => Examined::Read,
        }
    }

    /// Checks a file that is not current. `None` means that it is to be read;
    /// `lookup` is the outcome of looking up its owner, which only spool
    /// files have.
    fn check(
        &mut self,
        path: &str,
        format: Format,
        has_owner: bool,
        meta: &FileMeta,
        lookup: Lookup,
    ) -> (r: Option<Outcome>)
        requires
            old(self).wf(),
        ensures
            final(self).wf(),
            final(self).same_setup(old(self)),
            ({
                let (state, report, read) = old(self)@.check(
                    old(self).permits_any(),
                    path@,
                    format,
                    has_owner,
                    *meta,
                    lookup,
                );
                &&& final(self)@ == state
                &&& read == (r is None)
                &&& r matches Some(o) ==> o.report == report && o.changed == (
                old(self)@.tabs.contains_key(path@) && !state.tabs.contains_key(path@))
            }),
    {
        if !self.permissive {
            match check_file_security(meta, format, lookup) {
                Ok(()) => {},
                Err(SecurityError::LookupFailed) => {
                    return Some(Outcome { changed: false, report: Report::CantLookup });
                },
                Err(reason) => {
                    let changed = self.reject(path, meta.key);
                    return Some(Outcome { changed, report: Report::Security(reason) });
                },
            }
        }
        if !has_owner {
            return None;
        }
        match lookup {
            Lookup::Found(_) => {
                self.orphan_logged.remove(path);
                None
            },
            Lookup::Missing => {
                let known = match self.orphan_logged.get(path) {
                    Some(k) => *k == meta.key,
                    None => false,
                };
                if !known {
                    self.orphan_logged.insert(path.to_owned(), meta.key);
                }
                let changed = self.unload(path);
                Some(
                    Outcome {
                        changed,
                        report: if known {
                            Report::Nothing
                        } else {
                            Report::Orphan
                        },
                    },
                )
            },
            Lookup::Failed => Some(Outcome { changed: false, report: Report::CantLookup }),
        }
    }

    /// A file could not be read.
    pub fn read_failed(&mut self, path: &str, key: MetaKey) -> (r: Outcome)
        requires
            old(self).wf(),
        ensures
            final(self).wf(),
            final(self).same_setup(old(self)),
            final(self)@ == old(self)@.reject(path@, key),
            r.changed == old(self)@.tabs.contains_key(path@),
            r.report is CantOpen,
            !final(self)@.tabs.contains_key(path@),
            final(self)@.bad.contains_pair(path@, key),
            forall|p: Seq<char>|
                p != path@ ==> #[trigger] same_about(old(self)@, final(self)@, p),
    {
        Outcome { changed: self.reject(path, key), report: Report::CantOpen }
    }

    /// A file was read. It is loaded, without its bad lines, unless all of it is
    /// bad; a user's one must not exceed the limits either. Otherwise it is
    /// remembered as bad. `privileged` says that it belongs to root, and
    /// `outer` is the environment of the daemon.
    pub fn text_read(
        &mut self,
        path: &str,
        format: Format,
        owner: Option<String>,
        label: String,
        key: MetaKey,
        privileged: bool,
        outer: &Vec<(String, String)>,
        text: &str,
    ) -> (r: Outcome)
        requires
            old(self).wf(),
        ensures
            final(self).wf(),
            final(self).same_setup(old(self)),
            text_taken(
                old(self)@,
                final(self)@,
                (CandidateModel {
                    path: path@,
                    format,
                    owner: crate::crontab::text_model(owner),
                    label: label@,
                }),
                key,
                crate::crontab::tab_of(
                    crate::crontab::env_model(outer@),
                    crate::crontab::lines_of(text@),
                    format,
                    privileged,
                ),
                crate::crontab::lines_of(text@),
                r,
            ),
            final(self)@.tabs.contains_key(path@) <==> r.report is Load || r.report is Reload,
            final(self)@.tabs.contains_key(path@) ==> final(self)@.tabs[path@].key == key,
            !final(self)@.tabs.contains_key(path@) ==> final(self)@.bad.contains_pair(path@, key),
            forall|p: Seq<char>|
                p != path@ ==> #[trigger] same_about(old(self)@, final(self)@, p),
    {
        let parsed = Crontab::parse_lines(text, format, privileged, outer);
        let ghost m = crate::crontab::tab_of(
            crate::crontab::env_model(outer@),
            crate::crontab::lines_of(text@),
            format,
            privileged,
        );
        let crontab = parsed.crontab;
        let errors = parsed.errors;
        proof {
            assert(crate::crontab::commands_of(crontab.entries@)
                =~= crate::crontab::model_commands(m.entries));
            assert(crate::crontab::errors_model(errors@).len() == errors@.len());
        }
        if format == Format::User {
            if let Some(e) = crontab.over_limit(text) {
                let changed = self.reject(path, key);
                return Outcome { changed, report: Report::OverLimit(e, errors) };
            }
        }
        if errors.len() > 0 && crontab.entries.len() == 0 {
            let changed = self.reject(path, key);
            return Outcome { changed, report: Report::BadCrontab(errors) };
        }
        let report = if self.tabs.contains(path) {
            Report::Reload(errors)
        } else {
            Report::Load(errors)
        };
        self.bad.remove(path);
        let tab = LoadedTab {
            path: path.to_owned(),
            key,
            format,
            owner,
            crontab,
            delays: Vec::new(),
            label,
        };
        self.tabs.insert(path.to_owned(), tab);
        proof {
            let before = old(self)@;
            let after = self@;
            assert(after.tabs.remove(path@) =~= before.tabs.remove(path@));
            assert forall|p: Seq<char>| #[trigger] after.bad.contains_key(
                p,
            ) implies !after.tabs.contains_key(p) by {
                assert(before.bad.contains_key(p));
            }
            assert forall|p: Seq<char>| #[trigger] after.tabs.contains_key(
                p,
            ) implies after.tabs[p].path@ == p by {
                if p != path@ {
                    assert(before.tabs.contains_key(p));
                }
            }
        }
        Outcome { changed: true, report }
    }

    /// Sets the delays of the jobs of a loaded tab.
    pub fn set_delays(&mut self, path: &str, delays: Vec<u32>)
        requires
            old(self).wf(),
        ensures
            final(self).wf(),
            final(self).same_setup(old(self)),
            final(self)@ == old(self)@.with_delays(path@, delays),
            final(self)@.tabs.dom() == old(self)@.tabs.dom(),
            old(self)@.tabs.contains_key(path@) ==> final(self)@.tabs[path@].delays == delays,
            forall|p: Seq<char>|
                p != path@ ==> #[trigger] same_about(old(self)@, final(self)@, p),
    {
        match self.tabs.remove(path) {
            Some(t) => {
                let tab = LoadedTab {
                    path: t.path,
                    key: t.key,
                    format: t.format,
                    owner: t.owner,
                    crontab: t.crontab,
                    delays,
                    label: t.label,
                };
                self.tabs.insert(path.to_owned(), tab);
                proof {
                    let before = old(self)@;
                    assert(self@.tabs =~= before.tabs.insert(path@, tab));
                    assert forall|p: Seq<char>| #[trigger] self@.tabs.contains_key(
                        p,
                    ) implies self@.tabs[p].path@ == p by {
                        assert(before.tabs.contains_key(p));
                    }
                    assert forall|p: Seq<char>| #[trigger] self@.bad.contains_key(
                        p,
                    ) implies !self@.tabs.contains_key(p) by {
                        assert(before.bad.contains_key(p));
                    }
                }
            },
            None => {
                assert(self@.tabs =~= old(self)@.tabs);
            },
        }
    }
}

// ---------------------------------------------------------------------------
// Refreshing
// ---------------------------------------------------------------------------

/// The names in a directory.
#[derive(Debug)]
pub enum Listing {
    Names(Vec<String>),
    Missing,
    /// The directory exists but cannot be read.
    Failed,
}

pub open spec fn candidates_model(list: Seq<Candidate>) -> Seq<CandidateModel> {
    list.map_values(|c: Candidate| c@)
}

/// A drop-in crontab.
pub open spec fn drop_in(dir: Seq<char>, name: Seq<char>) -> CandidateModel {
    CandidateModel {
        path: crate::config::joined(dir, name),
        format: Format::System,
        owner: None,
        label: "*system*"@ + name,
    }
}

/// A user's crontab.
pub open spec fn spool_file(dir: Seq<char>, name: Seq<char>) -> CandidateModel {
    CandidateModel {
        path: crate::config::joined(dir, name),
        format: Format::User,
        owner: Some(name),
        label: name,
    }
}

/// The system crontab.
pub open spec fn system_file(path: Seq<char>) -> CandidateModel {
    CandidateModel { path, format: Format::System, owner: None, label: "*system*"@ }
}

pub open spec fn drop_ins(dir: Seq<char>, names: Seq<String>) -> Seq<CandidateModel>
    decreases names.len(),
{
    if names.len() == 0 {
        seq![]
    } else if drop_in_name(names.last()@) {
        drop_ins(dir, names.drop_last()).push(drop_in(dir, names.last()@))
    } else {
        drop_ins(dir, names.drop_last())
    }
}

pub open spec fn spool_files(dir: Seq<char>, names: Seq<String>) -> Seq<CandidateModel>
    decreases names.len(),
{
    if names.len() == 0 {
        seq![]
    } else if spool_name(names.last()@) {
        spool_files(dir, names.drop_last()).push(spool_file(dir, names.last()@))
    } else {
        spool_files(dir, names.drop_last())
    }
}

/// The files to consider: the system crontab if it is there, the drop-ins,
/// and the users' crontabs if their directory is safe, in this order.
pub open spec fn plan_of(
    cfg: Config,
    system_present: bool,
    cron_d: Listing,
    spool_secure: bool,
    spool: Listing,
) -> Seq<CandidateModel> {
    let first = if system_present {
        seq![system_file(cfg.system_crontab@)]
    } else {
        seq![]
    };
    let second = match cron_d {
        Listing::Names(names) => drop_ins(cfg.cron_d_dir@, names@),
        _ => seq![],
    };
    let third = match spool {
        Listing::Names(names) if spool_secure => spool_files(cfg.spool_dir@, names@),
        _ => seq![],
    };
    first + second + third
}

/// Does the path lie in the directory?
pub open spec fn lies_in(dir: Seq<char>, path: Seq<char>) -> bool {
    path == dir || crate::text::has_prefix(path, crate::config::joined(dir, seq![]))
}

fn is_under(dir: &str, path: &str) -> (r: bool)
    ensures
        r == lies_in(dir@, path@),
{
    let base = join(dir, "");
    proof {
        reveal_strlit("");
        assert(""@ =~= seq![]);
    }
    let b = chars_of(base.as_str());
    let p = chars_of(path);
    same_str(path, dir) || starts_with(p.as_slice(), b.as_slice())
}

/// Does the path lie in a directory that could not be looked into?
pub open spec fn hidden(cfg: Config, cron_d_blind: bool, spool_blind: bool, path: Seq<char>) -> bool {
    cron_d_blind && lies_in(cfg.cron_d_dir@, path) || spool_blind && lies_in(cfg.spool_dir@, path)
}

/// The paths that count as present after a scan: those of the files to
/// consider, and those of loaded tabs in a directory that could not be read
/// or is not safe to read.
pub open spec fn is_seen(
    cfg: Config,
    plan: Seq<CandidateModel>,
    cron_d_blind: bool,
    spool_blind: bool,
    loaded: Map<Seq<char>, LoadedTab>,
    path: Seq<char>,
) -> bool {
    ||| exists|i: int| 0 <= i < plan.len() && (#[trigger] plan[i]).path == path
    ||| loaded.contains_key(path) && hidden(cfg, cron_d_blind, spool_blind, path)
}

impl Database {
    /// The files to consider, given what the scan found.
    pub fn plan_refresh(
        &self,
        system_present: bool,
        cron_d: &Listing,
        spool_secure: bool,
        spool: &Listing,
    ) -> (r: Vec<Candidate>)
        ensures
            candidates_model(r@) == plan_of(
                self.cfg(),
                system_present,
                *cron_d,
                spool_secure,
                *spool,
            ),
    {
        let mut out: Vec<Candidate> = Vec::new();
        let ghost first = if system_present {
            seq![system_file(self.cfg.system_crontab@)]
        } else {
            seq![]
        };
        if system_present {
            out.push(
                Candidate {
                    path: self.cfg.system_crontab.clone(),
                    format: Format::System,
                    owner: None,
                    label: "*system*".to_owned(),
                },
            );
        }
        assert(candidates_model(out@) =~= first);
        let ghost second = match cron_d {
            Listing::Names(names) => drop_ins(self.cfg.cron_d_dir@, names@),
            _ => seq![],
        };
        assert(first + Seq::<CandidateModel>::empty() =~= first);
        if let Listing::Names(names) = cron_d {
            let mut i: usize = 0;
            while i < names.len()
                invariant
                    i <= names@.len(),
                    candidates_model(out@) == first + drop_ins(
                        self.cfg.cron_d_dir@,
                        names@.take(i as int),
                    ),
                decreases names@.len() - i,
            {
                let ghost done = drop_ins(self.cfg.cron_d_dir@, names@.take(i as int));
                let ghost before = out@;
                assert(names@.take(i + 1).drop_last() =~= names@.take(i as int));
                assert(names@.take(i + 1).last() == names@[i as int]);
                if cron_d_name_ok(names[i].as_str()) {
                    let mut label = "*system*".to_owned();
                    label.append(names[i].as_str());
                    out.push(
                        Candidate {
                            path: join(self.cfg.cron_d_dir.as_str(), names[i].as_str()),
                            format: Format::System,
                            owner: None,
                            label,
                        },
                    );
                    assert(candidates_model(out@) =~= candidates_model(before).push(
                        drop_in(self.cfg.cron_d_dir@, names@[i as int]@),
                    ));
                    assert((first + done).push(drop_in(self.cfg.cron_d_dir@, names@[i as int]@))
                        =~= first + done.push(drop_in(self.cfg.cron_d_dir@, names@[i as int]@)));
                }
                i += 1;
            }
            assert(names@.take(names@.len() as int) =~= names@);
        }
        assert(candidates_model(out@) == first + second);
        let ghost third = match spool {
            Listing::Names(names) if spool_secure => spool_files(self.cfg.spool_dir@, names@),
            _ => seq![],
        };
        assert((first + second) + Seq::<CandidateModel>::empty() =~= first + second);
        if let Listing::Names(names) = spool {
            let mut i: usize = 0;
            while spool_secure && i < names.len()
                invariant
                    i <= names@.len(),
                    !spool_secure ==> i == 0,
                    candidates_model(out@) == (first + second) + spool_files(
                        self.cfg.spool_dir@,
                        names@.take(i as int),
                    ),
                decreases names@.len() - i,
            {
                let ghost done = spool_files(self.cfg.spool_dir@, names@.take(i as int));
                let ghost before = out@;
                assert(names@.take(i + 1).drop_last() =~= names@.take(i as int));
                assert(names@.take(i + 1).last() == names@[i as int]);
                if spool_name_ok(names[i].as_str()) {
                    out.push(
                        Candidate {
                            path: join(self.cfg.spool_dir.as_str(), names[i].as_str()),
                            format: Format::User,
                            owner: Some(names[i].clone()),
                            label: names[i].clone(),
                        },
                    );
                    assert(candidates_model(out@) =~= candidates_model(before).push(
                        spool_file(self.cfg.spool_dir@, names@[i as int]@),
                    ));
                    assert(((first + second) + done).push(
                        spool_file(self.cfg.spool_dir@, names@[i as int]@),
                    ) =~= (first + second) + done.push(
                        spool_file(self.cfg.spool_dir@, names@[i as int]@),
                    ));
                }
                i += 1;
            }
            if spool_secure {
                assert(names@.take(names@.len() as int) =~= names@);
            }
        }
        assert(candidates_model(out@) == (first + second) + third);
        out
    }

    /// The paths that count as present after a scan that led to `plan`.
    pub fn seen_paths(&self, plan: &Vec<Candidate>, cron_d_blind: bool, spool_blind: bool) -> (r:
        Vec<String>)
        requires
            self.wf(),
        ensures
            forall|p: Seq<char>| #[trigger]
                crate::path_map::on_list(r@, p) == is_seen(
                    self.cfg(),
                    candidates_model(plan@),
                    cron_d_blind,
                    spool_blind,
                    self@.tabs,
                    p,
                ),
    {
        let ghost model = candidates_model(plan@);
        let mut out: Vec<String> = Vec::new();
        let mut i: usize = 0;
        while i < plan.len()
            invariant
                i <= plan@.len(),
                model == candidates_model(plan@),
                out@.len() == i,
                forall|j: int| 0 <= j < i ==> (#[trigger] out@[j])@ == model[j].path,
            decreases plan@.len() - i,
        {
            out.push(plan[i].path.clone());
            i += 1;
        }
        let ghost base = out@;
        let n = self.tabs.len();
        let ghost all = self.tabs.listed();
        let mut k: usize = 0;
        proof {
            self.tabs.lemma_listed();
        }
        while k < n
            invariant
                k <= n == all.len(),
                all == self.tabs.listed(),
                base.len() <= out@.len(),
                forall|j: int| 0 <= j < base.len() ==> #[trigger] out@[j] == base[j],
                forall|j: int|
                    base.len() <= j < out@.len() ==> self.tabs@.contains_key(
                        (#[trigger] out@[j])@,
                    ) && hidden(self.cfg, cron_d_blind, spool_blind, out@[j]@),
                forall|l: int|
                    0 <= l < k && hidden(
                        self.cfg,
                        cron_d_blind,
                        spool_blind,
                        (#[trigger] all[l]).0@,
                    ) ==> crate::path_map::on_list(out@, all[l].0@),
                forall|l: int|
                    0 <= l < all.len() ==> self.tabs@.contains_key((#[trigger] all[l]).0@),
            decreases n - k,
        {
            let entry = self.tabs.nth(k);
            let path = entry.0.as_str();
            let keep = (cron_d_blind && is_under(self.cfg.cron_d_dir.as_str(), path)) || (
            spool_blind && is_under(self.cfg.spool_dir.as_str(), path));
            let ghost before = out@;
            if keep {
                out.push(entry.0.clone());
                assert(out@[before.len() as int]@ == all[k as int].0@);
                assert forall|l: int|
                    0 <= l < k + 1 && hidden(
                        self.cfg,
                        cron_d_blind,
                        spool_blind,
                        (#[trigger] all[l]).0@,
                    ) implies crate::path_map::on_list(out@, all[l].0@) by {
                    if l < k {
                        let j = choose|j: int|
                            0 <= j < before.len() && (#[trigger] before[j])@ == all[l].0@;
                        assert(out@[j] == before[j]);
                    }
                }
            }
            k += 1;
        }
        proof {
            assert forall|p: Seq<char>| #[trigger]
                crate::path_map::on_list(out@, p) == is_seen(
                    self.cfg(),
                    model,
                    cron_d_blind,
                    spool_blind,
                    self@.tabs,
                    p,
                ) by {
                if crate::path_map::on_list(out@, p) {
                    let j = choose|j: int| 0 <= j < out@.len() && (#[trigger] out@[j])@ == p;
                    if j < base.len() {
                        assert(base[j]@ == model[j].path);
                        assert(model[j].path == p);
                    }
                }
                if exists|i: int| 0 <= i < model.len() && (#[trigger] model[i]).path == p {
                    let i = choose|i: int| 0 <= i < model.len() && (#[trigger] model[i]).path == p;
                    assert(base[i]@ == p);
                    assert(out@[i]@ == p);
                }
                if self.tabs@.contains_key(p) && hidden(self.cfg, cron_d_blind, spool_blind, p) {
                    assert(crate::path_map::has_path(all, p));
                    let l = choose|l: int| 0 <= l < all.len() && (#[trigger] all[l]).0@ == p;
                    assert(crate::path_map::on_list(out@, all[l].0@));
                }
            }
        }
        out
    }

    /// Drops everything about paths that were not seen; returns the tabs that
    /// were unloaded.
    pub fn unload_missing(&mut self, seen: &Vec<String>) -> (r: Vec<(String, LoadedTab)>)
        requires
            old(self).wf(),
        ensures
            final(self).wf(),
            final(self).same_setup(old(self)),
            ({
                let keep = crate::path_map::paths(seen@);
                &&& final(self)@.tabs == old(self)@.tabs.restrict(keep)
                &&& final(self)@.bad == old(self)@.bad.restrict(keep)
                &&& final(self)@.orphans == old(self)@.orphans.restrict(keep)
            }),
            r@ == crate::path_map::dropped(old(self).listed(), seen@),
            forall|p: Seq<char>|
                #![trigger final(self)@.tabs.contains_key(p)]
                crate::path_map::on_list(seen@, p) ==> same_about(old(self)@, final(self)@, p),
            forall|p: Seq<char>|
                #![trigger final(self)@.tabs.contains_key(p)]
                !crate::path_map::on_list(seen@, p) ==> !final(self)@.tabs.contains_key(p)
                    && !final(self)@.bad.contains_key(p) && !final(self)@.orphans.contains_key(p),
    {
        let gone = self.tabs.retain(seen);
        self.bad.retain(seen);
        self.orphan_logged.retain(seen);
        proof {
            let before = old(self)@;
            let after = self@;
            assert forall|p: Seq<char>| #[trigger] after.bad.contains_key(
                p,
            ) implies !after.tabs.contains_key(p) by {
                assert(before.bad.contains_key(p));
            }
            assert forall|p: Seq<char>| #[trigger] after.tabs.contains_key(
                p,
            ) implies after.tabs[p].path@ == p by {
                assert(before.tabs.contains_key(p));
            }
        }
        gone
    }
}

/// A file with bad lines is loaded for the sake of its good ones, unless it is a
/// user's one that exceeds a limit: its jobs are those of the good lines, and the
/// errors are reported.
pub proof fn law_partly_bad_files_are_loaded(
    before: DbModel,
    after: DbModel,
    c: CandidateModel,
    key: MetaKey,
    m: crate::crontab::TabModel,
    lines: Seq<crate::crontab::Line>,
    r: Outcome,
)
    requires
        text_taken(before, after, c, key, m, lines, r),
        m.errors.len() > 0,
        m.entries.len() > 0,
        c.format == Format::User ==> crate::crontab::exceeded(
            lines,
            crate::crontab::model_commands(m.entries),
        ) is None,
    ensures
        r.changed,
        after.tabs.contains_key(c.path),
        crate::crontab::entries_fit(after.tabs[c.path].crontab.entries@, m.entries),
        !after.bad.contains_key(c.path),
        match r.report {
            Report::Load(errors) => crate::crontab::errors_model(errors@) == m.errors,
            Report::Reload(errors) => crate::crontab::errors_model(errors@) == m.errors,
            _ => false,
        },
{
}

/// A file that was refused is current until it changes: it is neither read
/// again nor logged again.
pub proof fn law_errors_are_logged_once(m: DbModel, path: Seq<char>, key: MetaKey, now: MetaKey)
    requires
        m.wf(),
    ensures
        m.reject(path, key).current(path, now) <==> now == key,
{
    law_rejected_files_are_not_loaded(m, path, key);
}

/// What is found where a file is looked for: its text is `None` if it cannot be
/// read, and `privileged` says that it belongs to root.
pub enum FileModel {
    CantOpen { failure: OpenFailure, key: MetaKey },
    CantStat,
    Opened { meta: FileMeta, privileged: bool, text: Option<Seq<char>> },
}

/// What considering one file does to the loaded set: `f` is what was found at
/// its path, and `lookup` the outcome of looking up its owner. The jobs of a tab
/// that was loaded may be given delays. `changed` says whether the set is
/// reported to have changed.
pub open spec fn considered(
    permissive: bool,
    outer: crate::crontab::EnvModel,
    c: CandidateModel,
    lookup: Lookup,
    f: FileModel,
    before: DbModel,
    after: DbModel,
    changed: bool,
) -> bool {
    match f {
        FileModel::CantOpen { failure, key } => {
            &&& after == before.fail_open(c.path, failure, key)
            &&& changed == before.tabs.contains_key(c.path)
        },
        FileModel::CantStat => {
            &&& after == before.unload(c.path)
            &&& changed == before.tabs.contains_key(c.path)
        },
        FileModel::Opened { meta, privileged, text } => if before.current(c.path, meta.key) {
            after == before && !changed
        } else {
            let (state, _, read) = before.check(
                permissive,
                c.path,
                c.format,
                c.owner is Some,
                meta,
                lookup,
            );
            if !read {
                &&& after == state
                &&& changed == (before.tabs.contains_key(c.path) && !state.tabs.contains_key(
                    c.path,
                ))
            } else {
                match text {
                    None => {
                        &&& after == state.reject(c.path, meta.key)
                        &&& changed == state.tabs.contains_key(c.path)
                    },
                    Some(t) => exists|r: Outcome, loaded: DbModel, delays: Vec<u32>|
                        {
                            &&& #[trigger] text_taken(
                                state,
                                loaded,
                                c,
                                meta.key,
                                crate::crontab::tab_of(
                                    outer,
                                    crate::crontab::lines_of(t),
                                    c.format,
                                    privileged,
                                ),
                                crate::crontab::lines_of(t),
                                r,
                            )
                            &&& after == #[trigger] loaded.with_delays(c.path, delays)
                            &&& changed == r.changed
                        },
                }
            }
        },
    }
}

/// What a scan finds: the files by path, the users by name, and the two
/// directories.
pub struct Scan {
    pub plan: Seq<CandidateModel>,
    pub cron_d_blind: bool,
    pub spool_blind: bool,
    pub files: Map<Seq<char>, FileModel>,
    pub users: Map<Seq<char>, Lookup>,
}

impl Scan {
    pub open spec fn lookup(self, c: CandidateModel) -> Lookup {
        match c.owner {
            Some(name) => self.users[name],
            None => Lookup::Missing,
        }
    }

    /// The files of the plan are considered one after the other: `states` holds
    /// the loaded set before the first and after each, and `marks` whether it
    /// was reported to have changed.
    pub open spec fn considers(
        self,
        permissive: bool,
        outer: crate::crontab::EnvModel,
        states: Seq<DbModel>,
        marks: Seq<bool>,
    ) -> bool {
        &&& states.len() == self.plan.len() + 1
        &&& marks.len() == self.plan.len()
        &&& forall|i: int|
            0 <= i < self.plan.len() ==> considered(
                permissive,
                outer,
                self.plan[i],
                self.lookup(self.plan[i]),
                self.files[self.plan[i].path],
                states[i],
                states[i + 1],
                #[trigger] marks[i],
            )
    }

    /// The paths that count as present once `loaded` is the loaded set.
    pub open spec fn seen(self, cfg: Config, loaded: Map<Seq<char>, LoadedTab>) -> Set<Seq<char>> {
        Set::new(
            |p: Seq<char>|
                is_seen(cfg, self.plan, self.cron_d_blind, self.spool_blind, loaded, p),
        )
    }

    /// The loaded set once everything about other paths is dropped.
    pub open spec fn swept(self, cfg: Config, m: DbModel) -> DbModel {
        let seen = self.seen(cfg, m.tabs);
        DbModel {
            tabs: m.tabs.restrict(seen),
            bad: m.bad.restrict(seen),
            orphans: m.orphans.restrict(seen),
        }
    }
}

/// Does considering the file again change nothing?
spec fn settled(permissive: bool, c: CandidateModel, lookup: Lookup, f: FileModel, m: DbModel) -> bool {
    match f {
        FileModel::CantOpen { failure, key } => {
            &&& !m.tabs.contains_key(c.path)
            &&& failure == OpenFailure::NotFound || m.known_bad(c.path, key)
        },
        FileModel::CantStat => !m.tabs.contains_key(c.path),
        FileModel::Opened { meta, .. } => {
            ||| m.current(c.path, meta.key)
            ||| {
                let (state, _, read) = m.check(
                    permissive,
                    c.path,
                    c.format,
                    c.owner is Some,
                    meta,
                    lookup,
                );
                !read && state == m
            }
        },
    }
}

proof fn lemma_settled_stays(
    permissive: bool,
    outer: crate::crontab::EnvModel,
    c: CandidateModel,
    lookup: Lookup,
    f: FileModel,
    before: DbModel,
    after: DbModel,
    changed: bool,
)
    requires
        settled(permissive, c, lookup, f, before),
        considered(permissive, outer, c, lookup, f, before, after, changed),
    ensures
        after == before,
        !changed,
{
    assert(!before.tabs.contains_key(c.path) ==> before.tabs.remove(c.path) =~= before.tabs);
}

proof fn lemma_considered_settles(
    permissive: bool,
    outer: crate::crontab::EnvModel,
    c: CandidateModel,
    lookup: Lookup,
    f: FileModel,
    before: DbModel,
    after: DbModel,
    changed: bool,
)
    requires
        considered(permissive, outer, c, lookup, f, before, after, changed),
    ensures
        settled(permissive, c, lookup, f, after),
{
    if !after.tabs.contains_key(c.path) {
        assert(after.tabs.remove(c.path) =~= after.tabs);
    }
}

/// A file that is settled stays so when another candidate, be it for the same
/// path, is considered.
proof fn lemma_settled_kept(
    permissive: bool,
    outer: crate::crontab::EnvModel,
    c: CandidateModel,
    lookup: Lookup,
    f: FileModel,
    other: CandidateModel,
    other_lookup: Lookup,
    g: FileModel,
    before: DbModel,
    after: DbModel,
    changed: bool,
)
    requires
        settled(permissive, c, lookup, f, before),
        considered(permissive, outer, other, other_lookup, g, before, after, changed),
        c.path == other.path ==> f == g,
    ensures
        settled(permissive, c, lookup, f, after),
{
    if !after.tabs.contains_key(c.path) {
        assert(after.tabs.remove(c.path) =~= after.tabs);
    }
    if c.path != other.path {
        lemma_other_path(permissive, outer, other, other_lookup, g, before, after, changed, c.path);
    }
}

/// Considering a file leaves all other paths alone.
proof fn lemma_other_path(
    permissive: bool,
    outer: crate::crontab::EnvModel,
    c: CandidateModel,
    lookup: Lookup,
    f: FileModel,
    before: DbModel,
    after: DbModel,
    changed: bool,
    path: Seq<char>,
)
    requires
        considered(permissive, outer, c, lookup, f, before, after, changed),
        path != c.path,
    ensures
        same_at(before, after, path),
{
    if let FileModel::Opened { meta, privileged, text } = f {
        let (state, _, read) = before.check(
            permissive,
            c.path,
            c.format,
            c.owner is Some,
            meta,
            lookup,
        );
        assert(same_at(before, state, path));
        if !before.current(c.path, meta.key) && read && text is Some {
            let lines = crate::crontab::lines_of(text->0);
            let m = crate::crontab::tab_of(outer, lines, c.format, privileged);
            let (r, loaded, delays) = choose|r: Outcome, loaded: DbModel, delays: Vec<u32>|
                {
                    &&& #[trigger] text_taken(state, loaded, c, meta.key, m, lines, r)
                    &&& after == #[trigger] loaded.with_delays(c.path, delays)
                    &&& changed == r.changed
                };
            let a = loaded.tabs.remove(c.path);
            let b = state.tabs.remove(c.path);
            assert(a =~= b);
            assert(a.contains_key(path) == loaded.tabs.contains_key(path));
            assert(b.contains_key(path) == state.tabs.contains_key(path));
            assert(a.contains_key(path) ==> a[path] == loaded.tabs[path]);
            assert(b.contains_key(path) ==> b[path] == state.tabs[path]);
            assert(same_at(state, loaded, path));
            assert(same_at(loaded, after, path));
        }
    }
}

/// Do two sets agree about a path?
spec fn same_at(a: DbModel, b: DbModel, path: Seq<char>) -> bool {
    &&& a.tabs.contains_key(path) == b.tabs.contains_key(path)
    &&& a.tabs.contains_key(path) ==> a.tabs[path] == b.tabs[path]
    &&& a.bad.contains_key(path) == b.bad.contains_key(path)
    &&& a.bad.contains_key(path) ==> a.bad[path] == b.bad[path]
    &&& a.orphans.contains_key(path) == b.orphans.contains_key(path)
    &&& a.orphans.contains_key(path) ==> a.orphans[path] == b.orphans[path]
}

proof fn lemma_settled_at(
    permissive: bool,
    c: CandidateModel,
    lookup: Lookup,
    f: FileModel,
    a: DbModel,
    b: DbModel,
)
    requires
        settled(permissive, c, lookup, f, a),
        same_at(a, b, c.path),
    ensures
        settled(permissive, c, lookup, f, b),
{
    if !b.tabs.contains_key(c.path) {
        assert(b.tabs.remove(c.path) =~= b.tabs);
    }
    if !a.tabs.contains_key(c.path) {
        assert(a.tabs.remove(c.path) =~= a.tabs);
    }
}

/// Every file of the plan is settled once all were considered.
proof fn lemma_all_settle(
    scan: Scan,
    permissive: bool,
    outer: crate::crontab::EnvModel,
    states: Seq<DbModel>,
    marks: Seq<bool>,
    n: int,
    i: int,
)
    requires
        scan.considers(permissive, outer, states, marks),
        0 <= i < n <= scan.plan.len(),
    ensures
        settled(
            permissive,
            scan.plan[i],
            scan.lookup(scan.plan[i]),
            scan.files[scan.plan[i].path],
            states[n],
        ),
    decreases n,
{
    let c = scan.plan[i];
    let last = scan.plan[n - 1];
    let mark = marks[n - 1];
    if i == n - 1 {
        lemma_considered_settles(
            permissive,
            outer,
            c,
            scan.lookup(c),
            scan.files[c.path],
            states[n - 1],
            states[n],
            mark,
        );
    } else {
        lemma_all_settle(scan, permissive, outer, states, marks, n - 1, i);
        lemma_settled_kept(
            permissive,
            outer,
            c,
            scan.lookup(c),
            scan.files[c.path],
            last,
            scan.lookup(last),
            scan.files[last.path],
            states[n - 1],
            states[n],
            mark,
        );
    }
}

/// A scan that considers settled files only changes nothing.
proof fn lemma_settled_scan(
    scan: Scan,
    permissive: bool,
    outer: crate::crontab::EnvModel,
    states: Seq<DbModel>,
    marks: Seq<bool>,
    n: int,
)
    requires
        scan.considers(permissive, outer, states, marks),
        0 <= n <= scan.plan.len(),
        forall|i: int|
            0 <= i < scan.plan.len() ==> settled(
                permissive,
                #[trigger] scan.plan[i],
                scan.lookup(scan.plan[i]),
                scan.files[scan.plan[i].path],
                states[0],
            ),
    ensures
        states[n] == states[0],
        forall|i: int| 0 <= i < n ==> !#[trigger] marks[i],
    decreases n,
{
    if n > 0 {
        lemma_settled_scan(scan, permissive, outer, states, marks, n - 1);
        let c = scan.plan[n - 1];
        lemma_settled_stays(
            permissive,
            outer,
            c,
            scan.lookup(c),
            scan.files[c.path],
            states[n - 1],
            states[n],
            marks[n - 1],
        );
    }
}

/// A second refresh that finds what the first one found changes nothing: no
/// file is reported as changed, be it one that was refused, and nothing is
/// unloaded.
pub proof fn law_second_refresh_changes_nothing(
    cfg: Config,
    scan: Scan,
    permissive: bool,
    outer: crate::crontab::EnvModel,
    first: Seq<DbModel>,
    first_marks: Seq<bool>,
    second: Seq<DbModel>,
    second_marks: Seq<bool>,
)
    requires
        scan.considers(permissive, outer, first, first_marks),
        scan.considers(permissive, outer, second, second_marks),
        second[0] == scan.swept(cfg, first.last()),
    ensures
        forall|i: int| 0 <= i < second_marks.len() ==> !#[trigger] second_marks[i],
        second.last() == second[0],
        scan.swept(cfg, second.last()) == second[0],
{
    let n = scan.plan.len() as int;
    let done = first.last();
    let m = second[0];
    assert forall|i: int| 0 <= i < n implies settled(
        permissive,
        #[trigger] scan.plan[i],
        scan.lookup(scan.plan[i]),
        scan.files[scan.plan[i].path],
        m,
    ) by {
        let c = scan.plan[i];
        lemma_all_settle(scan, permissive, outer, first, first_marks, n, i);
        assert(is_seen(cfg, scan.plan, scan.cron_d_blind, scan.spool_blind, done.tabs, c.path));
        assert(same_at(done, m, c.path));
        lemma_settled_at(permissive, c, scan.lookup(c), scan.files[c.path], done, m);
    }
    lemma_settled_scan(scan, permissive, outer, second, second_marks, n);
    assert(scan.seen(cfg, m.tabs) =~= scan.seen(cfg, done.tabs));
    let again = scan.swept(cfg, m);
    assert(again.tabs =~= m.tabs);
    assert(again.bad =~= m.bad);
    assert(again.orphans =~= m.orphans);
}

/// A tab in a directory that cannot be looked into stays loaded.
pub proof fn law_blind_directory_keeps_tabs(
    cfg: Config,
    plan: Seq<CandidateModel>,
    cron_d_blind: bool,
    spool_blind: bool,
    loaded: Map<Seq<char>, LoadedTab>,
    seen: Seq<String>,
    path: Seq<char>,
)
    requires
        loaded.contains_key(path),
        hidden(cfg, cron_d_blind, spool_blind, path),
        forall|p: Seq<char>| #[trigger]
            crate::path_map::on_list(seen, p) == is_seen(
                cfg,
                plan,
                cron_d_blind,
                spool_blind,
                loaded,
                p,
            ),
    ensures
        loaded.restrict(crate::path_map::paths(seen)).contains_key(path),
        loaded.restrict(crate::path_map::paths(seen))[path] == loaded[path],
{
    assert(crate::path_map::on_list(seen, path));
}

// ---------------------------------------------------------------------------
// Which files count
// ---------------------------------------------------------------------------

/// Is the name some text, be it empty, with this ending?
pub open spec fn named_with(name: Seq<char>, ending: Seq<char>) -> bool {
    exists|stem: Seq<char>| name == #[trigger] (stem + ending)
}

proof fn lemma_named_with(name: Seq<char>, ending: Seq<char>)
    ensures
        crate::text::has_suffix(name, ending) == named_with(name, ending),
{
    crate::text::law_prefix_and_suffix(Seq::empty(), ending, name);
    if named_with(name, ending) {
        let stem = choose|stem: Seq<char>| name == #[trigger] (stem + ending);
        crate::text::law_prefix_and_suffix(stem, ending, name);
    }
}

/// A file of `cron.d` is skipped exactly if its name begins with a dot, ends in
/// a tilde, or ends as package managers name what they leave behind. Any other
/// name counts, whatever dots it holds.
pub proof fn law_drop_in_names(name: Seq<char>)
    ensures
        !drop_in_name(name) <==> {
            ||| name.len() > 0 && name[0] == '.'
            ||| name.len() > 0 && name.last() == '~'
            ||| named_with(name, ".rpmsave"@)
            ||| named_with(name, ".rpmorig"@)
            ||| named_with(name, ".rpmnew"@)
            ||| named_with(name, ".dpkg-dist"@)
            ||| named_with(name, ".dpkg-old"@)
            ||| named_with(name, ".dpkg-new"@)
            ||| named_with(name, ".pacsave"@)
            ||| named_with(name, ".pacnew"@)
            ||| named_with(name, ".orig"@)
            ||| named_with(name, ".bak"@)
        },
{
    lemma_named_with(name, ".rpmsave"@);
    lemma_named_with(name, ".rpmorig"@);
    lemma_named_with(name, ".rpmnew"@);
    lemma_named_with(name, ".dpkg-dist"@);
    lemma_named_with(name, ".dpkg-old"@);
    lemma_named_with(name, ".dpkg-new"@);
    lemma_named_with(name, ".pacsave"@);
    lemma_named_with(name, ".pacnew"@);
    lemma_named_with(name, ".orig"@);
    lemma_named_with(name, ".bak"@);
}


/// A file of the spool is skipped exactly if its name begins with a dot or ends
/// in a tilde: any other name may be a user's.
pub proof fn law_spool_names(name: Seq<char>)
    ensures
        !spool_name(name) <==> name.len() > 0 && (name[0] == '.' || name.last() == '~'),
{
}

proof fn lemma_drop_ins(dir: Seq<char>, names: Seq<String>, c: CandidateModel)
    ensures
        drop_ins(dir, names).contains(c) <==> exists|i: int|
            0 <= i < names.len() && drop_in_name((#[trigger] names[i])@) && c == drop_in(
                dir,
                names[i]@,
            ),
    decreases names.len(),
{
    let all = drop_ins(dir, names);
    if names.len() > 0 {
        let shorter = names.drop_last();
        let before = drop_ins(dir, shorter);
        lemma_drop_ins(dir, shorter, c);
        let last = names.last()@;
        if before.contains(c) {
            let i = choose|i: int|
                0 <= i < shorter.len() && drop_in_name((#[trigger] shorter[i])@) && c == drop_in(
                    dir,
                    shorter[i]@,
                );
            assert(names[i] == shorter[i]);
            let k = choose|k: int| 0 <= k < before.len() && before[k] == c;
            assert(all[k] == c);
        }
        if drop_in_name(last) && c == drop_in(dir, last) {
            assert(names[names.len() - 1]@ == last);
            assert(all[before.len() as int] == c);
        }
        if exists|i: int|
            0 <= i < names.len() && drop_in_name((#[trigger] names[i])@) && c == drop_in(
                dir,
                names[i]@,
            ) {
            let i = choose|i: int|
                0 <= i < names.len() && drop_in_name((#[trigger] names[i])@) && c == drop_in(
                    dir,
                    names[i]@,
                );
            if i < shorter.len() {
                assert(shorter[i] == names[i]);
                assert(before.contains(c));
            }
        }
        if all.contains(c) {
            let k = choose|k: int| 0 <= k < all.len() && all[k] == c;
            if k < before.len() {
                assert(before[k] == c);
            }
        }
    }
}

proof fn lemma_spool_files(dir: Seq<char>, names: Seq<String>, c: CandidateModel)
    ensures
        spool_files(dir, names).contains(c) <==> exists|i: int|
            0 <= i < names.len() && spool_name((#[trigger] names[i])@) && c == spool_file(
                dir,
                names[i]@,
            ),
    decreases names.len(),
{
    let all = spool_files(dir, names);
    if names.len() > 0 {
        let shorter = names.drop_last();
        let before = spool_files(dir, shorter);
        lemma_spool_files(dir, shorter, c);
        let last = names.last()@;
        if before.contains(c) {
            let i = choose|i: int|
                0 <= i < shorter.len() && spool_name((#[trigger] shorter[i])@) && c == spool_file(
                    dir,
                    shorter[i]@,
                );
            assert(names[i] == shorter[i]);
            let k = choose|k: int| 0 <= k < before.len() && before[k] == c;
            assert(all[k] == c);
        }
        if spool_name(last) && c == spool_file(dir, last) {
            assert(names[names.len() - 1]@ == last);
            assert(all[before.len() as int] == c);
        }
        if exists|i: int|
            0 <= i < names.len() && spool_name((#[trigger] names[i])@) && c == spool_file(
                dir,
                names[i]@,
            ) {
            let i = choose|i: int|
                0 <= i < names.len() && spool_name((#[trigger] names[i])@) && c == spool_file(
                    dir,
                    names[i]@,
                );
            if i < shorter.len() {
                assert(shorter[i] == names[i]);
                assert(before.contains(c));
            }
        }
        if all.contains(c) {
            let k = choose|k: int| 0 <= k < all.len() && all[k] == c;
            if k < before.len() {
                assert(before[k] == c);
            }
        }
    }
}

/// A refresh considers the system crontab if it is there, the files of `cron.d`
/// whose names count, as system crontabs that name the user of every job, and,
/// from a safe spool, the files whose names count, as crontabs of the users they
/// are named after. It considers nothing else.
pub proof fn law_files_considered(
    cfg: Config,
    system_present: bool,
    cron_d: Listing,
    spool_secure: bool,
    spool: Listing,
    c: CandidateModel,
)
    ensures
        plan_of(cfg, system_present, cron_d, spool_secure, spool).contains(c) <==> {
            ||| system_present && c.path == cfg.system_crontab@ && c.format == Format::System
                && c.owner is None && c.label == "*system*"@
            ||| (cron_d matches Listing::Names(names) && exists|i: int|
                0 <= i < names@.len() && drop_in_name((#[trigger] names@[i])@) && c.path
                    == crate::config::joined(cfg.cron_d_dir@, names@[i]@) && c.format
                    == Format::System && c.owner is None && c.label == "*system*"@ + names@[i]@)
            ||| (spool matches Listing::Names(names) && spool_secure && exists|i: int|
                0 <= i < names@.len() && spool_name((#[trigger] names@[i])@) && c.path
                    == crate::config::joined(cfg.spool_dir@, names@[i]@) && c.format
                    == Format::User && c.owner == Some(names@[i]@) && c.label == names@[i]@)
        },
{
    let first = if system_present {
        seq![system_file(cfg.system_crontab@)]
    } else {
        seq![]
    };
    let second = match cron_d {
        Listing::Names(names) => drop_ins(cfg.cron_d_dir@, names@),
        _ => seq![],
    };
    let third = match spool {
        Listing::Names(names) if spool_secure => spool_files(cfg.spool_dir@, names@),
        _ => seq![],
    };
    let all = plan_of(cfg, system_present, cron_d, spool_secure, spool);
    assert(all == first + second + third);
    lemma_in_three(first, second, third, c);
    if system_present {
        assert(first[0] == system_file(cfg.system_crontab@));
        if c == system_file(cfg.system_crontab@) {
            assert(first.contains(c));
        }
    }
    if let Listing::Names(names) = cron_d {
        lemma_drop_ins(cfg.cron_d_dir@, names@, c);
    }
    if let Listing::Names(names) = spool {
        lemma_spool_files(cfg.spool_dir@, names@, c);
    }
}

proof fn lemma_in_three<A>(a: Seq<A>, b: Seq<A>, c: Seq<A>, x: A)
    ensures
        (a + b + c).contains(x) <==> a.contains(x) || b.contains(x) || c.contains(x),
{
    let all = a + b + c;
    if a.contains(x) {
        let k = choose|k: int| 0 <= k < a.len() && a[k] == x;
        assert(all[k] == x);
    }
    if b.contains(x) {
        let k = choose|k: int| 0 <= k < b.len() && b[k] == x;
        assert(all[a.len() + k] == x);
    }
    if c.contains(x) {
        let k = choose|k: int| 0 <= k < c.len() && c[k] == x;
        assert(all[a.len() + b.len() + k] == x);
    }
    if all.contains(x) {
        let k = choose|k: int| 0 <= k < all.len() && all[k] == x;
        if k < a.len() {
            assert(a[k] == x);
        } else if k < a.len() + b.len() {
            assert(b[k - a.len()] == x);
        } else {
            assert(c[k - a.len() - b.len()] == x);
        }
    }
}

/// A file of `cron.d` that is neither hidden, nor a backup, nor left behind by a
/// package manager is among those considered, under its own path.
pub proof fn law_good_names_are_considered(
    cfg: Config,
    system_present: bool,
    names: Vec<String>,
    spool_secure: bool,
    spool: Listing,
    i: int,
)
    requires
        0 <= i < names@.len(),
        names@[i]@.len() > 0,
        names@[i]@[0] != '.',
        names@[i]@.last() != '~',
        !named_with(names@[i]@, ".rpmsave"@),
        !named_with(names@[i]@, ".rpmorig"@),
        !named_with(names@[i]@, ".rpmnew"@),
        !named_with(names@[i]@, ".dpkg-dist"@),
        !named_with(names@[i]@, ".dpkg-old"@),
        !named_with(names@[i]@, ".dpkg-new"@),
        !named_with(names@[i]@, ".pacsave"@),
        !named_with(names@[i]@, ".pacnew"@),
        !named_with(names@[i]@, ".orig"@),
        !named_with(names@[i]@, ".bak"@),
    ensures
        plan_of(cfg, system_present, Listing::Names(names), spool_secure, spool).contains(
            CandidateModel {
                path: crate::config::joined(cfg.cron_d_dir@, names@[i]@),
                format: Format::System,
                owner: None,
                label: "*system*"@ + names@[i]@,
            },
        ),
{
    let c = drop_in(cfg.cron_d_dir@, names@[i]@);
    let cron_d = Listing::Names(names);
    law_drop_in_names(names@[i]@);
    law_files_considered(cfg, system_present, cron_d, spool_secure, spool, c);
}

/// A system crontab passes if and only if it is a regular file of root's that
/// neither group nor others can write. Who the owner is looked up as does not
/// matter.
pub proof fn law_system_files_are_roots(meta: FileMeta, owner: Lookup)
    ensures
        security_problem(meta, Format::System, owner) is None <==> meta.is_file && meta.uid == 0
            && meta.mode & 0o022 == 0,
        !meta.is_file ==> security_problem(meta, Format::System, owner) == Some(
            SecurityError::NotRegular,
        ),
        meta.is_file && meta.uid != 0 ==> security_problem(meta, Format::System, owner) == Some(
            SecurityError::WrongOwner,
        ),
        meta.is_file && meta.uid == 0 && meta.mode & 0o022 != 0 ==> security_problem(
            meta,
            Format::System,
            owner,
        ) == Some(SecurityError::InsecureMode(Format::System)),
{
}

/// A user's crontab passes if and only if it is a regular file with one name
/// only, nobody but its owner can touch it, and it belongs to root or to the user
/// it is named after. If the user cannot be looked up just now, that is said
/// before all else but the kind of file.
pub proof fn law_spool_files_are_private(meta: FileMeta, owner: Lookup)
    ensures
        security_problem(meta, Format::User, owner) is None <==> meta.is_file && owner
            != Lookup::Failed && (meta.uid == 0 || owner == Lookup::Found(meta.uid)) && meta.nlink
            == 1 && meta.mode & 0o077 == 0,
        !meta.is_file ==> security_problem(meta, Format::User, owner) == Some(
            SecurityError::NotRegular,
        ),
        meta.is_file && owner == Lookup::Failed ==> security_problem(meta, Format::User, owner)
            == Some(SecurityError::LookupFailed),
        meta.is_file && owner != Lookup::Failed && meta.uid != 0 && owner != Lookup::Found(meta.uid)
            ==> security_problem(meta, Format::User, owner) == Some(SecurityError::WrongOwner),
{
}

/// A spool that others could put files into is not read, unless it is sticky or
/// nothing is asked for.
pub proof fn law_spool_directory(mode: u32)
    ensures
        spool_mode_ok(false, Some(mode)) <==> mode & 0o022 == 0 || mode & 0o1000 != 0,
        spool_mode_ok(true, Some(mode)),
        forall|permissive: bool| #[trigger] spool_mode_ok(permissive, None),
{
}

// ---------------------------------------------------------------------------
// What becomes of a file
// ---------------------------------------------------------------------------

/// A version of a file needs no second look if it is the one that is loaded or
/// the one that was found bad; any other version does.
pub proof fn law_changed_files_are_read_again(m: DbModel, path: Seq<char>, key: MetaKey)
    requires
        m.wf(),
    ensures
        m.tabs.contains_key(path) ==> (m.current(path, key) <==> m.tabs[path].key == key),
        m.bad.contains_key(path) ==> (m.current(path, key) <==> m.bad[path] == key),
        !m.tabs.contains_key(path) && !m.bad.contains_key(path) ==> !m.current(path, key),
{
}

/// What is done about one path leaves all that is known of the others alone.
pub proof fn law_paths_are_independent(
    m: DbModel,
    path: Seq<char>,
    other: Seq<char>,
    key: MetaKey,
    failure: OpenFailure,
    delays: Vec<u32>,
)
    requires
        path != other,
    ensures
        same_about(m, m.unload(path), other),
        same_about(m, m.reject(path, key), other),
        same_about(m, m.fail_open(path, failure, key), other),
        same_about(m, m.with_delays(path, delays), other),
{
}

/// Is the same known of a path?
pub open spec fn same_about(a: DbModel, b: DbModel, path: Seq<char>) -> bool {
    &&& a.tabs.contains_key(path) == b.tabs.contains_key(path)
    &&& a.tabs.contains_key(path) ==> a.tabs[path] == b.tabs[path]
    &&& a.bad.contains_key(path) == b.bad.contains_key(path)
    &&& a.bad.contains_key(path) ==> a.bad[path] == b.bad[path]
    &&& a.orphans.contains_key(path) == b.orphans.contains_key(path)
    &&& a.orphans.contains_key(path) ==> a.orphans[path] == b.orphans[path]
}

/// A file that cannot be opened is not loaded any more. It is remembered as bad,
/// and so logged, unless it is not there or that is known already.
pub proof fn law_unopened_files_are_unloaded(
    m: DbModel,
    path: Seq<char>,
    failure: OpenFailure,
    key: MetaKey,
)
    requires
        m.wf(),
    ensures
        !m.fail_open(path, failure, key).tabs.contains_key(path),
        failure == OpenFailure::NotFound ==> m.fail_open(path, failure, key).bad == m.bad,
        failure != OpenFailure::NotFound ==> m.fail_open(path, failure, key).known_bad(path, key),
        m.fail_open(path, failure, key).orphans == m.orphans,
{
}

/// Delays are those that were set, in the order of the entries, and none
/// otherwise; nothing else of a tab changes.
pub proof fn law_delays_are_set(m: DbModel, path: Seq<char>, delays: Vec<u32>, entry: int)
    requires
        m.tabs.contains_key(path),
    ensures
        ({
            let tab = m.with_delays(path, delays).tabs[path];
            &&& m.with_delays(path, delays).tabs.contains_key(path)
            &&& 0 <= entry < delays@.len() ==> tab.delay_of(entry) == delays@[entry]
            &&& !(0 <= entry < delays@.len()) ==> tab.delay_of(entry) == 0
            &&& tab.path == m.tabs[path].path
            &&& tab.key == m.tabs[path].key
            &&& tab.format == m.tabs[path].format
            &&& tab.owner == m.tabs[path].owner
            &&& tab.crontab == m.tabs[path].crontab
            &&& tab.label == m.tabs[path].label
        }),
{
}

/// A file with a problem is not read. If its owner could not be looked up it is
/// tried again later, and what is loaded stays; otherwise it is unloaded and
/// remembered as bad.
pub proof fn law_checks_come_first(
    m: DbModel,
    path: Seq<char>,
    format: Format,
    has_owner: bool,
    meta: FileMeta,
    lookup: Lookup,
)
    requires
        security_problem(meta, format, lookup) is Some,
    ensures
        ({
            let (after, report, read) = m.check(false, path, format, has_owner, meta, lookup);
            let problem = security_problem(meta, format, lookup)->0;
            &&& !read
            &&& problem == SecurityError::LookupFailed ==> after == m && report is CantLookup
            &&& problem != SecurityError::LookupFailed ==> {
                &&& !after.tabs.contains_key(path)
                &&& after.known_bad(path, meta.key)
                &&& report == Report::Security(problem)
                &&& after.orphans == m.orphans
            }
        }),
{
}

/// A file without a problem, or any file if nothing is asked for, is read if it
/// has no owner or its owner is known. One whose user does not exist is unloaded
/// and not read; that is said once for every version of it. Where the user cannot
/// be looked up, nothing changes.
pub proof fn law_files_without_problems(
    m: DbModel,
    permissive: bool,
    path: Seq<char>,
    format: Format,
    has_owner: bool,
    meta: FileMeta,
    lookup: Lookup,
)
    requires
        permissive || security_problem(meta, format, lookup) is None,
    ensures
        ({
            let (after, report, read) = m.check(permissive, path, format, has_owner, meta, lookup);
            let known = m.orphans.contains_key(path) && m.orphans[path] == meta.key;
            &&& read <==> !has_owner || lookup is Found
            &&& read ==> after.tabs == m.tabs && after.bad == m.bad && report is Nothing
            &&& has_owner && lookup is Found ==> !after.orphans.contains_key(path)
            &&& has_owner && lookup == Lookup::Missing ==> {
                &&& !after.tabs.contains_key(path)
                &&& after.bad == m.bad
                &&& after.orphans.contains_key(path)
                &&& after.orphans[path] == meta.key
                &&& known ==> report is Nothing
                &&& !known ==> report is Orphan
            }
            &&& has_owner && lookup == Lookup::Failed ==> after == m && report is CantLookup
        }),
{
}

/// A file without errors is loaded, unless it is a user's one that exceeds a
/// limit: with its jobs, under its path, in this version, for its owner, and
/// without delays so far.
pub proof fn law_good_files_are_loaded(
    before: DbModel,
    after: DbModel,
    c: CandidateModel,
    key: MetaKey,
    m: crate::crontab::TabModel,
    lines: Seq<crate::crontab::Line>,
    r: Outcome,
)
    requires
        text_taken(before, after, c, key, m, lines, r),
        m.errors.len() == 0,
        c.format == Format::User ==> crate::crontab::exceeded(
            lines,
            crate::crontab::model_commands(m.entries),
        ) is None,
    ensures
        r.changed,
        before.tabs.contains_key(c.path) ==> r.report is Reload,
        !before.tabs.contains_key(c.path) ==> r.report is Load,
        after.tabs.contains_key(c.path),
        !after.bad.contains_key(c.path),
        after.current(c.path, key),
        after.tabs[c.path].path@ == c.path,
        after.tabs[c.path].format == c.format,
        crate::crontab::text_model(after.tabs[c.path].owner) == c.owner,
        after.tabs[c.path].label@ == c.label,
        forall|entry: int| #[trigger] after.tabs[c.path].delay_of(entry) == 0,
        crate::crontab::entries_fit(after.tabs[c.path].crontab.entries@, m.entries),
{
}

/// A user's file that exceeds a limit, and any file of which nothing is good, is
/// unloaded and remembered as bad, with the reason.
pub proof fn law_unusable_files_are_refused(
    before: DbModel,
    after: DbModel,
    c: CandidateModel,
    key: MetaKey,
    m: crate::crontab::TabModel,
    lines: Seq<crate::crontab::Line>,
    r: Outcome,
)
    requires
        text_taken(before, after, c, key, m, lines, r),
        ({
            ||| c.format == Format::User && crate::crontab::exceeded(
                lines,
                crate::crontab::model_commands(m.entries),
            ) is Some
            ||| m.errors.len() > 0 && m.entries.len() == 0
        }),
    ensures
        !after.tabs.contains_key(c.path),
        after.known_bad(c.path, key),
        r.changed == before.tabs.contains_key(c.path),
        r.report is OverLimit || r.report is BadCrontab,
        c.format == Format::System ==> r.report is BadCrontab,
{
}

// ---------------------------------------------------------------------------
// What is dropped
// ---------------------------------------------------------------------------

/// Files in a directory lie in it, and so does the directory itself; a directory
/// whose name merely begins alike does not.
pub proof fn law_lies_in(dir: Seq<char>, path: Seq<char>, name: Seq<char>)
    requires
        dir.len() > 0,
        dir.last() != '/',
    ensures
        lies_in(dir, dir + seq!['/'] + name),
        lies_in(dir, dir),
        lies_in(dir, path) && path != dir ==> path.len() > dir.len() && path.take(dir.len() as int)
            == dir && path[dir.len() as int] == '/',
{
    let base = crate::config::joined(dir, seq![]);
    crate::config::law_join(dir, seq![]);
    assert(dir + seq!['/'] + Seq::<char>::empty() =~= dir + seq!['/']);
    assert(base == dir + seq!['/']);
    let inside = dir + seq!['/'] + name;
    assert(inside.take(base.len() as int) =~= base);
    if lies_in(dir, path) && path != dir {
        assert(path.take(base.len() as int) == base);
        assert(path.take(dir.len() as int) =~= base.take(dir.len() as int));
        assert(base.take(dir.len() as int) =~= dir);
        assert(path[dir.len() as int] == base[dir.len() as int]);
    }
}

/// After a refresh nothing is known of a path that was not considered, unless
/// its directory could not be looked into; a path that was considered keeps what
/// is known of it.
pub proof fn law_vanished_files_are_dropped(scan: Scan, cfg: Config, m: DbModel, path: Seq<char>)
    ensures
        ({
            let after = scan.swept(cfg, m);
            let considered = exists|i: int|
                0 <= i < scan.plan.len() && (#[trigger] scan.plan[i]).path == path;
            let blind = scan.cron_d_blind && lies_in(cfg.cron_d_dir@, path) || scan.spool_blind
                && lies_in(cfg.spool_dir@, path);
            &&& considered ==> same_about(m, after, path)
            &&& !considered && blind && m.tabs.contains_key(path) ==> same_about(m, after, path)
            &&& !considered && !blind ==> !after.tabs.contains_key(path)
                && !after.bad.contains_key(path) && !after.orphans.contains_key(path)
        }),
{
}

/// Files are considered in this order: the system crontab, then those of `cron.d`
/// as they are listed, then those of the spool as they are listed.
pub proof fn law_order_of_files(
    cfg: Config,
    system_present: bool,
    names: Vec<String>,
    more: Vec<String>,
    next: String,
    spool_secure: bool,
    cron_d: Listing,
    spool: Listing,
)
    requires
        more@ == names@.push(next),
    ensures
        plan_of(cfg, true, cron_d, spool_secure, spool) == seq![system_file(cfg.system_crontab@)]
            + plan_of(cfg, false, cron_d, spool_secure, spool),
        plan_of(cfg, system_present, cron_d, spool_secure, spool) == plan_of(
            cfg,
            system_present,
            cron_d,
            spool_secure,
            Listing::Missing,
        ) + plan_of(cfg, false, Listing::Missing, spool_secure, spool),
        plan_of(
            cfg,
            system_present,
            Listing::Names(more),
            spool_secure,
            Listing::Missing,
        ) == plan_of(
            cfg,
            system_present,
            Listing::Names(names),
            spool_secure,
            Listing::Missing,
        ) + if drop_in_name(next@) {
            seq![drop_in(cfg.cron_d_dir@, next@)]
        } else {
            seq![]
        },
        plan_of(cfg, false, Listing::Missing, true, Listing::Names(more)) == plan_of(
            cfg,
            false,
            Listing::Missing,
            true,
            Listing::Names(names),
        ) + if spool_name(next@) {
            seq![spool_file(cfg.spool_dir@, next@)]
        } else {
            seq![]
        },
        plan_of(cfg, false, Listing::Missing, false, spool).len() == 0,
{
    let none = Seq::<CandidateModel>::empty();
    assert(more@.drop_last() =~= names@);
    assert(more@.last() == next);
    assert(plan_of(cfg, true, cron_d, spool_secure, spool) =~= seq![
        system_file(cfg.system_crontab@),
    ] + plan_of(cfg, false, cron_d, spool_secure, spool));
    assert(plan_of(cfg, system_present, cron_d, spool_secure, spool) =~= plan_of(
        cfg,
        system_present,
        cron_d,
        spool_secure,
        Listing::Missing,
    ) + plan_of(cfg, false, Listing::Missing, spool_secure, spool));
    assert(plan_of(cfg, system_present, Listing::Names(more), spool_secure, Listing::Missing)
        =~= plan_of(
        cfg,
        system_present,
        Listing::Names(names),
        spool_secure,
        Listing::Missing,
    ) + if drop_in_name(next@) {
        seq![drop_in(cfg.cron_d_dir@, next@)]
    } else {
        none
    });
    assert(plan_of(cfg, false, Listing::Missing, true, Listing::Names(more)) =~= plan_of(
        cfg,
        false,
        Listing::Missing,
        true,
        Listing::Names(names),
    ) + if spool_name(next@) {
        seq![spool_file(cfg.spool_dir@, next@)]
    } else {
        none
    });
}

} // verus!
