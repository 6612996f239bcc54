//! Time-zone rules selected by a `TZ` or `CRON_TZ` value.
//!
//! A leading `:` is stripped, then the value is tried as a zone file (an
//! absolute path, or one relative to the zone directory), then as a POSIX
//! `TZ` string. A string that names a daylight zone without rules takes them
//! from the file `posixrules`, or from the built-in ones if that file is
//! unusable. Values that cannot be read are UTC.
//!
//! Files are read by the caller: the functions here say which file to read,
//! whether it may be, and what its bytes mean.

use std::sync::Arc;

use vstd::prelude::*;
use vstd::string::StringSliceAdditionalSpecFns;

use crate::calendar::{from_timestamp, WallTime, MAX_YEAR, MIN_YEAR};
use crate::posix_tz::{parse_tz_string, PosixTz, Rule, RuleKind, COLON, SLASH};
use crate::tzif::{parse_tzif, posixrules_default, TzFile};

verus! {

/// Largest zone file that is read: 1 MiB. Larger files are treated as
/// unreadable, which bounds the memory that a cached zone can retain.
pub const MAX_TZIF_BYTES: u64 = 1048576;

// ---------------------------------------------------------------------------
// Values and paths
// ---------------------------------------------------------------------------

/// `/usr/share/zoneinfo`
pub open spec fn default_dir() -> Seq<u8> {
    seq![
        0x2f, 0x75, 0x73, 0x72, 0x2f, 0x73, 0x68, 0x61, 0x72, 0x65, 0x2f, 0x7a, 0x6f, 0x6e, 0x65,
        0x69, 0x6e, 0x66, 0x6f,
    ]
}

fn default_dir_bytes() -> (r: Vec<u8>)
    ensures
        r@ == default_dir(),
{
    let r: Vec<u8> = vec![
        0x2f, 0x75, 0x73, 0x72, 0x2f, 0x73, 0x68, 0x61, 0x72, 0x65, 0x2f, 0x7a, 0x6f, 0x6e, 0x65,
        0x69, 0x6e, 0x66, 0x6f,
    ];
    assert(r@ =~= default_dir());
    r
}

/// `/etc/localtime`
pub open spec fn local_file() -> Seq<u8> {
    seq![0x2f, 0x65, 0x74, 0x63, 0x2f, 0x6c, 0x6f, 0x63, 0x61, 0x6c, 0x74, 0x69, 0x6d, 0x65]
}

fn local_file_bytes() -> (r: Vec<u8>)
    ensures
        r@ == local_file(),
{
    let r: Vec<u8> = vec![
        0x2f, 0x65, 0x74, 0x63, 0x2f, 0x6c, 0x6f, 0x63, 0x61, 0x6c, 0x74, 0x69, 0x6d, 0x65,
    ];
    assert(r@ =~= local_file());
    r
}

/// `posixrules`
pub open spec fn rules_name() -> Seq<u8> {
    seq![0x70, 0x6f, 0x73, 0x69, 0x78, 0x72, 0x75, 0x6c, 0x65, 0x73]
}

/// The name of the file with the default rules.
pub fn posixrules_name() -> (r: Vec<u8>)
    ensures
        r@ == rules_name(),
{
    let r: Vec<u8> = vec![0x70, 0x6f, 0x73, 0x69, 0x78, 0x72, 0x75, 0x6c, 0x65, 0x73];
    assert(r@ =~= rules_name());
    r
}

pub fn same_bytes(a: &[u8], b: &[u8]) -> (r: bool)
    ensures
        r == (a@ == b@),
{
    if a.len() != b.len() {
        return false;
    }
    let mut i: usize = 0;
    while i < a.len()
        invariant
            i <= a.len(),
            a@.len() == b@.len(),
            forall|j: int| 0 <= j < i ==> a@[j] == b@[j],
        decreases a.len() - i,
    {
        if a[i] != b[i] {
            return false;
        }
        i += 1;
    }
    assert(a@ =~= b@);
    true
}

pub fn copy_bytes(s: &[u8]) -> (r: Vec<u8>)
    ensures
        r@ == s@,
{
    let mut out: Vec<u8> = Vec::new();
    let mut i: usize = 0;
    while i < s.len()
        invariant
            i <= s.len(),
            out@ == s@.take(i as int),
        decreases s.len() - i,
    {
        out.push(s[i]);
        assert(s@.take(i + 1) =~= s@.take(i as int).push(s@[i as int]));
        i += 1;
    }
    assert(s@.take(s@.len() as int) =~= s@);
    out
}

/// The value as `tzset` sees it: cut at the first NUL, then one leading `:`
/// removed.
pub open spec fn normalized(value: Seq<u8>) -> Seq<u8> {
    let cut = crate::tzif::until_nul(value);
    if cut.len() > 0 && cut[0] == COLON {
        cut.skip(1)
    } else {
        cut
    }
}

pub fn normalize_value(value: &[u8]) -> (r: &[u8])
    ensures
        r@ == normalized(value@),
{
    let n = crate::tzif::until_zero(value);
    let cut = &value[0..n];
    assert(cut@ =~= value@.take(n as int));
    if n > 0 && cut[0] == COLON {
        let r = &cut[1..n];
        assert(r@ =~= cut@.skip(1));
        r
    } else {
        cut
    }
}

/// Does `../` occur in the value?
pub open spec fn climbs(value: Seq<u8>) -> bool {
    exists|i: int|
        0 <= i < value.len() - 2 && #[trigger] value[i] == 0x2e && value[i + 1] == 0x2e && value[i
            + 2] == SLASH
}

/// What a set-user-ID or set-group-ID process may open: no absolute path but
/// `/etc/localtime` and those that begin with the zone directory, and nothing
/// that contains `../`.
pub open spec fn allowed(value: Seq<u8>) -> bool {
    let inside = default_dir().len() <= value.len() && value.take(default_dir().len() as int)
        == default_dir();
    let bad_absolute = value.len() > 0 && value[0] == SLASH && value != local_file() && !inside;
    !bad_absolute && !climbs(value)
}

pub fn path_allowed_in_secure_mode(value: &[u8]) -> (r: bool)
    ensures
        r == allowed(value@),
{
    let dir = default_dir_bytes();
    let file = local_file_bytes();
    let inside = dir.len() <= value.len() && same_bytes(&value[0..dir.len()], dir.as_slice());
    let bad_absolute = value.len() > 0 && value[0] == SLASH && !same_bytes(value, file.as_slice())
        && !inside;
    if bad_absolute {
        return false;
    }
    if value.len() < 3 {
        return true;
    }
    let mut i: usize = 0;
    while i < value.len() - 2
        invariant
            i <= value@.len() - 2,
            value@.len() >= 3,
            bad_absolute == false,
            forall|j: int|
                0 <= j < i ==> !(#[trigger] value@[j] == 0x2e && value@[j + 1] == 0x2e && value@[j
                    + 2] == SLASH),
        decreases value@.len() - i,
    {
        if value[i] == 0x2e && value[i + 1] == 0x2e && value[i + 2] == SLASH {
            assert(climbs(value@));
            return false;
        }
        i += 1;
    }
    true
}

/// Is this a set-user-ID or set-group-ID process?
pub fn secure_mode(uid: u32, euid: u32, gid: u32, egid: u32) -> (r: bool)
    ensures
        r == (uid != euid || gid != egid),
{
    uid != euid || gid != egid
}

/// The zone directory: `$TZDIR` unless it is empty or the process is
/// privileged.
pub open spec fn dir_of(secure: bool, from_env: Option<Seq<u8>>) -> Seq<u8> {
    match from_env {
        Some(d) if !secure && d.len() > 0 => d,
        _ => default_dir(),
    }
}

pub fn tzdir(secure: bool, from_env: Option<&[u8]>) -> (r: Vec<u8>)
    ensures
        r@ == dir_of(
            secure,
            match from_env {
                Some(d) => Some(d@),
                None => None,
            },
        ),
{
    match from_env {
        Some(d) => {
            if !secure && d.len() > 0 {
                copy_bytes(d)
            } else {
                default_dir_bytes()
            }
        },
        None => default_dir_bytes(),
    }
}

/// The file a normalized value names: as it stands if absolute, else in the
/// zone directory; none if a privileged process may not open it.
pub open spec fn path_of(dir: Seq<u8>, value: Seq<u8>, secure: bool) -> Option<Seq<u8>> {
    if secure && !allowed(value) {
        None
    } else if value.len() > 0 && value[0] == SLASH {
        Some(value)
    } else {
        Some(dir + seq![SLASH] + value)
    }
}

pub fn zone_path(dir: &[u8], value: &[u8], secure: bool) -> (r: Option<Vec<u8>>)
    ensures
        match path_of(dir@, value@, secure) {
            Some(p) => r matches Some(q) && q@ == p,
            None => r is None,
        },
{
    if secure && !path_allowed_in_secure_mode(value) {
        return None;
    }
    if value.len() > 0 && value[0] == SLASH {
        return Some(copy_bytes(value));
    }
    let mut p = copy_bytes(dir);
    p.push(SLASH);
    let mut tail = copy_bytes(value);
    let ghost t = tail@;
    p.append(&mut tail);
    assert(p@ =~= dir@ + seq![SLASH] + t);
    Some(p)
}

// ---------------------------------------------------------------------------
// Opening zone files
// ---------------------------------------------------------------------------

/// Identity of a regular file, as `stat` reports it after following symbolic
/// links. The size and times detect rewrites in place.
#[derive(Debug, Clone, Copy, PartialEq, Eq, Structural)]
pub struct FileId {
    pub dev: u64,
    pub ino: u64,
    pub size: u64,
    pub mtime_sec: i64,
    pub mtime_nsec: i64,
    pub ctime_sec: i64,
    pub ctime_nsec: i64,
}

/// Outcome of opening a zone file.
#[derive(Debug)]
pub enum Opened {
    /// The whole content of the regular file with this identity.
    Bytes(FileId, Vec<u8>),
    /// A regular file, larger than [`MAX_TZIF_BYTES`].
    Rejected(FileId),
    /// Missing, not a regular file, or not readable right now.
    Unusable,
}

/// What to do with a path that was opened without being read.
#[derive(Debug, Clone, Copy, PartialEq, Eq, Structural)]
pub enum HandleVerdict {
    /// Open that very file again, for reading.
    Reopen,
    Reject,
    Unusable,
}

/// Only regular files within the size limit are opened for reading.
pub fn judge_handle(is_file: bool, size: u64) -> (r: HandleVerdict)
    ensures
        r == if !is_file {
            HandleVerdict::Unusable
        } else if size > MAX_TZIF_BYTES {
            HandleVerdict::Reject
        } else {
            HandleVerdict::Reopen
        },
{
    if !is_file {
        HandleVerdict::Unusable
    } else if size > MAX_TZIF_BYTES {
        HandleVerdict::Reject
    } else {
        HandleVerdict::Reopen
    }
}

/// Is what was opened for reading the regular file that was looked at before?
pub fn same_file(is_file: bool, dev: u64, ino: u64, id: &FileId) -> (r: bool)
    ensures
        r == (is_file && dev == id.dev && ino == id.ino),
{
    is_file && dev == id.dev && ino == id.ino
}

/// How many bytes to ask for when at most `cap` are wanted: one more, so that
/// a longer file shows.
pub fn read_limit(cap: u64) -> (r: Option<u64>)
    ensures
        r == if cap < u64::MAX {
            Some((cap + 1) as u64)
        } else {
            None
        },
{
    if cap < u64::MAX {
        Some(cap + 1)
    } else {
        None
    }
}

/// The bytes read, or `None` if there are more than `cap`.
pub fn read_capped(bytes: Vec<u8>, cap: u64) -> (r: Option<Vec<u8>>)
    ensures
        if bytes@.len() > cap {
            r is None
        } else {
            r == Some(bytes)
        },
{
    if bytes.len() as u64 > cap {
        None
    } else {
        Some(bytes)
    }
}

/// The bytes of an opened file, if any.
pub fn opened_bytes(opened: Opened) -> (r: Option<Vec<u8>>)
    ensures
        r == match opened {
            Opened::Bytes(_, bytes) => Some(bytes),
            _ => None,
        },
{
    match opened {
        Opened::Bytes(_, bytes) => Some(bytes),
        _ => None,
    }
}

// ---------------------------------------------------------------------------
// Zones
// ---------------------------------------------------------------------------

/// Time-zone rules selected by a `TZ` value.
#[derive(Debug, PartialEq, Eq)]
pub struct Zone {
    inner: Inner,
}

#[derive(Debug, PartialEq, Eq)]
enum Inner {
    Posix(PosixTz),
    File(Arc<TzFile>),
}

/// What a zone consists of.
pub enum ZoneModel {
    Posix(PosixTz),
    File(crate::tzif::TzModel),
}

impl ZoneModel {
    /// Seconds east of UTC in effect at `t`.
    pub open spec fn offset(self, t: int) -> i32 {
        match self {
            ZoneModel::Posix(p) => p.offset(t),
            ZoneModel::File(f) => f.offset(t),
        }
    }

    /// Leap seconds that `t` counts beyond the wall clock.
    pub open spec fn correction(self, t: int) -> i64 {
        match self {
            ZoneModel::Posix(_) => 0,
            ZoneModel::File(f) => crate::tzif::correction(f.leaps, t),
        }
    }

    pub open spec fn wf(self) -> bool {
        self matches ZoneModel::File(f) ==> f.wf()
    }

    pub open spec fn utc() -> ZoneModel {
        ZoneModel::Posix(PosixTz { standard: Rule::blank(0), daylight: Rule::blank(0) })
    }
}

/// `std::sync::Arc::clone`: a second handle on the same value.
#[verifier::external_body]
pub(crate) fn share(file: &Arc<TzFile>) -> (r: Arc<TzFile>)
    ensures
        r == *file,
{
    Arc::clone(file)
}

/// The zone file with the given content, if it is a usable one.
pub open spec fn file_model(content: Option<Seq<u8>>) -> Option<crate::tzif::TzModel> {
    match content {
        Some(b) => match crate::tzif::tzif(b) {
            Some(raw) => Some(raw.file),
            None => None,
        },
        None => None,
    }
}

/// A normalized value read as a POSIX string, with the content of
/// `posixrules` if that file can be read.
pub open spec fn posix_model(value: Seq<u8>, rules: Option<Seq<u8>>) -> ZoneModel {
    let read = crate::posix_tz::tz_string(value);
    match (read.ruleless, rules) {
        (Some((standard, daylight)), Some(b)) => match crate::tzif::tzif(b) {
            Some(raw) => match crate::tzif::shifted(raw, standard, daylight) {
                Some(f) => ZoneModel::File(f),
                None => ZoneModel::Posix(read.tz),
            },
            None => ZoneModel::Posix(read.tz),
        },
        _ => ZoneModel::Posix(read.tz),
    }
}

/// The zone a `TZ` value selects, given the content of the file it names and
/// that of `posixrules`, `None` for a file that cannot be read.
pub open spec fn zone_model(
    value: Seq<u8>,
    named: Option<Seq<u8>>,
    rules: Option<Seq<u8>>,
) -> ZoneModel {
    let value = normalized(value);
    if value.len() == 0 {
        ZoneModel::utc()
    } else {
        match file_model(named) {
            Some(f) => ZoneModel::File(f),
            None => posix_model(value, rules),
        }
    }
}

/// The view of an optional slice.
pub open spec fn opt_view(s: Option<&[u8]>) -> Option<Seq<u8>> {
    match s {
        Some(b) => Some(b@),
        None => None,
    }
}

/// Reads a zone file; `None` if it is not a usable one.
pub fn usable_file(content: Option<&[u8]>) -> (r: Option<Arc<TzFile>>)
    ensures
        match file_model(opt_view(content)) {
            Some(f) => r matches Some(x) && x@ == f && x@.wf(),
            None => r is None,
        },
{
    match content {
        Some(b) => match parse_tzif(b) {
            Some(raw) => Some(Arc::new(raw.file)),
            None => None,
        },
        None => None,
    }
}

/// Would the value, read as a POSIX string, take its rules from `posixrules`?
pub fn needs_posixrules(value: &[u8]) -> (r: bool)
    ensures
        r == (crate::posix_tz::tz_string(value@).ruleless is Some),
{
    parse_tz_string(value).ruleless.is_some()
}

impl Zone {
    #[verifier::type_invariant]
    spec fn wf(self) -> bool {
        self.inner matches Inner::File(f) ==> f@.wf()
    }

    pub closed spec fn view(&self) -> ZoneModel {
        match self.inner {
            Inner::Posix(p) => ZoneModel::Posix(p),
            Inner::File(f) => ZoneModel::File(f@),
        }
    }

    pub(crate) fn from_file(file: Arc<TzFile>) -> (r: Zone)
        requires
            file@.wf(),
        ensures
            r@ == ZoneModel::File(file@),
    {
        Zone { inner: Inner::File(file) }
    }

    /// UTC.
    pub fn utc() -> (r: Zone)
        ensures
            r@ == ZoneModel::utc(),
    {
        let rule = Rule { kind: RuleKind::J0, m: 0, n: 0, d: 0, secs: 0, offset: 0 };
        Zone { inner: Inner::Posix(PosixTz { standard: rule, daylight: rule }) }
    }

    /// A normalized value read as a POSIX string.
    pub fn from_posix(value: &[u8], rules: Option<&[u8]>) -> (r: Zone)
        ensures
            r@ == posix_model(value@, opt_view(rules)),
    {
        let read = parse_tz_string(value);
        if let Some((standard, daylight)) = read.ruleless {
            if let Some(b) = rules {
                if let Some(raw) = parse_tzif(b) {
                    if let Some(file) = posixrules_default(&raw, standard, daylight) {
                        return Zone { inner: Inner::File(Arc::new(file)) };
                    }
                }
            }
        }
        Zone { inner: Inner::Posix(read.tz) }
    }

    /// Resolve a `TZ` value exactly as glibc's `tzset` does:
    ///  1. strip one leading `:`
    ///  2. try it as a zone file (`named` holds the content of that file);
    ///  3. otherwise parse it as a POSIX string, with the rules of
    ///     `posixrules` (`rules` holds its content) when a daylight name is
    ///     given without rules;
    ///  4. otherwise UTC.
    ///
    /// An empty value (or just `:`) is UTC.
    pub fn from_tz_bytes(value: &[u8], named: Option<&[u8]>, rules: Option<&[u8]>) -> (r: Zone)
        ensures
            r@ == zone_model(value@, opt_view(named), opt_view(rules)),
    {
        let value = normalize_value(value);
        if value.len() == 0 {
            return Zone::utc();
        }
        match usable_file(named) {
            Some(file) => Zone::from_file(file),
            None => Zone::from_posix(value, rules),
        }
    }

    /// [`from_tz_bytes`](Self::from_tz_bytes) for text.
    pub fn from_tz_value(value: &str, named: Option<&[u8]>, rules: Option<&[u8]>) -> (r: Zone)
        ensures
            r@ == zone_model(value.spec_bytes(), opt_view(named), opt_view(rules)),
    {
        Zone::from_tz_bytes(value.as_bytes(), named, rules)
    }

    fn local(&self, t: i64) -> (r: (i32, i64))
        ensures
            r.0 == self@.offset(t as int),
            r.1 == self@.correction(t as int),
    {
        proof {
            use_type_invariant(self);
        }
        match &self.inner {
            Inner::Posix(p) => (p.offset_at(t), 0),
            Inner::File(f) => f.local(t),
        }
    }

    /// Seconds east of UTC in effect at the given Unix time, without any
    /// leap-second correction.
    pub fn utc_offset_at(&self, unix_seconds: i64) -> (r: i32)
        ensures
            r == self@.offset(unix_seconds as int),
    {
        self.local(unix_seconds).0
    }

    /// Wall-clock time in this zone at the given Unix time, with the
    /// leap-second correction, saturating at the representable range.
    pub fn wall_time(&self, unix_seconds: i64) -> (r: WallTime)
        ensures
            r.valid(),
            r.second_number() == saturated(
                unix_seconds + self@.offset(unix_seconds as int) - self@.correction(
                    unix_seconds as int,
                ),
            ),
    {
        let (offset, leap) = self.local(unix_seconds);
        let secs: i128 = unix_seconds as i128 + offset as i128 - leap as i128;
        wall_clock(secs)
    }
}

impl Clone for Zone {
    /// Another handle on the same rules.
    fn clone(&self) -> (r: Zone)
        ensures
            r@ == self@,
    {
        proof {
            use_type_invariant(self);
        }
        match &self.inner {
            Inner::Posix(p) => Zone { inner: Inner::Posix(*p) },
            Inner::File(f) => Zone { inner: Inner::File(share(f)) },
        }
    }
}

/// The representable second nearest to `secs`.
pub open spec fn saturated(secs: int) -> int {
    if secs < crate::calendar::min_second() {
        crate::calendar::min_second()
    } else if secs >= crate::calendar::end_second() {
        crate::calendar::end_second() - 1
    } else {
        secs
    }
}

/// The wall-clock time `secs` seconds after 1970-01-01 00:00:00, saturating.
pub fn wall_clock(secs: i128) -> (r: WallTime)
    ensures
        r.valid(),
        r.second_number() == saturated(secs as int),
{
    let low: i128 = i64::MIN as i128;
    let high: i128 = i64::MAX as i128;
    let clamped: i64 = if secs < low {
        i64::MIN
    } else if secs > high {
        i64::MAX
    } else {
        secs as i64
    };
    proof {
        crate::calendar::lemma_range();
    }
    match from_timestamp(clamped) {
        Some(t) => t,
        None => {
            if clamped < 0 {
                WallTime { year: MIN_YEAR, month: 1, day: 1, hour: 0, minute: 0, second: 0 }
            } else {
                WallTime { year: MAX_YEAR, month: 12, day: 31, hour: 23, minute: 59, second: 59 }
            }
        },
    }
}

// ---------------------------------------------------------------------------
// Laws
// ---------------------------------------------------------------------------

proof fn lemma_places()
    ensures
        default_dir() == "/usr/share/zoneinfo"@.map_values(|c: char| c as u8),
        local_file() == "/etc/localtime"@.map_values(|c: char| c as u8),
        rules_name() == "posixrules"@.map_values(|c: char| c as u8),
{
    reveal_strlit("/usr/share/zoneinfo");
    reveal_strlit("/etc/localtime");
    reveal_strlit("posixrules");
    assert(default_dir() =~= "/usr/share/zoneinfo"@.map_values(|c: char| c as u8));
    assert(local_file() =~= "/etc/localtime"@.map_values(|c: char| c as u8));
    assert(rules_name() =~= "posixrules"@.map_values(|c: char| c as u8));
}

/// Zone files are in `/usr/share/zoneinfo`, local time is that of
/// `/etc/localtime`, and the default rules are called `posixrules`. `TZDIR` names
/// another directory, unless it is empty or the process is privileged.
pub proof fn law_zone_directory(dir: Seq<u8>)
    ensures
        dir_of(false, None) == "/usr/share/zoneinfo"@.map_values(|c: char| c as u8),
        dir_of(true, Some(dir)) == dir_of(false, None),
        dir.len() > 0 ==> dir_of(false, Some(dir)) == dir,
        dir.len() == 0 ==> dir_of(false, Some(dir)) == dir_of(false, None),
        local_file() == "/etc/localtime"@.map_values(|c: char| c as u8),
        rules_name() == "posixrules"@.map_values(|c: char| c as u8),
{
    lemma_places();
}

/// A privileged process opens no file behind a `../`, and no absolute path but
/// that of local time and those that begin with the zone directory's. It opens all
/// others, and any other process opens them all.
pub proof fn law_privileged_paths(value: Seq<u8>, dir: Seq<u8>)
    ensures
        path_of(dir, value, true) is None <==> {
            ||| exists|i: int|
                0 <= i < value.len() - 2 && #[trigger] value[i] == 0x2e && value[i + 1] == 0x2e
                    && value[i + 2] == 0x2f
            ||| value.len() > 0 && value[0] == 0x2f && value != "/etc/localtime"@.map_values(
                |c: char| c as u8,
            ) && !"/usr/share/zoneinfo"@.map_values(|c: char| c as u8).is_prefix_of(value)
        },
        path_of(dir, value, false) is Some,
        path_of(dir, value, true) is Some ==> path_of(dir, value, true) == path_of(
            dir,
            value,
            false,
        ),
{
    lemma_places();
    let d = default_dir();
    if d.len() <= value.len() && value.take(d.len() as int) == d {
        assert(d.is_prefix_of(value));
    }
    if d.is_prefix_of(value) {
        assert(value.take(d.len() as int) =~= d);
    }
}

/// An absolute value is the path itself; any other is looked for in the zone
/// directory.
pub proof fn law_zone_paths(value: Seq<u8>, dir: Seq<u8>)
    ensures
        value.len() > 0 && value[0] == 0x2f ==> path_of(dir, value, false) == Some(value),
        !(value.len() > 0 && value[0] == 0x2f) ==> path_of(dir, value, false) == Some(
            dir + seq![0x2fu8] + value,
        ),
{
}

/// A value ends at its first NUL, and one colon before it does not count.
pub proof fn law_normalized_values(value: Seq<u8>, rest: Seq<u8>)
    requires
        !value.contains(0),
    ensures
        value.len() > 0 && value[0] == 0x3a ==> normalized(value) == value.skip(1),
        !(value.len() > 0 && value[0] == 0x3a) ==> normalized(value) == value,
        normalized(value + seq![0u8] + rest) == normalized(value),
{
    lemma_until_nul(value, seq![]);
    lemma_until_nul(value, seq![0u8] + rest);
    assert(value + Seq::<u8>::empty() =~= value);
    assert(value + seq![0u8] + rest =~= value + (seq![0u8] + rest));
}

proof fn lemma_until_nul(value: Seq<u8>, tail: Seq<u8>)
    requires
        !value.contains(0),
        tail.len() > 0 ==> tail[0] == 0,
    ensures
        crate::tzif::until_nul(value + tail) == value,
    decreases value.len(),
{
    let s = value + tail;
    if value.len() == 0 {
        assert(s =~= tail);
        assert(value =~= seq![]);
    } else {
        let t = value.skip(1);
        assert(value.contains(value[0]));
        assert(!t.contains(0)) by {
            if t.contains(0) {
                let i = choose|i: int| 0 <= i < t.len() && t[i] == 0;
                assert(value[i + 1] == 0);
            }
        }
        lemma_until_nul(t, tail);
        assert(s.skip(1) =~= t + tail);
        assert(seq![s[0]] + t =~= value);
    }
}

/// An empty value is UTC. A value that names a usable zone file is that file's
/// zone, and any other value is read as a POSIX string.
pub proof fn law_zone_of_a_value(
    value: Seq<u8>,
    named: Option<Seq<u8>>,
    rules: Option<Seq<u8>>,
    t: int,
)
    ensures
        normalized(value).len() == 0 ==> zone_model(value, named, rules).offset(t) == 0
            && zone_model(value, named, rules).correction(t) == 0,
        normalized(value).len() > 0 ==> (named matches Some(b) ==> (crate::tzif::tzif(b)
            matches Some(raw) ==> zone_model(value, named, rules) == ZoneModel::File(raw.file))),
        normalized(value).len() > 0 && (named is None || crate::tzif::tzif(named->0) is None)
            ==> zone_model(value, named, rules) == posix_model(normalized(value), rules),
{
}

/// A POSIX string counts as it is written, but for one with a daylight zone and no
/// rules, which takes the default rules if they can be read. It knows no leap
/// seconds then.
pub proof fn law_posix_zones(value: Seq<u8>, rules: Option<Seq<u8>>, t: int)
    ensures
        crate::posix_tz::tz_string(value).ruleless is None || rules is None ==> {
            &&& posix_model(value, rules).offset(t) == crate::posix_tz::tz_string(value).tz.offset(t)
            &&& posix_model(value, rules).correction(t) == 0
        },
{
}

/// Wall-clock times are exact where they can be represented, and otherwise the
/// first or the last one that can.
pub proof fn law_wall_clock(secs: i128, r: WallTime)
    requires
        call_ensures(wall_clock, (secs,), r),
    ensures
        r.valid(),
        crate::calendar::min_second() <= secs < crate::calendar::end_second() ==> r.second_number()
            == secs,
        secs < crate::calendar::min_second() ==> r.second_number() == crate::calendar::min_second(),
        secs >= crate::calendar::end_second() ==> r.second_number() == crate::calendar::end_second()
            - 1,
{
}

/// Wall-clock time in a zone is the instant and the offset then, less the leap
/// seconds.
pub proof fn law_zone_wall_time(zone: Zone, t: i64, r: WallTime)
    requires
        call_ensures(Zone::wall_time, (&zone, t), r),
        crate::calendar::min_second() <= t + zone@.offset(t as int) - zone@.correction(t as int)
            < crate::calendar::end_second(),
    ensures
        r.second_number() == t + zone@.offset(t as int) - zone@.correction(t as int),
{
}

/// Only regular files of a mebibyte at most are opened for reading.
pub proof fn law_zone_files(is_file: bool, size: u64, r: HandleVerdict)
    requires
        call_ensures(judge_handle, (is_file, size), r),
    ensures
        !is_file ==> r == HandleVerdict::Unusable,
        is_file && size > 1048576 ==> r == HandleVerdict::Reject,
        is_file && size <= 1048576 ==> r == HandleVerdict::Reopen,
{
}

/// A file that was opened again is the same one if and only if it is a regular file
/// with the same device and inode.
pub proof fn law_same_file(is_file: bool, dev: u64, ino: u64, id: FileId, r: bool)
    requires
        call_ensures(same_file, (is_file, dev, ino, &id), r),
    ensures
        r <==> is_file && dev == id.dev && ino == id.ino,
{
}

/// What is longer than the cap is not used, and what is not longer is used whole;
/// one byte more is asked for, so that a longer file shows.
pub proof fn law_capped_reads(bytes: Vec<u8>, cap: u64, r: Option<Vec<u8>>, limit: Option<u64>)
    requires
        call_ensures(read_capped, (bytes, cap), r),
        call_ensures(read_limit, (cap,), limit),
    ensures
        bytes@.len() > cap ==> r is None,
        bytes@.len() <= cap ==> r == Some(bytes),
        limit matches Some(n) ==> n == cap + 1,
        limit is None ==> cap == u64::MAX,
{
}

/// A process is privileged as soon as an effective identity is not the real one.
pub proof fn law_secure_mode(uid: u32, euid: u32, gid: u32, egid: u32, r: bool)
    requires
        call_ensures(secure_mode, (uid, euid, gid, egid), r),
    ensures
        r <==> uid != euid || gid != egid,
{
}

} // verus!
