//! A bounded cache of resolved zones for a long-running daemon.
//!
//! Every lookup starts from a fresh `stat` of the file that the value names,
//! so a replaced, rewritten, created or removed zone file is picked up. Zones
//! from files are kept by file identity, so all spellings of one path share a
//! single parsed copy; zones from POSIX strings are kept by the value. The
//! least recently used entry makes room for a new one.
//!
//! The cache does no file access of its own. [`ZoneCache::start`] and the
//! functions after it tell the caller what to look at next, until the zone is
//! known.

use std::sync::Arc;

use vstd::prelude::*;

use crate::tzif::TzFile;
use crate::zone::{
    copy_bytes, needs_posixrules, normalize_value, same_bytes, share, usable_file, FileId, Opened,
    Zone,
};

verus! {

#[derive(Debug)]
enum CacheKey {
    /// A zone file, by identity: every spelling of its path shares the entry.
    File(FileId),
    /// A value resolved as a POSIX string, by its normalized bytes.
    Posix(Vec<u8>),
}

#[derive(Debug)]
enum CacheValue {
    /// The parsed file, or `None` if this exact file is not a usable one.
    File(Option<Arc<TzFile>>),
    Posix {
        zone: Zone,
        /// The zone directory in effect when resolved.
        tzdir: Vec<u8>,
        /// Identity of `posixrules` if the string consulted it.
        posixrules: Option<Option<FileId>>,
    },
}

#[derive(Debug)]
struct CacheEntry {
    key: CacheKey,
    value: CacheValue,
}

/// A bounded cache of resolved zones.
#[derive(Debug)]
pub struct ZoneCache {
    capacity: usize,
    /// Least recently used first.
    entries: Vec<CacheEntry>,
}

pub enum KeyModel {
    File(FileId),
    Posix(Seq<u8>),
}

pub enum ValueModel {
    File(Option<crate::tzif::TzModel>),
    Posix {
        zone: crate::zone::ZoneModel,
        tzdir: Seq<u8>,
        posixrules: Option<Option<FileId>>,
    },
}

pub struct EntryModel {
    pub key: KeyModel,
    pub value: ValueModel,
}

impl CacheKey {
    spec fn view(&self) -> KeyModel {
        match self {
            CacheKey::File(id) => KeyModel::File(*id),
            CacheKey::Posix(v) => KeyModel::Posix(v@),
        }
    }

    fn same(&self, other: &CacheKey) -> (r: bool)
        ensures
            r == (self@ == other@),
    {
        match (self, other) {
            (CacheKey::File(a), CacheKey::File(b)) => *a == *b,
            (CacheKey::Posix(a), CacheKey::Posix(b)) => same_bytes(a.as_slice(), b.as_slice()),
            _ => false,
        }
    }
}

impl CacheValue {
    spec fn view(&self) -> ValueModel {
        match self {
            CacheValue::File(None) => ValueModel::File(None),
            CacheValue::File(Some(f)) => ValueModel::File(Some(f@)),
            CacheValue::Posix { zone, tzdir, posixrules } => ValueModel::Posix {
                zone: zone@,
                tzdir: tzdir@,
                posixrules: *posixrules,
            },
        }
    }

    spec fn wf(&self) -> bool {
        self matches CacheValue::File(Some(f)) ==> f@.wf()
    }
}

impl CacheEntry {
    spec fn view(&self) -> EntryModel {
        EntryModel { key: self.key@, value: self.value@ }
    }
}

// ---------------------------------------------------------------------------
// The model: entries in order of use
// ---------------------------------------------------------------------------

/// Index of the entry with the key, or the length.
pub open spec fn position(entries: Seq<EntryModel>, key: KeyModel) -> int
    decreases entries.len(),
{
    if entries.len() == 0 || entries[0].key == key {
        0
    } else {
        1 + position(entries.skip(1), key)
    }
}

pub open spec fn holds(entries: Seq<EntryModel>, key: KeyModel) -> bool {
    position(entries, key) < entries.len()
}

pub proof fn lemma_position(entries: Seq<EntryModel>, key: KeyModel)
    ensures
        0 <= position(entries, key) <= entries.len(),
        holds(entries, key) ==> entries[position(entries, key)].key == key,
        forall|i: int| 0 <= i < position(entries, key) ==> (#[trigger] entries[i]).key != key,
    decreases entries.len(),
{
    if entries.len() > 0 && entries[0].key != key {
        let t = entries.skip(1);
        lemma_position(t, key);
        assert forall|i: int| 0 <= i < position(entries, key) implies (#[trigger] entries[i]).key
            != key by {
            if i > 0 {
                assert(t[i - 1] == entries[i]);
            }
        }
    }
}

proof fn lemma_position_is(entries: Seq<EntryModel>, key: KeyModel, n: int)
    requires
        0 <= n <= entries.len(),
        n < entries.len() ==> entries[n].key == key,
        forall|i: int| 0 <= i < n ==> (#[trigger] entries[i]).key != key,
    ensures
        position(entries, key) == n,
{
    lemma_position(entries, key);
    let m = position(entries, key);
    if m < n {
        assert(entries[m].key != key);
    } else if n < m {
        assert(entries[n].key != key);
    }
}

/// The entries without the one that has the key.
pub open spec fn without(entries: Seq<EntryModel>, key: KeyModel) -> Seq<EntryModel> {
    if holds(entries, key) {
        entries.remove(position(entries, key))
    } else {
        entries
    }
}

/// The entries after a lookup: the one found becomes the most recently used.
pub open spec fn touched(entries: Seq<EntryModel>, key: KeyModel) -> Seq<EntryModel> {
    if holds(entries, key) {
        without(entries, key).push(entries[position(entries, key)])
    } else {
        entries
    }
}

/// The entries after an insertion.
pub open spec fn stored(
    entries: Seq<EntryModel>,
    capacity: int,
    key: KeyModel,
    value: ValueModel,
) -> Seq<EntryModel> {
    let all = without(entries, key).push(EntryModel { key, value });
    if capacity == 0 {
        entries
    } else if all.len() > capacity {
        all.skip(1)
    } else {
        all
    }
}

/// No key occurs twice, and there are no more than `capacity` entries.
pub open spec fn tidy(entries: Seq<EntryModel>, capacity: int) -> bool {
    &&& entries.len() <= capacity
    &&& forall|i: int, j: int|
        0 <= i < j < entries.len() ==> (#[trigger] entries[i]).key != (#[trigger] entries[j]).key
}

proof fn lemma_without_tidy(entries: Seq<EntryModel>, capacity: int, key: KeyModel)
    requires
        tidy(entries, capacity),
    ensures
        tidy(without(entries, key), capacity),
        forall|i: int|
            0 <= i < without(entries, key).len() ==> (#[trigger] without(entries, key)[i]).key
                != key,
        holds(entries, key) ==> without(entries, key).len() == entries.len() - 1,
{
    lemma_position(entries, key);
    let n = position(entries, key);
    let w = without(entries, key);
    if n < entries.len() {
        assert forall|i: int| 0 <= i < w.len() implies (#[trigger] w[i]).key != key by {
            if i < n {
                assert(w[i] == entries[i]);
            } else {
                assert(w[i] == entries[i + 1]);
                assert(entries[n].key != entries[i + 1].key);
            }
        }
        assert forall|i: int, j: int| 0 <= i < j < w.len() implies (#[trigger] w[i]).key != (
        #[trigger] w[j]).key by {
            let a = if i < n {
                i
            } else {
                i + 1
            };
            let b = if j < n {
                j
            } else {
                j + 1
            };
            assert(w[i] == entries[a]);
            assert(w[j] == entries[b]);
        }
    }
}

pub proof fn lemma_touched_tidy(entries: Seq<EntryModel>, capacity: int, key: KeyModel)
    requires
        tidy(entries, capacity),
    ensures
        tidy(touched(entries, key), capacity),
{
    lemma_without_tidy(entries, capacity, key);
    lemma_position(entries, key);
}

pub proof fn lemma_stored_tidy(
    entries: Seq<EntryModel>,
    capacity: int,
    key: KeyModel,
    value: ValueModel,
)
    requires
        tidy(entries, capacity),
    ensures
        tidy(stored(entries, capacity, key, value), capacity),
{
    lemma_without_tidy(entries, capacity, key);
}

// ---------------------------------------------------------------------------
// The steps of a lookup
// ---------------------------------------------------------------------------

/// What a lookup needs next.
#[derive(Debug)]
pub enum Step {
    /// Nothing: this is the zone.
    Done(Zone),
    /// The outcome of opening the file that the value names; hand it to
    /// [`ZoneCache::opened`].
    Open,
    /// The identity of `posixrules`, for [`ZoneCache::rules_probed`].
    ProbeRules,
    /// The identity of `posixrules` and then its content, for
    /// [`ZoneCache::rules_loaded`].
    LoadRules,
}

pub enum StepModel {
    Done(crate::zone::ZoneModel),
    Open,
    ProbeRules,
    LoadRules,
}

impl Step {
    pub open spec fn view(&self) -> StepModel {
        match self {
            Step::Done(z) => StepModel::Done(z@),
            Step::Open => StepModel::Open,
            Step::ProbeRules => StepModel::ProbeRules,
            Step::LoadRules => StepModel::LoadRules,
        }
    }
}

pub struct CacheModel {
    pub capacity: nat,
    pub entries: Seq<EntryModel>,
}

impl CacheModel {
    pub open spec fn wf(self) -> bool {
        tidy(self.entries, self.capacity as int)
    }

    pub open spec fn touch(self, key: KeyModel) -> CacheModel {
        CacheModel { entries: touched(self.entries, key), ..self }
    }

    pub open spec fn store(self, key: KeyModel, value: ValueModel) -> CacheModel {
        CacheModel { entries: stored(self.entries, self.capacity as int, key, value), ..self }
    }

    /// The value kept for a key.
    pub open spec fn get(self, key: KeyModel) -> Option<ValueModel> {
        if holds(self.entries, key) {
            Some(self.entries[position(self.entries, key)].value)
        } else {
            None
        }
    }

    /// A normalized value that no zone file stands for.
    pub open spec fn posix_step(self, value: Seq<u8>, dir: Seq<u8>) -> (CacheModel, StepModel) {
        let key = KeyModel::Posix(value);
        let after = self.touch(key);
        match self.get(key) {
            Some(ValueModel::Posix { zone, tzdir, posixrules: None }) if tzdir == dir => (
                after,
                StepModel::Done(zone),
            ),
            Some(ValueModel::Posix { zone, tzdir, posixrules: Some(_) }) if tzdir == dir => (
                after,
                StepModel::ProbeRules,
            ),
            _ => after.resolve_step(value, dir),
        }
    }

    /// A normalized value to be resolved anew.
    pub open spec fn resolve_step(self, value: Seq<u8>, dir: Seq<u8>) -> (CacheModel, StepModel) {
        if crate::posix_tz::tz_string(value).ruleless is Some {
            (self, StepModel::LoadRules)
        } else {
            let zone = crate::zone::posix_model(value, None);
            (
                self.store(
                    KeyModel::Posix(value),
                    ValueModel::Posix { zone, tzdir: dir, posixrules: None },
                ),
                StepModel::Done(zone),
            )
        }
    }

    pub open spec fn start_step(
        self,
        value: Seq<u8>,
        dir: Seq<u8>,
        probed: Option<FileId>,
    ) -> (CacheModel, StepModel) {
        let v = crate::zone::normalized(value);
        if v.len() == 0 {
            (self, StepModel::Done(crate::zone::ZoneModel::utc()))
        } else {
            match probed {
                None => self.posix_step(v, dir),
                Some(id) => {
                    let after = self.touch(KeyModel::File(id));
                    match self.get(KeyModel::File(id)) {
                        None => (after, StepModel::Open),
                        Some(ValueModel::File(Some(f))) => (
                            after,
                            StepModel::Done(crate::zone::ZoneModel::File(f)),
                        ),
                        Some(_) => after.posix_step(v, dir),
                    }
                },
            }
        }
    }

    pub open spec fn opened_step(
        self,
        value: Seq<u8>,
        dir: Seq<u8>,
        outcome: Opened,
    ) -> (CacheModel, StepModel) {
        let v = crate::zone::normalized(value);
        match outcome {
            Opened::Bytes(id, bytes) => {
                let file = crate::zone::file_model(Some(bytes@));
                let after = self.store(KeyModel::File(id), ValueModel::File(file));
                match file {
                    Some(f) => (after, StepModel::Done(crate::zone::ZoneModel::File(f))),
                    None => after.posix_step(v, dir),
                }
            },
            Opened::Rejected(id) => self.store(
                KeyModel::File(id),
                ValueModel::File(None),
            ).posix_step(v, dir),
            Opened::Unusable => self.posix_step(v, dir),
        }
    }

    pub open spec fn probed_step(
        self,
        value: Seq<u8>,
        dir: Seq<u8>,
        probe: Option<FileId>,
    ) -> (CacheModel, StepModel) {
        let v = crate::zone::normalized(value);
        match self.get(KeyModel::Posix(v)) {
            Some(ValueModel::Posix { zone, tzdir, posixrules }) if tzdir == dir && posixrules
                == Some(probe) => (self, StepModel::Done(zone)),
            _ => self.resolve_step(v, dir),
        }
    }

    pub open spec fn loaded_step(
        self,
        value: Seq<u8>,
        dir: Seq<u8>,
        probe: Option<FileId>,
        content: Option<Seq<u8>>,
    ) -> (CacheModel, crate::zone::ZoneModel) {
        let v = crate::zone::normalized(value);
        let zone = crate::zone::posix_model(v, content);
        (
            self.store(
                KeyModel::Posix(v),
                ValueModel::Posix { zone, tzdir: dir, posixrules: Some(probe) },
            ),
            zone,
        )
    }
}

/// What is seen of the files during a lookup: the identity of the file that the
/// value names and the outcome of opening it, and the identity and the content
/// of `posixrules`.
#[derive(Debug)]
pub struct Sight {
    pub probed: Option<FileId>,
    pub outcome: Opened,
    pub rules_probe: Option<FileId>,
    pub rules: Option<Vec<u8>>,
}

impl Sight {
    pub open spec fn rules_content(self) -> Option<Seq<u8>> {
        match self.rules {
            Some(b) => Some(b@),
            None => None,
        }
    }
}

impl CacheModel {
    /// A lookup through all its steps: the cache afterwards, and the zone.
    pub open spec fn lookup(self, value: Seq<u8>, dir: Seq<u8>, seen: Sight) -> (
        CacheModel,
        crate::zone::ZoneModel,
    ) {
        let first = self.start_step(value, dir, seen.probed);
        let second = if first.1 is Open {
            first.0.opened_step(value, dir, seen.outcome)
        } else {
            first
        };
        let third = if second.1 is ProbeRules {
            second.0.probed_step(value, dir, seen.rules_probe)
        } else {
            second
        };
        match third.1 {
            StepModel::Done(zone) => (third.0, zone),
            _ => third.0.loaded_step(value, dir, seen.rules_probe, seen.rules_content()),
        }
    }
}

fn same_probe(a: &Option<FileId>, b: &Option<FileId>) -> (r: bool)
    ensures
        r == (*a == *b),
{
    match (a, b) {
        (None, None) => true,
        (Some(x), Some(y)) => *x == *y,
        _ => false,
    }
}

impl ZoneCache {
    spec fn models(entries: Seq<CacheEntry>) -> Seq<EntryModel> {
        entries.map_values(|e: CacheEntry| e@)
    }

    pub closed spec fn view(&self) -> CacheModel {
        CacheModel { capacity: self.capacity as nat, entries: Self::models(self.entries@) }
    }

    pub closed spec fn wf(&self) -> bool {
        &&& self@.wf()
        &&& forall|i: int| 0 <= i < self.entries@.len() ==> (#[trigger] self.entries@[i]).value.wf()
    }

    /// An empty cache holding at most `capacity` entries (`0` caches nothing).
    pub fn new(capacity: usize) -> (r: ZoneCache)
        ensures
            r.wf(),
            r@.capacity == capacity,
            r@.entries == Seq::<EntryModel>::empty(),
    {
        let r = ZoneCache { capacity, entries: Vec::new() };
        assert(r@.entries =~= Seq::<EntryModel>::empty());
        r
    }

    /// Number of entries.
    pub fn len(&self) -> (r: usize)
        ensures
            r == self@.entries.len(),
    {
        self.entries.len()
    }

    /// Number of entries for zone files.
    pub fn file_entries(&self) -> (r: usize)
        ensures
            r == self@.entries.filter(|e: EntryModel| e.key is File).len(),
    {
        let ghost all = self@.entries;
        let ghost p = |e: EntryModel| e.key is File;
        let mut n: usize = 0;
        let mut i: usize = 0;
        assert(all.take(0) =~= Seq::<EntryModel>::empty());
        assert(all.take(0).filter(p).len() == 0) by {
            reveal(Seq::filter);
        }
        while i < self.entries.len()
            invariant
                i <= self.entries@.len(),
                all == self@.entries,
                n == all.take(i as int).filter(p).len(),
                n <= i,
                p == (|e: EntryModel| e.key is File),
            decreases self.entries@.len() - i,
        {
            proof {
                reveal(Seq::filter);
                assert(all.take(i + 1).drop_last() =~= all.take(i as int));
                assert(all.take(i + 1).last() == all[i as int]);
            }
            if let CacheKey::File(_) = self.entries[i].key {
                n += 1;
            }
            i += 1;
        }
        assert(all.take(all.len() as int) =~= all);
        n
    }

    /// Is there an entry for a POSIX string?
    pub fn holds_string(&self, value: &[u8]) -> (r: bool)
        ensures
            r == holds(self@.entries, KeyModel::Posix(value@)),
    {
        let key = CacheKey::Posix(copy_bytes(value));
        self.find(&key) < self.entries.len()
    }

    fn find(&self, key: &CacheKey) -> (r: usize)
        ensures
            r == position(self@.entries, key@),
            r <= self.entries@.len(),
    {
        let mut i: usize = 0;
        while i < self.entries.len() && !self.entries[i].key.same(key)
            invariant
                i <= self.entries@.len(),
                forall|j: int|
                    0 <= j < i ==> (#[trigger] Self::models(self.entries@)[j]).key != key@,
            decreases self.entries@.len() - i,
        {
            i += 1;
        }
        proof {
            lemma_position_is(self@.entries, key@, i as int);
        }
        i
    }

    /// Marks the entry for the key as most recently used; says whether there
    /// is one, which is then the last.
    fn lookup(&mut self, key: &CacheKey) -> (r: bool)
        requires
            old(self).wf(),
        ensures
            final(self).wf(),
            final(self)@ == old(self)@.touch(key@),
            r == holds(old(self)@.entries, key@),
            r ==> final(self).entries@.len() > 0 && Some(final(self).entries@.last().value@)
                == old(self)@.get(key@),
    {
        proof {
            lemma_touched_tidy(self@.entries, self@.capacity as int, key@);
            lemma_position(self@.entries, key@);
        }
        let ghost before = self.entries@;
        let i = self.find(key);
        if i >= self.entries.len() {
            return false;
        }
        let entry = self.entries.remove(i);
        self.entries.push(entry);
        proof {
            assert(self.entries@ =~= before.remove(i as int).push(before[i as int]));
            assert(Self::models(self.entries@) =~= touched(Self::models(before), key@));
            assert forall|j: int| 0 <= j < self.entries@.len() implies (
            #[trigger] self.entries@[j]).value.wf() by {
                if j < i {
                    assert(self.entries@[j] == before[j]);
                } else if j < self.entries@.len() - 1 {
                    assert(self.entries@[j] == before[j + 1]);
                }
            }
        }
        true
    }

    /// Store `value`, evicting the least recently used entry beyond capacity.
    fn insert(&mut self, key: CacheKey, value: CacheValue)
        requires
            old(self).wf(),
            value.wf(),
        ensures
            final(self).wf(),
            final(self)@ == old(self)@.store(key@, value@),
    {
        if self.capacity == 0 {
            return;
        }
        proof {
            lemma_stored_tidy(self@.entries, self@.capacity as int, key@, value@);
            lemma_without_tidy(self@.entries, self@.capacity as int, key@);
            lemma_position(self@.entries, key@);
        }
        let ghost before = self.entries@;
        let ghost k = key@;
        let ghost v = value@;
        let i = self.find(&key);
        if i < self.entries.len() {
            self.entries.remove(i);
            assert(Self::models(self.entries@) =~= Self::models(before).remove(i as int));
        }
        let ghost middle = self.entries@;
        assert(Self::models(middle) == without(Self::models(before), k));
        assert forall|j: int| 0 <= j < middle.len() implies (#[trigger] middle[j]).value.wf() by {
            if i < before.len() && j >= i {
                assert(middle[j] == before[j + 1]);
            } else {
                assert(middle[j] == before[j]);
            }
        }
        self.entries.push(CacheEntry { key, value });
        let ghost pushed = self.entries@;
        assert(Self::models(pushed) =~= Self::models(middle).push(EntryModel { key: k, value: v }));
        if self.entries.len() > self.capacity {
            self.entries.remove(0);
            assert(Self::models(self.entries@) =~= Self::models(pushed).skip(1));
        }
        assert forall|j: int| 0 <= j < self.entries@.len() implies (
        #[trigger] self.entries@[j]).value.wf() by {
            if self.entries@.len() < pushed.len() {
                assert(self.entries@[j] == pushed[j + 1]);
            }
        }
    }

    fn resolve(&mut self, value: &[u8], dir: &[u8]) -> (r: Step)
        requires
            old(self).wf(),
        ensures
            final(self).wf(),
            (final(self)@, r@) == old(self)@.resolve_step(value@, dir@),
    {
        if needs_posixrules(value) {
            return Step::LoadRules;
        }
        let zone = Zone::from_posix(value, None);
        let kept = zone.clone();
        self.insert(
            CacheKey::Posix(copy_bytes(value)),
            CacheValue::Posix { zone: kept, tzdir: copy_bytes(dir), posixrules: None },
        );
        Step::Done(zone)
    }

    fn posix(&mut self, value: &[u8], dir: &[u8]) -> (r: Step)
        requires
            old(self).wf(),
        ensures
            final(self).wf(),
            (final(self)@, r@) == old(self)@.posix_step(value@, dir@),
    {
        let key = CacheKey::Posix(copy_bytes(value));
        if self.lookup(&key) {
            let last: usize = self.entries.len() - 1;
            if let CacheValue::Posix { zone, tzdir, posixrules } = &self.entries[last].value {
                if same_bytes(tzdir.as_slice(), dir) {
                    return match posixrules {
                        None => Step::Done(zone.clone()),
                        Some(_) => Step::ProbeRules,
                    };
                }
            }
        }
        self.resolve(value, dir)
    }

    /// Begins to resolve a `TZ` value. `dir` is the zone directory, `probed`
    /// the identity of the regular file that the value names, if there is one
    /// that may be opened.
    pub fn start(&mut self, value: &[u8], dir: &[u8], probed: Option<FileId>) -> (r: Step)
        requires
            old(self).wf(),
        ensures
            final(self).wf(),
            (final(self)@, r@) == old(self)@.start_step(value@, dir@, probed),
    {
        let value = normalize_value(value);
        if value.len() == 0 {
            return Step::Done(Zone::utc());
        }
        if let Some(id) = probed {
            if !self.lookup(&CacheKey::File(id)) {
                return Step::Open;
            }
            let last: usize = self.entries.len() - 1;
            assert(self.entries@[last as int].value.wf());
            if let CacheValue::File(Some(file)) = &self.entries[last].value {
                return Step::Done(Zone::from_file(share(file)));
            }
        }
        self.posix(value, dir)
    }

    /// Goes on after [`Step::Open`].
    pub fn opened(&mut self, value: &[u8], dir: &[u8], outcome: Opened) -> (r: Step)
        requires
            old(self).wf(),
        ensures
            final(self).wf(),
            (final(self)@, r@) == old(self)@.opened_step(value@, dir@, outcome),
    {
        let value = normalize_value(value);
        match outcome {
            Opened::Bytes(id, bytes) => {
                match usable_file(Some(bytes.as_slice())) {
                    Some(file) => {
                        let kept = share(&file);
                        self.insert(CacheKey::File(id), CacheValue::File(Some(kept)));
                        return Step::Done(Zone::from_file(file));
                    },
                    None => {
                        self.insert(CacheKey::File(id), CacheValue::File(None));
                    },
                }
            },
            Opened::Rejected(id) => {
                self.insert(CacheKey::File(id), CacheValue::File(None));
            },
            Opened::Unusable => {},
        }
        self.posix(value, dir)
    }

    /// Goes on after [`Step::ProbeRules`], with the identity of the regular
    /// file `posixrules`, if there is one.
    pub fn rules_probed(&mut self, value: &[u8], dir: &[u8], probe: Option<FileId>) -> (r: Step)
        requires
            old(self).wf(),
        ensures
            final(self).wf(),
            (final(self)@, r@) == old(self)@.probed_step(value@, dir@, probe),
    {
        let value = normalize_value(value);
        let key = CacheKey::Posix(copy_bytes(value));
        let i = self.find(&key);
        if i < self.entries.len() {
            if let CacheValue::Posix { zone, tzdir, posixrules } = &self.entries[i].value {
                if same_bytes(tzdir.as_slice(), dir) {
                    if let Some(id) = posixrules {
                        if same_probe(id, &probe) {
                            return Step::Done(zone.clone());
                        }
                    }
                }
            }
        }
        self.resolve(value, dir)
    }

    /// Ends a lookup after [`Step::LoadRules`], with the identity of
    /// `posixrules` and then its content.
    pub fn rules_loaded(
        &mut self,
        value: &[u8],
        dir: &[u8],
        probe: Option<FileId>,
        content: Option<&[u8]>,
    ) -> (r: Zone)
        requires
            old(self).wf(),
        ensures
            final(self).wf(),
            (final(self)@, r@) == old(self)@.loaded_step(
                value@,
                dir@,
                probe,
                crate::zone::opt_view(content),
            ),
    {
        let value = normalize_value(value);
        let zone = Zone::from_posix(value, content);
        let kept = zone.clone();
        self.insert(
            CacheKey::Posix(copy_bytes(value)),
            CacheValue::Posix { zone: kept, tzdir: copy_bytes(dir), posixrules: Some(probe) },
        );
        zone
    }
}

impl ZoneCache {
    /// Resolves a `TZ` value for a caller who has looked at the files already:
    /// runs [`start`](Self::start) and the functions after it to the end.
    pub fn get(&mut self, value: &[u8], dir: &[u8], seen: Sight) -> (r: Zone)
        requires
            old(self).wf(),
        ensures
            final(self).wf(),
            (final(self)@, r@) == old(self)@.lookup(value@, dir@, seen),
    {
        let mut step = self.start(value, dir, seen.probed);
        if let Step::Open = step {
            step = self.opened(value, dir, seen.outcome);
        }
        if let Step::ProbeRules = step {
            step = self.rules_probed(value, dir, seen.rules_probe);
        }
        match step {
            Step::Done(zone) => zone,
            _ => match &seen.rules {
                Some(bytes) => self.rules_loaded(
                    value,
                    dir,
                    seen.rules_probe,
                    Some(bytes.as_slice()),
                ),
                None => self.rules_loaded(value, dir, seen.rules_probe, None),
            },
        }
    }
}

// ---------------------------------------------------------------------------
// Laws
// ---------------------------------------------------------------------------

/// What reading a file gives: its bytes, by identity, or nothing.
pub type World = Map<FileId, Option<Seq<u8>>>;

pub open spec fn content(world: World, id: Option<FileId>) -> Option<Seq<u8>> {
    match id {
        Some(id) => world[id],
        None => None,
    }
}

/// Does the entry hold what resolving anew would give?
#[verifier::opaque]
pub open spec fn faithful_entry(e: EntryModel, world: World) -> bool {
    match (e.key, e.value) {
        (KeyModel::File(id), ValueModel::File(f)) => f == crate::zone::file_model(world[id]),
        (KeyModel::Posix(value), ValueModel::Posix { zone, posixrules: None, .. }) => zone
            == crate::zone::posix_model(value, None) && crate::posix_tz::tz_string(
            value,
        ).ruleless is None,
        (KeyModel::Posix(value), ValueModel::Posix { zone, posixrules: Some(id), .. }) => zone
            == crate::zone::posix_model(value, content(world, id)),
        _ => false,
    }
}

pub open spec fn faithful(c: CacheModel, world: World) -> bool {
    forall|i: int| 0 <= i < c.entries.len() ==> faithful_entry(#[trigger] c.entries[i], world)
}

proof fn lemma_faithful_touch(c: CacheModel, world: World, key: KeyModel)
    requires
        faithful(c, world),
    ensures
        faithful(c.touch(key), world),
        c.get(key) matches Some(v) ==> faithful_entry(EntryModel { key, value: v }, world),
{
    lemma_position(c.entries, key);
    let n = position(c.entries, key);
    if n < c.entries.len() {
        let t = touched(c.entries, key);
        let e = c.entries[n];
        assert(faithful_entry(e, world));
        assert(c.get(key) == Some(e.value));
        assert(e == (EntryModel { key, value: e.value }));
        assert forall|i: int| 0 <= i < t.len() implies faithful_entry(#[trigger] t[i], world) by {
            if i < n {
                assert(t[i] == c.entries[i]);
            } else if i < t.len() - 1 {
                assert(t[i] == c.entries[i + 1]);
            } else {
                assert(t[i] == c.entries[n]);
            }
        }
    }
}

proof fn lemma_faithful_store(c: CacheModel, world: World, key: KeyModel, value: ValueModel)
    requires
        faithful(c, world),
        faithful_entry(EntryModel { key, value }, world),
    ensures
        faithful(c.store(key, value), world),
{
    lemma_position(c.entries, key);
    let n = position(c.entries, key);
    let w = without(c.entries, key);
    assert forall|i: int| 0 <= i < w.len() implies faithful_entry(#[trigger] w[i], world) by {
        if n < c.entries.len() && i >= n {
            assert(w[i] == c.entries[i + 1]);
        } else {
            assert(w[i] == c.entries[i]);
        }
    }
    let s = c.store(key, value).entries;
    let all = w.push(EntryModel { key, value });
    assert forall|i: int| 0 <= i < s.len() implies faithful_entry(#[trigger] s[i], world) by {
        if c.capacity == 0 {
            assert(s[i] == c.entries[i]);
        } else if all.len() > c.capacity {
            assert(s[i] == all[i + 1]);
        } else {
            assert(s[i] == all[i]);
        }
    }
}

proof fn lemma_faithful_resolve(c: CacheModel, world: World, value: Seq<u8>, dir: Seq<u8>)
    requires
        faithful(c, world),
    ensures
        faithful(c.resolve_step(value, dir).0, world),
        c.resolve_step(value, dir).1 matches StepModel::Done(z) ==> forall|rules: Option<Seq<u8>>|
            z == #[trigger] crate::zone::posix_model(value, rules),
{
    reveal(faithful_entry);
    if crate::posix_tz::tz_string(value).ruleless is None {
        lemma_faithful_store(
            c,
            world,
            KeyModel::Posix(value),
            ValueModel::Posix {
                zone: crate::zone::posix_model(value, None),
                tzdir: dir,
                posixrules: None,
            },
        );
    }
}

proof fn lemma_faithful_posix(c: CacheModel, world: World, value: Seq<u8>, dir: Seq<u8>)
    requires
        faithful(c, world),
    ensures
        faithful(c.posix_step(value, dir).0, world),
        c.posix_step(value, dir).1 matches StepModel::Done(z) ==> forall|rules: Option<Seq<u8>>|
            z == #[trigger] crate::zone::posix_model(value, rules),
{
    reveal(faithful_entry);
    let key = KeyModel::Posix(value);
    lemma_faithful_touch(c, world, key);
    lemma_faithful_resolve(c.touch(key), world, value, dir);
}

/// A lookup that ends at once gives the zone that resolving the value anew
/// would give, and keeps the cache true to the files.
pub proof fn law_start_is_transparent(
    c: CacheModel,
    world: World,
    value: Seq<u8>,
    dir: Seq<u8>,
    probed: Option<FileId>,
)
    requires
        faithful(c, world),
    ensures
        faithful(c.start_step(value, dir, probed).0, world),
        c.start_step(value, dir, probed).1 matches StepModel::Done(z) ==> forall|
            rules: Option<Seq<u8>>,
        |
            z == #[trigger] crate::zone::zone_model(value, content(world, probed), rules),
{
    reveal(faithful_entry);
    let v = crate::zone::normalized(value);
    if v.len() > 0 {
        match probed {
            None => {
                lemma_faithful_posix(c, world, v, dir);
                if let StepModel::Done(z) = c.posix_step(v, dir).1 {
                    assert forall|rules: Option<Seq<u8>>|
                        z == #[trigger] crate::zone::zone_model(
                            value,
                            content(world, probed),
                            rules,
                        ) by {
                        assert(z == crate::zone::posix_model(v, rules));
                    }
                }
            },
            Some(id) => {
                let key = KeyModel::File(id);
                lemma_faithful_touch(c, world, key);
                lemma_faithful_posix(c.touch(key), world, v, dir);
                if let StepModel::Done(z) = c.start_step(value, dir, probed).1 {
                    assert forall|rules: Option<Seq<u8>>|
                        z == #[trigger] crate::zone::zone_model(
                            value,
                            content(world, probed),
                            rules,
                        ) by {
                        if crate::zone::file_model(world[id]) is None {
                            assert(z == crate::zone::posix_model(v, rules));
                        }
                    }
                }
            },
        }
    }
}

/// Is the outcome of opening a file what the world has of it?
pub open spec fn opened_from(outcome: Opened, world: World) -> bool {
    match outcome {
        Opened::Bytes(id, bytes) => world[id] == Some(bytes@),
        Opened::Rejected(id) => world[id] == None::<Seq<u8>>,
        Opened::Unusable => true,
    }
}

pub open spec fn opened_content(outcome: Opened) -> Option<Seq<u8>> {
    match outcome {
        Opened::Bytes(_, bytes) => Some(bytes@),
        _ => None,
    }
}

/// The same of a lookup that had to open the file.
pub proof fn law_opened_is_transparent(
    c: CacheModel,
    world: World,
    value: Seq<u8>,
    dir: Seq<u8>,
    outcome: Opened,
)
    requires
        faithful(c, world),
        opened_from(outcome, world),
        crate::zone::normalized(value).len() > 0,
    ensures
        faithful(c.opened_step(value, dir, outcome).0, world),
        c.opened_step(value, dir, outcome).1 matches StepModel::Done(z) ==> forall|
            rules: Option<Seq<u8>>,
        |
            z == #[trigger] crate::zone::zone_model(value, opened_content(outcome), rules),
{
    reveal(faithful_entry);
    let v = crate::zone::normalized(value);
    let after = match outcome {
        Opened::Bytes(id, bytes) => c.store(
            KeyModel::File(id),
            ValueModel::File(crate::zone::file_model(Some(bytes@))),
        ),
        Opened::Rejected(id) => c.store(KeyModel::File(id), ValueModel::File(None)),
        Opened::Unusable => c,
    };
    match outcome {
        Opened::Bytes(id, bytes) => {
            lemma_faithful_store(
                c,
                world,
                KeyModel::File(id),
                ValueModel::File(crate::zone::file_model(Some(bytes@))),
            );
        },
        Opened::Rejected(id) => {
            lemma_faithful_store(c, world, KeyModel::File(id), ValueModel::File(None));
        },
        Opened::Unusable => {},
    }
    lemma_faithful_posix(after, world, v, dir);
    if let StepModel::Done(z) = c.opened_step(value, dir, outcome).1 {
        assert forall|rules: Option<Seq<u8>>|
            z == #[trigger] crate::zone::zone_model(value, opened_content(outcome), rules) by {
            if crate::zone::file_model(opened_content(outcome)) is None {
                assert(z == crate::zone::posix_model(v, rules));
            }
        }
    }
}

/// The same of a string whose rules come from `posixrules`, whether they are
/// still those that were kept or had to be read again.
pub proof fn law_rules_are_transparent(
    c: CacheModel,
    world: World,
    value: Seq<u8>,
    dir: Seq<u8>,
    probe: Option<FileId>,
)
    requires
        faithful(c, world),
    ensures
        ({
            let v = crate::zone::normalized(value);
            let rules = content(world, probe);
            &&& faithful(c.probed_step(value, dir, probe).0, world)
            &&& c.probed_step(value, dir, probe).1 matches StepModel::Done(z) ==> z
                == crate::zone::posix_model(v, rules)
            &&& faithful(c.loaded_step(value, dir, probe, rules).0, world)
            &&& c.loaded_step(value, dir, probe, rules).1 == crate::zone::posix_model(v, rules)
        }),
{
    reveal(faithful_entry);
    let v = crate::zone::normalized(value);
    let rules = content(world, probe);
    lemma_faithful_touch(c, world, KeyModel::Posix(v));
    lemma_faithful_resolve(c, world, v, dir);
    if let StepModel::Done(z) = c.resolve_step(v, dir).1 {
        assert(z == crate::zone::posix_model(v, rules));
    }
    lemma_faithful_store(
        c,
        world,
        KeyModel::Posix(v),
        ValueModel::Posix {
            zone: crate::zone::posix_model(v, rules),
            tzdir: dir,
            posixrules: Some(probe),
        },
    );
}

/// Is what a lookup sees of the files what the world has of them?
pub open spec fn truthful(seen: Sight, world: World) -> bool {
    &&& seen.probed matches Some(id) ==> match seen.outcome {
        Opened::Bytes(i, bytes) => i == id && world[id] == Some(bytes@),
        Opened::Rejected(i) => i == id && world[id] == None::<Seq<u8>>,
        Opened::Unusable => world[id] == None::<Seq<u8>>,
    }
    &&& seen.rules_content() == content(world, seen.rules_probe)
}

proof fn lemma_lookup_faithful(c: CacheModel, world: World, value: Seq<u8>, dir: Seq<u8>, seen: Sight)
    requires
        faithful(c, world),
        truthful(seen, world),
    ensures
        faithful(c.lookup(value, dir, seen).0, world),
        c.lookup(value, dir, seen).1 == crate::zone::zone_model(
            value,
            content(world, seen.probed),
            content(world, seen.rules_probe),
        ),
{
    let v = crate::zone::normalized(value);
    let named = content(world, seen.probed);
    let rules = content(world, seen.rules_probe);
    let first = c.start_step(value, dir, seen.probed);
    law_start_is_transparent(c, world, value, dir, seen.probed);
    if let StepModel::Done(z) = first.1 {
        assert(z == crate::zone::zone_model(value, named, rules));
    }
    let second = if first.1 is Open {
        first.0.opened_step(value, dir, seen.outcome)
    } else {
        first
    };
    if first.1 is Open {
        assert(opened_content(seen.outcome) == named);
        law_opened_is_transparent(first.0, world, value, dir, seen.outcome);
        if let StepModel::Done(z) = second.1 {
            assert(z == crate::zone::zone_model(value, opened_content(seen.outcome), rules));
        }
    }
    lemma_no_usable_file(c, world, value, dir, seen);
    if !(second.1 is Done) {
        assert(v.len() > 0);
        assert(crate::zone::zone_model(value, named, rules) == crate::zone::posix_model(v, rules));
    }
    law_rules_are_transparent(second.0, world, value, dir, seen.rules_probe);
    if second.1 is ProbeRules {
        let third = second.0.probed_step(value, dir, seen.rules_probe);
        law_rules_are_transparent(third.0, world, value, dir, seen.rules_probe);
    }
}

/// A lookup that goes on to the rules found no usable file.
proof fn lemma_no_usable_file(c: CacheModel, world: World, value: Seq<u8>, dir: Seq<u8>, seen: Sight)
    requires
        faithful(c, world),
        truthful(seen, world),
    ensures
        ({
            let first = c.start_step(value, dir, seen.probed);
            let second = if first.1 is Open {
                first.0.opened_step(value, dir, seen.outcome)
            } else {
                first
            };
            !(second.1 is Done) ==> {
                &&& crate::zone::normalized(value).len() > 0
                &&& crate::zone::file_model(content(world, seen.probed)) is None
                &&& !(second.1 is Open)
            }
        }),
{
    reveal(faithful_entry);
    if let Some(id) = seen.probed {
        lemma_faithful_touch(c, world, KeyModel::File(id));
    }
}

proof fn lemma_lookup_tidy(c: CacheModel, value: Seq<u8>, dir: Seq<u8>, seen: Sight)
    requires
        c.wf(),
    ensures
        c.lookup(value, dir, seen).0.wf(),
        c.lookup(value, dir, seen).0.capacity == c.capacity,
{
    let first = c.start_step(value, dir, seen.probed);
    lemma_start_tidy(c, value, dir, seen.probed);
    let second = if first.1 is Open {
        first.0.opened_step(value, dir, seen.outcome)
    } else {
        first
    };
    lemma_opened_tidy(first.0, value, dir, seen.outcome);
    lemma_probed_tidy(second.0, value, dir, seen.rules_probe);
    let third = if second.1 is ProbeRules {
        second.0.probed_step(value, dir, seen.rules_probe)
    } else {
        second
    };
    let v = crate::zone::normalized(value);
    lemma_stored_tidy(
        third.0.entries,
        third.0.capacity as int,
        KeyModel::Posix(v),
        ValueModel::Posix {
            zone: crate::zone::posix_model(v, seen.rules_content()),
            tzdir: dir,
            posixrules: Some(seen.rules_probe),
        },
    );
}

proof fn lemma_resolve_tidy(c: CacheModel, value: Seq<u8>, dir: Seq<u8>)
    requires
        c.wf(),
    ensures
        c.resolve_step(value, dir).0.wf(),
        c.resolve_step(value, dir).0.capacity == c.capacity,
{
    lemma_stored_tidy(
        c.entries,
        c.capacity as int,
        KeyModel::Posix(value),
        ValueModel::Posix {
            zone: crate::zone::posix_model(value, None),
            tzdir: dir,
            posixrules: None,
        },
    );
}

proof fn lemma_posix_tidy(c: CacheModel, value: Seq<u8>, dir: Seq<u8>)
    requires
        c.wf(),
    ensures
        c.posix_step(value, dir).0.wf(),
        c.posix_step(value, dir).0.capacity == c.capacity,
{
    let key = KeyModel::Posix(value);
    lemma_touched_tidy(c.entries, c.capacity as int, key);
    lemma_resolve_tidy(c.touch(key), value, dir);
}

proof fn lemma_start_tidy(c: CacheModel, value: Seq<u8>, dir: Seq<u8>, probed: Option<FileId>)
    requires
        c.wf(),
    ensures
        c.start_step(value, dir, probed).0.wf(),
        c.start_step(value, dir, probed).0.capacity == c.capacity,
{
    let v = crate::zone::normalized(value);
    lemma_posix_tidy(c, v, dir);
    if let Some(id) = probed {
        lemma_touched_tidy(c.entries, c.capacity as int, KeyModel::File(id));
        lemma_posix_tidy(c.touch(KeyModel::File(id)), v, dir);
    }
}

proof fn lemma_opened_tidy(c: CacheModel, value: Seq<u8>, dir: Seq<u8>, outcome: Opened)
    requires
        c.wf(),
    ensures
        c.opened_step(value, dir, outcome).0.wf(),
        c.opened_step(value, dir, outcome).0.capacity == c.capacity,
{
    let v = crate::zone::normalized(value);
    match outcome {
        Opened::Bytes(id, bytes) => {
            let kept = ValueModel::File(crate::zone::file_model(Some(bytes@)));
            lemma_stored_tidy(c.entries, c.capacity as int, KeyModel::File(id), kept);
            lemma_posix_tidy(c.store(KeyModel::File(id), kept), v, dir);
        },
        Opened::Rejected(id) => {
            let kept = ValueModel::File(None);
            lemma_stored_tidy(c.entries, c.capacity as int, KeyModel::File(id), kept);
            lemma_posix_tidy(c.store(KeyModel::File(id), kept), v, dir);
        },
        Opened::Unusable => {
            lemma_posix_tidy(c, v, dir);
        },
    }
}

proof fn lemma_probed_tidy(c: CacheModel, value: Seq<u8>, dir: Seq<u8>, probe: Option<FileId>)
    requires
        c.wf(),
    ensures
        c.probed_step(value, dir, probe).0.wf(),
        c.probed_step(value, dir, probe).0.capacity == c.capacity,
{
    lemma_resolve_tidy(c, crate::zone::normalized(value), dir);
}

/// One lookup: the value, the zone directory, and what is seen of the files.
pub struct Lookup {
    pub value: Seq<u8>,
    pub dir: Seq<u8>,
    pub seen: Sight,
}

/// A new cache after a number of lookups.
pub open spec fn after_lookups(capacity: nat, history: Seq<Lookup>) -> CacheModel
    decreases history.len(),
{
    if history.len() == 0 {
        CacheModel { capacity, entries: seq![] }
    } else {
        let l = history.last();
        after_lookups(capacity, history.drop_last()).lookup(l.value, l.dir, l.seen).0
    }
}

/// Whatever was looked up before, a lookup gives the zone that resolving the
/// value anew would give, and the cache holds no more entries than its capacity
/// afterwards. Files and the zone directory may be others from one lookup to the
/// next: a file that changes gets another identity.
pub proof fn law_lookups_are_transparent(
    capacity: nat,
    history: Seq<Lookup>,
    world: World,
    value: Seq<u8>,
    dir: Seq<u8>,
    seen: Sight,
)
    requires
        forall|i: int| 0 <= i < history.len() ==> truthful((#[trigger] history[i]).seen, world),
        truthful(seen, world),
    ensures
        ({
            let (after, zone) = after_lookups(capacity, history).lookup(value, dir, seen);
            &&& zone == crate::zone::zone_model(
                value,
                content(world, seen.probed),
                content(world, seen.rules_probe),
            )
            &&& faithful(after, world)
            &&& after.wf()
            &&& after.capacity == capacity
            &&& after.entries.len() <= capacity
        }),
{
    lemma_history(capacity, history, world);
    let c = after_lookups(capacity, history);
    lemma_lookup_faithful(c, world, value, dir, seen);
    lemma_lookup_tidy(c, value, dir, seen);
}

proof fn lemma_history(capacity: nat, history: Seq<Lookup>, world: World)
    requires
        forall|i: int| 0 <= i < history.len() ==> truthful((#[trigger] history[i]).seen, world),
    ensures
        faithful(after_lookups(capacity, history), world),
        after_lookups(capacity, history).wf(),
        after_lookups(capacity, history).capacity == capacity,
    decreases history.len(),
{
    if history.len() > 0 {
        let before = history.drop_last();
        let l = history.last();
        assert(l == history[history.len() - 1]);
        assert forall|i: int| 0 <= i < before.len() implies truthful(
            (#[trigger] before[i]).seen,
            world,
        ) by {
            assert(before[i] == history[i]);
        }
        lemma_history(capacity, before, world);
        let c = after_lookups(capacity, before);
        lemma_lookup_faithful(c, world, l.value, l.dir, l.seen);
        lemma_lookup_tidy(c, l.value, l.dir, l.seen);
    }
}

/// Storing an entry evicts at most the least recently used one: every other
/// entry that does not have the same key is kept, in the same order.
pub proof fn law_evicts_least_recently_used(c: CacheModel, key: KeyModel, value: ValueModel)
    requires
        c.wf(),
        c.capacity > 0,
    ensures
        c.store(key, value).wf(),
        c.store(key, value).entries.last() == (EntryModel { key, value }),
        ({
            let kept = c.store(key, value).entries.drop_last();
            let rest = without(c.entries, key);
            kept == rest || (rest.len() == c.capacity && kept == rest.skip(1))
        }),
{
    lemma_stored_tidy(c.entries, c.capacity as int, key, value);
    lemma_without_tidy(c.entries, c.capacity as int, key);
    let rest = without(c.entries, key);
    let all = rest.push(EntryModel { key, value });
    let s = c.store(key, value).entries;
    if all.len() > c.capacity {
        assert(s.drop_last() =~= rest.skip(1));
    } else {
        assert(s.drop_last() =~= rest);
    }
}

impl ZoneCache {
    /// A cache never holds more entries than its capacity.
    pub proof fn law_capacity(&self)
        requires
            self.wf(),
        ensures
            self@.entries.len() <= self@.capacity,
    {
    }
}

proof fn lemma_place(c: CacheModel, i: int)
    requires
        c.wf(),
        0 <= i < c.entries.len(),
    ensures
        position(c.entries, c.entries[i].key) == i,
        c.get(c.entries[i].key) == Some(c.entries[i].value),
        c.touch(c.entries[i].key).entries == c.entries.remove(i).push(c.entries[i]),
        i == c.entries.len() - 1 ==> c.touch(c.entries[i].key) == c,
{
    let key = c.entries[i].key;
    assert forall|j: int| 0 <= j < i implies (#[trigger] c.entries[j]).key != key by {
        assert(c.entries[j].key != c.entries[i].key);
    }
    lemma_position_is(c.entries, key, i);
    if i == c.entries.len() - 1 {
        assert(c.entries.remove(i).push(c.entries[i]) =~= c.entries);
    }
}

/// An entry that is used becomes the most recently used one, and the others keep
/// their order. A key that no entry has changes nothing.
pub proof fn law_used_entries_come_last(c: CacheModel, key: KeyModel)
    requires
        c.wf(),
    ensures
        forall|i: int|
            0 <= i < c.entries.len() && (#[trigger] c.entries[i]).key == key ==> c.touch(
                key,
            ).entries == c.entries.remove(i).push(c.entries[i]) && c.get(key) == Some(
                c.entries[i].value,
            ),
        (forall|i: int| 0 <= i < c.entries.len() ==> (#[trigger] c.entries[i]).key != key) ==> c.touch(
            key,
        ) == c && c.get(key) is None,
        c.touch(key).capacity == c.capacity,
{
    assert forall|i: int| 0 <= i < c.entries.len() && (#[trigger] c.entries[i]).key == key implies c.touch(
        key,
    ).entries == c.entries.remove(i).push(c.entries[i]) && c.get(key) == Some(
        c.entries[i].value,
    ) by {
        lemma_place(c, i);
    }
    lemma_position(c.entries, key);
}

/// A zone file is read once: while it stays the same file, every value that names
/// it gets the zone out of the cache. Using it makes it the most recently used.
pub proof fn law_files_are_read_once(
    c: CacheModel,
    value: Seq<u8>,
    dir: Seq<u8>,
    id: FileId,
    bytes: Vec<u8>,
    other: Seq<u8>,
    other_dir: Seq<u8>,
)
    requires
        c.wf(),
        c.capacity > 0,
        crate::zone::file_model(Some(bytes@)) is Some,
        crate::zone::normalized(other).len() > 0,
    ensures
        ({
            let zone = crate::zone::ZoneModel::File(crate::zone::file_model(Some(bytes@)).unwrap());
            let (after, step) = c.opened_step(value, dir, Opened::Bytes(id, bytes));
            &&& step == StepModel::Done(zone)
            &&& after.start_step(other, other_dir, Some(id)) == (after, StepModel::Done(zone))
        }),
        c.get(KeyModel::File(id)) matches Some(ValueModel::File(Some(f))) ==> c.start_step(
            other,
            other_dir,
            Some(id),
        ) == (
            c.touch(KeyModel::File(id)),
            StepModel::Done(crate::zone::ZoneModel::File(f)),
        ),
        c.get(KeyModel::File(id)) is None ==> c.start_step(other, other_dir, Some(id)) == (
            c,
            StepModel::Open,
        ),
{
    let key = KeyModel::File(id);
    let kept = ValueModel::File(crate::zone::file_model(Some(bytes@)));
    let after = c.store(key, kept);
    law_evicts_least_recently_used(c, key, kept);
    lemma_place(after, after.entries.len() - 1);
}

/// A value without a file that is looked up again in the same directory is answered
/// as before, and the cache stays as it is.
pub proof fn law_strings_are_resolved_once(c: CacheModel, value: Seq<u8>, dir: Seq<u8>)
    requires
        c.wf(),
        c.capacity > 0,
    ensures
        ({
            let first = c.start_step(value, dir, None);
            !(first.1 is LoadRules) ==> first.0.start_step(value, dir, None) == first
        }),
        !(c.start_step(value, dir, None).1 is Open),
{
    let v = crate::zone::normalized(value);
    let key = KeyModel::Posix(v);
    let first = c.start_step(value, dir, None);
    if v.len() > 0 {
        let after = c.touch(key);
        lemma_touched_tidy(c.entries, c.capacity as int, key);
        if holds(c.entries, key) {
            let i = position(c.entries, key);
            lemma_position(c.entries, key);
            lemma_place(c, i);
            lemma_place(after, after.entries.len() - 1);
        }
        if crate::posix_tz::tz_string(v).ruleless is None {
            let kept = ValueModel::Posix {
                zone: crate::zone::posix_model(v, None),
                tzdir: dir,
                posixrules: None,
            };
            let stored = after.store(key, kept);
            law_evicts_least_recently_used(after, key, kept);
            lemma_place(stored, stored.entries.len() - 1);
        }
    }
}

/// A value that takes its rules from `posixrules` is resolved once for one file of
/// rules: later lookups only ask for the identity of that file.
pub proof fn law_rules_are_read_once(
    c: CacheModel,
    value: Seq<u8>,
    dir: Seq<u8>,
    probe: Option<FileId>,
    content: Option<Seq<u8>>,
)
    requires
        c.wf(),
        c.capacity > 0,
        crate::zone::normalized(value).len() > 0,
    ensures
        ({
            let (after, zone) = c.loaded_step(value, dir, probe, content);
            &&& after.start_step(value, dir, None) == (after, StepModel::ProbeRules)
            &&& after.probed_step(value, dir, probe) == (after, StepModel::Done(zone))
        }),
{
    let v = crate::zone::normalized(value);
    let key = KeyModel::Posix(v);
    let (after, zone) = c.loaded_step(value, dir, probe, content);
    let kept = ValueModel::Posix { zone, tzdir: dir, posixrules: Some(probe) };
    law_evicts_least_recently_used(c, key, kept);
    lemma_place(after, after.entries.len() - 1);
}

/// A file that is no zone file is not opened again as long as it is the same file.
pub proof fn law_unusable_files_are_remembered(
    c: CacheModel,
    value: Seq<u8>,
    dir: Seq<u8>,
    id: FileId,
    bytes: Vec<u8>,
    other: Seq<u8>,
    other_dir: Seq<u8>,
)
    requires
        c.wf(),
        c.capacity > 1,
        crate::zone::file_model(Some(bytes@)) is None,
    ensures
        !(c.opened_step(value, dir, Opened::Bytes(id, bytes)).0.start_step(
            other,
            other_dir,
            Some(id),
        ).1 is Open),
        !(c.opened_step(value, dir, Opened::Rejected(id)).0.start_step(
            other,
            other_dir,
            Some(id),
        ).1 is Open),
{
    let v = crate::zone::normalized(value);
    let file = KeyModel::File(id);
    let kept = ValueModel::File(None);
    let stored = c.store(file, kept);
    law_evicts_least_recently_used(c, file, kept);
    lemma_still_there(stored, v, dir, file);
}

proof fn lemma_still_there(c: CacheModel, v: Seq<u8>, dir: Seq<u8>, file: KeyModel)
    requires
        c.wf(),
        c.capacity > 1,
        c.entries.len() > 0,
        c.entries.last().key == file,
        file is File,
    ensures
        c.posix_step(v, dir).0.get(file) is Some,
{
    let key = KeyModel::Posix(v);
    let after = c.touch(key);
    lemma_touched_tidy(c.entries, c.capacity as int, key);
    lemma_position(c.entries, key);
    let n = after.entries.len() as int;
    let k = if holds(c.entries, key) {
        let i = position(c.entries, key);
        lemma_place(c, i);
        n - 2
    } else {
        n - 1
    };
    assert(after.entries[k].key == file);
    lemma_place(after, k);
    if holds(c.entries, key) {
        lemma_place(after, n - 1);
    }
    let value = ValueModel::Posix {
        zone: crate::zone::posix_model(v, None),
        tzdir: dir,
        posixrules: None,
    };
    let s = after.store(key, value);
    law_evicts_least_recently_used(after, key, value);
    let m = s.entries.len() as int;
    assert(s.entries[m - 2].key == file);
    lemma_place(s, m - 2);
}

} // verus!
