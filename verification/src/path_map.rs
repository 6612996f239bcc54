//! A map from paths to values, kept in the order of the paths.

use vstd::prelude::*;

use crate::text::{chars_of, same_str};

verus! {

// ---------------------------------------------------------------------------
// The order of paths
// ---------------------------------------------------------------------------

/// A path sorts before another one if, at the first difference, it ends, or
/// its component ends, or its character is the smaller one. A slash thus
/// comes before every other character.
pub open spec fn rank(c: char) -> int {
    if c == '/' {
        0
    } else {
        c as u32 + 1
    }
}

pub open spec fn path_less(a: Seq<char>, b: Seq<char>) -> bool
    decreases a.len(),
{
    if b.len() == 0 {
        false
    } else if a.len() == 0 {
        true
    } else if a[0] != b[0] {
        rank(a[0]) < rank(b[0])
    } else {
        path_less(a.skip(1), b.skip(1))
    }
}

proof fn lemma_rank(x: char, y: char)
    requires
        x != y,
    ensures
        rank(x) != rank(y),
{
    if rank(x) == rank(y) {
        assert(x as u32 == y as u32);
        assert((x as u32) as char == (y as u32) as char);
        assert(x == y);
    }
}

pub proof fn lemma_path_order(a: Seq<char>, b: Seq<char>)
    ensures
        !path_less(a, a),
        path_less(a, b) ==> !path_less(b, a),
        a == b || path_less(a, b) || path_less(b, a),
    decreases a.len(),
{
    if a.len() > 0 {
        lemma_path_order(a.skip(1), a.skip(1));
    }
    if a.len() > 0 && b.len() > 0 {
        if a[0] == b[0] {
            lemma_path_order(a.skip(1), b.skip(1));
            if a.skip(1) == b.skip(1) {
                assert(a.len() == b.len());
                assert forall|i: int| 0 <= i < a.len() implies a[i] == b[i] by {
                    if i > 0 {
                        assert(a.skip(1)[i - 1] == b.skip(1)[i - 1]);
                    }
                }
                assert(a =~= b);
            }
        } else {
            lemma_rank(a[0], b[0]);
        }
    } else if a.len() == 0 && b.len() == 0 {
        assert(a =~= b);
    }
}

pub proof fn lemma_path_transitive(a: Seq<char>, b: Seq<char>, c: Seq<char>)
    requires
        path_less(a, b),
        path_less(b, c),
    ensures
        path_less(a, c),
    decreases a.len(),
{
    if a.len() > 0 && a[0] == b[0] && b[0] == c[0] {
        lemma_path_transitive(a.skip(1), b.skip(1), c.skip(1));
    }
}

fn char_rank(c: char) -> (r: u32)
    ensures
        r == rank(c),
{
    if c == '/' {
        0
    } else {
        c as u32 + 1
    }
}

/// Does the path `a` sort before the path `b`?
pub fn sorts_before(a: &str, b: &str) -> (r: bool)
    ensures
        r == path_less(a@, b@),
{
    let x = chars_of(a);
    let y = chars_of(b);
    let mut i: usize = 0;
    assert(x@.skip(0) =~= x@);
    assert(y@.skip(0) =~= y@);
    while i < x.len() && i < y.len() && x[i] == y[i]
        invariant
            i <= x@.len(),
            i <= y@.len(),
            path_less(x@.skip(i as int), y@.skip(i as int)) == path_less(x@, y@),
        decreases x@.len() - i,
    {
        assert(x@.skip(i as int).skip(1) =~= x@.skip(i + 1));
        assert(y@.skip(i as int).skip(1) =~= y@.skip(i + 1));
        i += 1;
    }
    if i >= y.len() {
        false
    } else if i >= x.len() {
        true
    } else {
        char_rank(x[i]) < char_rank(y[i])
    }
}

// ---------------------------------------------------------------------------
// The map
// ---------------------------------------------------------------------------

/// Values by path, in the order of the paths.
#[derive(Debug)]
pub struct PathMap<V> {
    entries: Vec<(String, V)>,
}

/// Are the paths in order, each occurring once?
pub open spec fn in_order<V>(entries: Seq<(String, V)>) -> bool {
    forall|i: int, j: int|
        0 <= i < j < entries.len() ==> path_less(
            (#[trigger] entries[i]).0@,
            (#[trigger] entries[j]).0@,
        )
}

/// The map that a list of entries with different paths stands for.
pub open spec fn as_map<V>(entries: Seq<(String, V)>) -> Map<Seq<char>, V>
    decreases entries.len(),
{
    if entries.len() == 0 {
        Map::empty()
    } else {
        as_map(entries.drop_last()).insert(entries.last().0@, entries.last().1)
    }
}

pub open spec fn has_path<V>(entries: Seq<(String, V)>, k: Seq<char>) -> bool {
    exists|i: int| 0 <= i < entries.len() && (#[trigger] entries[i]).0@ == k
}

pub proof fn lemma_as_map<V>(entries: Seq<(String, V)>)
    requires
        in_order(entries),
    ensures
        forall|k: Seq<char>| #[trigger]
            as_map(entries).contains_key(k) <==> has_path(entries, k),
        forall|i: int|
            0 <= i < entries.len() ==> as_map(entries).contains_key((#[trigger] entries[i]).0@)
                && as_map(entries)[entries[i].0@] == entries[i].1,
    decreases entries.len(),
{
    if entries.len() > 0 {
        let shorter = entries.drop_last();
        let last = entries.last();
        assert forall|i: int, j: int| 0 <= i < j < shorter.len() implies path_less(
            (#[trigger] shorter[i]).0@,
            (#[trigger] shorter[j]).0@,
        ) by {
            assert(shorter[i] == entries[i] && shorter[j] == entries[j]);
        }
        lemma_as_map(shorter);
        assert(as_map(entries) == as_map(shorter).insert(last.0@, last.1));
        assert forall|k: Seq<char>| #[trigger] as_map(entries).contains_key(k) <==> has_path(
            entries,
            k,
        ) by {
            if has_path(entries, k) {
                let i = choose|i: int| 0 <= i < entries.len() && (#[trigger] entries[i]).0@ == k;
                if i < shorter.len() {
                    assert(shorter[i].0@ == k);
                }
            }
            assert(as_map(shorter).contains_key(k) <==> has_path(shorter, k));
            if has_path(shorter, k) {
                let i = choose|i: int| 0 <= i < shorter.len() && (#[trigger] shorter[i]).0@ == k;
                assert(entries[i].0@ == k);
            }
            if k == last.0@ {
                assert(entries[entries.len() - 1].0@ == k);
            }
        }
        assert forall|i: int| 0 <= i < entries.len() implies as_map(entries).contains_key(
            (#[trigger] entries[i]).0@,
        ) && as_map(entries)[entries[i].0@] == entries[i].1 by {
            if i < shorter.len() {
                assert(shorter[i] == entries[i]);
                assert(path_less(entries[i].0@, entries[entries.len() - 1].0@));
                lemma_path_order(entries[i].0@, last.0@);
            }
        }
    }
}

impl<V> PathMap<V> {
    pub closed spec fn view(&self) -> Map<Seq<char>, V> {
        as_map(self.entries@)
    }

    #[verifier::type_invariant]
    spec fn wf(self) -> bool {
        in_order(self.entries@)
    }

    /// The entries in the order of their paths.
    pub closed spec fn listed(&self) -> Seq<(String, V)> {
        self.entries@
    }

    pub fn new() -> (r: PathMap<V>)
        ensures
            r@ == Map::<Seq<char>, V>::empty(),
            r.listed().len() == 0,
    {
        PathMap { entries: Vec::new() }
    }

    pub fn len(&self) -> (r: usize)
        ensures
            r == self.listed().len(),
            in_order(self.listed()),
    {
        proof {
            use_type_invariant(self);
        }
        self.entries.len()
    }

    /// The entry at a position of the order.
    pub fn nth(&self, i: usize) -> (r: &(String, V))
        requires
            i < self.listed().len(),
        ensures
            *r == self.listed()[i as int],
    {
        &self.entries[i]
    }

    /// The list is in order and holds what the map holds.
    pub proof fn lemma_listed(&self)
        requires
            in_order(self.listed()),
        ensures
            forall|k: Seq<char>| #[trigger] self@.contains_key(k) <==> has_path(self.listed(), k),
            forall|i: int|
                0 <= i < self.listed().len() ==> self@.contains_key(
                    (#[trigger] self.listed()[i]).0@,
                ) && self@[self.listed()[i].0@] == self.listed()[i].1,
    {
        lemma_as_map(self.entries@);
    }

    /// Position of the first entry whose path is not before `path`.
    fn place(&self, path: &str) -> (r: usize)
        ensures
            r <= self.entries@.len(),
            forall|i: int| 0 <= i < r ==> path_less((#[trigger] self.entries@[i]).0@, path@),
            r < self.entries@.len() ==> !path_less(self.entries@[r as int].0@, path@),
    {
        let mut i: usize = 0;
        while i < self.entries.len() && sorts_before(self.entries[i].0.as_str(), path)
            invariant
                i <= self.entries@.len(),
                forall|j: int| 0 <= j < i ==> path_less((#[trigger] self.entries@[j]).0@, path@),
            decreases self.entries@.len() - i,
        {
            i += 1;
        }
        i
    }

    fn find(&self, path: &str) -> (r: Option<usize>)
        ensures
            match r {
                Some(i) => i < self.entries@.len() && self.entries@[i as int].0@ == path@
                    && self@.contains_key(path@) && self@[path@] == self.entries@[i as int].1,
                None => !self@.contains_key(path@),
            },
    {
        proof {
            use_type_invariant(self);
            lemma_as_map(self.entries@);
        }
        let i = self.place(path);
        if i < self.entries.len() && same_str(self.entries[i].0.as_str(), path) {
            return Some(i);
        }
        proof {
            if has_path(self.entries@, path@) {
                let j = choose|j: int|
                    0 <= j < self.entries@.len() && (#[trigger] self.entries@[j]).0@ == path@;
                lemma_path_order(path@, path@);
                if j < i {
                    assert(path_less(self.entries@[j].0@, path@));
                } else if j > i {
                    assert(path_less(self.entries@[i as int].0@, self.entries@[j].0@));
                }
            }
        }
        None
    }

    pub fn contains(&self, path: &str) -> (r: bool)
        ensures
            r == self@.contains_key(path@),
    {
        self.find(path).is_some()
    }

    pub fn get(&self, path: &str) -> (r: Option<&V>)
        ensures
            match r {
                Some(v) => self@.contains_key(path@) && *v == self@[path@],
                None => !self@.contains_key(path@),
            },
    {
        match self.find(path) {
            Some(i) => Some(&self.entries[i].1),
            None => None,
        }
    }

    /// Takes the value for `path` out of the map.
    pub fn remove(&mut self, path: &str) -> (r: Option<V>)
        ensures
            final(self)@ == old(self)@.remove(path@),
            match r {
                Some(v) => old(self)@.contains_key(path@) && v == old(self)@[path@],
                None => !old(self)@.contains_key(path@),
            },
    {
        proof {
            use_type_invariant(&*self);
            lemma_as_map(self.entries@);
        }
        let ghost before = self.entries@;
        match self.find(path) {
            None => {
                assert(self@ =~= old(self)@.remove(path@));
                None
            },
            Some(i) => {
                let mut entries: Vec<(String, V)> = Vec::new();
                std::mem::swap(&mut entries, &mut self.entries);
                let (_, v) = entries.remove(i);
                proof {
                    let now = entries@;
                    assert forall|a: int, b: int| 0 <= a < b < now.len() implies path_less(
                        (#[trigger] now[a]).0@,
                        (#[trigger] now[b]).0@,
                    ) by {
                        let x = if a < i {
                            a
                        } else {
                            a + 1
                        };
                        let y = if b < i {
                            b
                        } else {
                            b + 1
                        };
                        assert(now[a] == before[x] && now[b] == before[y]);
                    }
                    lemma_as_map(now);
                    lemma_removed(before, now, i as int);
                }
                self.entries = entries;
                Some(v)
            },
        }
    }

    /// Sets the value for `path`.
    pub fn insert(&mut self, path: String, value: V)
        ensures
            final(self)@ == old(self)@.insert(path@, value),
    {
        proof {
            use_type_invariant(&*self);
            lemma_as_map(self.entries@);
        }
        let ghost k = path@;
        let ghost before = self.entries@;
        match self.find(path.as_str()) {
            Some(i) => {
                let mut entries: Vec<(String, V)> = Vec::new();
                std::mem::swap(&mut entries, &mut self.entries);
                entries.set(i, (path, value));
                proof {
                    let now = entries@;
                    assert forall|a: int, b: int| 0 <= a < b < now.len() implies path_less(
                        (#[trigger] now[a]).0@,
                        (#[trigger] now[b]).0@,
                    ) by {
                        assert(path_less(before[a].0@, before[b].0@));
                    }
                    lemma_as_map(now);
                    lemma_replaced(before, now, i as int);
                }
                self.entries = entries;
            },
            None => {
                let i = self.place(path.as_str());
                let mut entries: Vec<(String, V)> = Vec::new();
                std::mem::swap(&mut entries, &mut self.entries);
                entries.insert(i, (path, value));
                proof {
                    let now = entries@;
                    assert forall|a: int, b: int| 0 <= a < b < now.len() implies path_less(
                        (#[trigger] now[a]).0@,
                        (#[trigger] now[b]).0@,
                    ) by {
                        lemma_inserted_order(before, now, i as int, a, b);
                    }
                    lemma_as_map(now);
                    lemma_inserted(before, now, i as int);
                }
                self.entries = entries;
            },
        }
    }

    /// Keeps the entries whose paths are among `keep`; returns the others, in
    /// order.
    pub fn retain(&mut self, keep: &Vec<String>) -> (r: Vec<(String, V)>)
        ensures
            final(self)@ == old(self)@.restrict(paths(keep@)),
            r@ == dropped(old(self).listed(), keep@),
    {
        proof {
            use_type_invariant(&*self);
        }
        let mut entries: Vec<(String, V)> = Vec::new();
        std::mem::swap(&mut entries, &mut self.entries);
        let ghost all = entries@;
        let mut kept: Vec<(String, V)> = Vec::new();
        let mut gone: Vec<(String, V)> = Vec::new();
        assert(all.skip(all.len() as int) =~= Seq::empty());
        while entries.len() > 0
            invariant
                entries@.len() <= all.len(),
                entries@ == all.take(entries@.len() as int),
                kept@ == retained(all.skip(entries@.len() as int), keep@),
                gone@ == dropped(all.skip(entries@.len() as int), keep@),
            decreases entries@.len(),
        {
            let ghost n = entries@.len() as int;
            let e = entries.pop().unwrap();
            proof {
                assert(e == all[n - 1]);
                assert(all.take(n).drop_last() =~= all.take(n - 1));
                assert(all.skip(n - 1).skip(1) =~= all.skip(n));
                assert(all.skip(n - 1)[0] == e);
            }
            let ghost k0 = kept@;
            let ghost g0 = gone@;
            if listed_path(keep, e.0.as_str()) {
                kept.insert(0, e);
                assert(kept@ =~= seq![e] + k0);
            } else {
                gone.insert(0, e);
                assert(gone@ =~= seq![e] + g0);
            }
        }
        assert(all.skip(0) =~= all);
        proof {
            lemma_retained(all, keep@);
        }
        self.entries = kept;
        gone
    }
}

/// Is the path in the list?
pub open spec fn on_list(list: Seq<String>, path: Seq<char>) -> bool {
    exists|i: int| 0 <= i < list.len() && (#[trigger] list[i])@ == path
}

/// The paths of a list.
pub open spec fn paths(list: Seq<String>) -> Set<Seq<char>> {
    Set::new(|p: Seq<char>| on_list(list, p))
}

pub(crate) fn listed_path(list: &Vec<String>, path: &str) -> (r: bool)
    ensures
        r == on_list(list@, path@),
{
    let mut i: usize = 0;
    while i < list.len()
        invariant
            i <= list@.len(),
            forall|j: int| 0 <= j < i ==> (#[trigger] list@[j])@ != path@,
        decreases list@.len() - i,
    {
        if same_str(list[i].as_str(), path) {
            return true;
        }
        i += 1;
    }
    false
}

/// The entries whose paths are on the list.
pub open spec fn retained<V>(entries: Seq<(String, V)>, keep: Seq<String>) -> Seq<(String, V)>
    decreases entries.len(),
{
    if entries.len() == 0 {
        seq![]
    } else if on_list(keep, entries[0].0@) {
        seq![entries[0]] + retained(entries.skip(1), keep)
    } else {
        retained(entries.skip(1), keep)
    }
}

/// The entries whose paths are not.
pub open spec fn dropped<V>(entries: Seq<(String, V)>, keep: Seq<String>) -> Seq<(String, V)>
    decreases entries.len(),
{
    if entries.len() == 0 {
        seq![]
    } else if on_list(keep, entries[0].0@) {
        dropped(entries.skip(1), keep)
    } else {
        seq![entries[0]] + dropped(entries.skip(1), keep)
    }
}

pub open spec fn member<V>(list: Seq<(String, V)>, e: (String, V)) -> bool {
    exists|i: int| 0 <= i < list.len() && #[trigger] list[i] == e
}

/// The retained entries are those on the list.
proof fn lemma_retained_members<V>(entries: Seq<(String, V)>, keep: Seq<String>)
    ensures
        forall|i: int|
            0 <= i < retained(entries, keep).len() ==> member(
                entries,
                #[trigger] retained(entries, keep)[i],
            ) && on_list(keep, retained(entries, keep)[i].0@),
        forall|j: int|
            0 <= j < entries.len() && on_list(keep, (#[trigger] entries[j]).0@) ==> member(
                retained(entries, keep),
                entries[j],
            ),
    decreases entries.len(),
{
    let r = retained(entries, keep);
    if entries.len() > 0 {
        let t = entries.skip(1);
        let rt = retained(t, keep);
        lemma_retained_members(t, keep);
        let shift = if on_list(keep, entries[0].0@) {
            1int
        } else {
            0
        };
        assert forall|i: int| 0 <= i < r.len() implies member(entries, #[trigger] r[i]) && on_list(
            keep,
            r[i].0@,
        ) by {
            if i < shift {
                assert(entries[0] == r[i]);
            } else {
                assert(r[i] == rt[i - shift]);
                let k = choose|k: int| 0 <= k < t.len() && #[trigger] t[k] == rt[i - shift];
                assert(entries[k + 1] == r[i]);
            }
        }
        assert forall|j: int|
            0 <= j < entries.len() && on_list(keep, (#[trigger] entries[j]).0@) implies member(
            r,
            entries[j],
        ) by {
            if j == 0 {
                assert(r[0] == entries[0]);
            } else {
                assert(t[j - 1] == entries[j]);
                let k = choose|k: int| 0 <= k < rt.len() && #[trigger] rt[k] == t[j - 1];
                assert(r[k + shift] == entries[j]);
            }
        }
    }
}

proof fn lemma_retained_order<V>(entries: Seq<(String, V)>, keep: Seq<String>)
    requires
        in_order(entries),
    ensures
        in_order(retained(entries, keep)),
    decreases entries.len(),
{
    if entries.len() > 0 {
        let t = entries.skip(1);
        assert forall|i: int, j: int| 0 <= i < j < t.len() implies path_less(
            (#[trigger] t[i]).0@,
            (#[trigger] t[j]).0@,
        ) by {
            assert(t[i] == entries[i + 1] && t[j] == entries[j + 1]);
        }
        lemma_retained_order(t, keep);
        lemma_retained_members(t, keep);
        let r = retained(entries, keep);
        let rt = retained(t, keep);
        if on_list(keep, entries[0].0@) {
            assert forall|i: int, j: int| 0 <= i < j < r.len() implies path_less(
                (#[trigger] r[i]).0@,
                (#[trigger] r[j]).0@,
            ) by {
                assert(r[j] == rt[j - 1]);
                if i == 0 {
                    let k = choose|k: int| 0 <= k < t.len() && #[trigger] t[k] == rt[j - 1];
                    assert(entries[k + 1] == t[k]);
                    assert(path_less(entries[0].0@, entries[k + 1].0@));
                } else {
                    assert(r[i] == rt[i - 1]);
                }
            }
        }
    }
}

proof fn lemma_retained<V>(entries: Seq<(String, V)>, keep: Seq<String>)
    requires
        in_order(entries),
    ensures
        in_order(retained(entries, keep)),
        as_map(retained(entries, keep)) == as_map(entries).restrict(paths(keep)),
{
    lemma_retained_order(entries, keep);
    lemma_retained_members(entries, keep);
    lemma_as_map(entries);
    let r = retained(entries, keep);
    lemma_as_map(r);
    let want = as_map(entries).restrict(paths(keep));
    assert forall|x: Seq<char>| #[trigger] as_map(r).contains_key(x) <==> want.contains_key(x) by {
        if has_path(r, x) {
            let i = choose|i: int| 0 <= i < r.len() && (#[trigger] r[i]).0@ == x;
            let j = choose|j: int| 0 <= j < entries.len() && #[trigger] entries[j] == r[i];
            assert(entries[j].0@ == x);
        }
        if has_path(entries, x) && on_list(keep, x) {
            let j = choose|j: int| 0 <= j < entries.len() && (#[trigger] entries[j]).0@ == x;
            let i = choose|i: int| 0 <= i < r.len() && #[trigger] r[i] == entries[j];
            assert(r[i].0@ == x);
        }
    }
    assert forall|x: Seq<char>| #[trigger] as_map(r).contains_key(x) implies as_map(r)[x]
        == want[x] by {
        let i = choose|i: int| 0 <= i < r.len() && (#[trigger] r[i]).0@ == x;
        let j = choose|j: int| 0 <= j < entries.len() && #[trigger] entries[j] == r[i];
        assert(entries[j].0@ == x);
    }
    assert(as_map(r) =~= want);
}

proof fn lemma_removed<V>(before: Seq<(String, V)>, now: Seq<(String, V)>, i: int)
    requires
        in_order(before),
        in_order(now),
        0 <= i < before.len(),
        now == before.remove(i),
    ensures
        as_map(now) == as_map(before).remove(before[i].0@),
{
    lemma_as_map(before);
    lemma_as_map(now);
    let k = before[i].0@;
    assert forall|x: Seq<char>| #[trigger] as_map(now).contains_key(x) <==> as_map(before).remove(
        k,
    ).contains_key(x) by {
        if has_path(now, x) {
            let a = choose|a: int| 0 <= a < now.len() && (#[trigger] now[a]).0@ == x;
            let b = if a < i {
                a
            } else {
                a + 1
            };
            assert(before[b] == now[a]);
            lemma_path_order(x, k);
            if a < i {
                assert(path_less(before[b].0@, before[i].0@));
            } else {
                assert(path_less(before[i].0@, before[b].0@));
            }
        }
        if has_path(before, x) && x != k {
            let b = choose|b: int| 0 <= b < before.len() && (#[trigger] before[b]).0@ == x;
            let a = if b < i {
                b
            } else {
                b - 1
            };
            assert(now[a] == before[b]);
        }
    }
    assert forall|x: Seq<char>| #[trigger] as_map(now).contains_key(x) implies as_map(now)[x]
        == as_map(before).remove(k)[x] by {
        let a = choose|a: int| 0 <= a < now.len() && (#[trigger] now[a]).0@ == x;
        let b = if a < i {
            a
        } else {
            a + 1
        };
        assert(before[b] == now[a]);
    }
    assert(as_map(now) =~= as_map(before).remove(k));
}

proof fn lemma_replaced<V>(before: Seq<(String, V)>, now: Seq<(String, V)>, i: int)
    requires
        in_order(before),
        in_order(now),
        0 <= i < before.len(),
        now == before.update(i, now[i]),
        now[i].0@ == before[i].0@,
    ensures
        as_map(now) == as_map(before).insert(now[i].0@, now[i].1),
{
    lemma_as_map(before);
    lemma_as_map(now);
    let k = now[i].0@;
    let want = as_map(before).insert(k, now[i].1);
    assert forall|x: Seq<char>| #[trigger] as_map(now).contains_key(x) <==> want.contains_key(
        x,
    ) by {
        if has_path(now, x) {
            let a = choose|a: int| 0 <= a < now.len() && (#[trigger] now[a]).0@ == x;
            assert(before[a].0@ == x);
        }
        if has_path(before, x) {
            let a = choose|a: int| 0 <= a < before.len() && (#[trigger] before[a]).0@ == x;
            assert(now[a].0@ == x);
        }
    }
    assert forall|x: Seq<char>| #[trigger] as_map(now).contains_key(x) implies as_map(now)[x]
        == want[x] by {
        let a = choose|a: int| 0 <= a < now.len() && (#[trigger] now[a]).0@ == x;
        if a != i {
            assert(before[a] == now[a]);
            lemma_path_order(x, k);
            if a < i {
                assert(path_less(now[a].0@, now[i].0@));
            } else {
                assert(path_less(now[i].0@, now[a].0@));
            }
        }
    }
    assert(as_map(now) =~= want);
}

proof fn lemma_inserted_order<V>(
    before: Seq<(String, V)>,
    now: Seq<(String, V)>,
    i: int,
    a: int,
    b: int,
)
    requires
        in_order(before),
        0 <= i <= before.len(),
        now == before.insert(i, now[i]),
        !has_path(before, now[i].0@),
        forall|j: int| 0 <= j < i ==> path_less((#[trigger] before[j]).0@, now[i].0@),
        i < before.len() ==> !path_less(before[i].0@, now[i].0@),
        0 <= a < b < now.len(),
    ensures
        path_less(now[a].0@, now[b].0@),
{
    let k = now[i].0@;
    if i < before.len() {
        assert(before[i].0@ != k);
        lemma_path_order(before[i].0@, k);
    }
    if b < i {
        assert(now[a] == before[a] && now[b] == before[b]);
    } else if b == i {
        assert(now[a] == before[a]);
    } else if a < i {
        assert(now[a] == before[a] && now[b] == before[b - 1]);
        assert(path_less(before[a].0@, before[b - 1].0@));
    } else if a == i {
        assert(now[b] == before[b - 1]);
        if b - 1 > i {
            assert(path_less(before[i].0@, before[b - 1].0@));
            lemma_path_transitive(k, before[i].0@, before[b - 1].0@);
        }
    } else {
        assert(now[a] == before[a - 1] && now[b] == before[b - 1]);
        assert(path_less(before[a - 1].0@, before[b - 1].0@));
    }
}

proof fn lemma_inserted<V>(before: Seq<(String, V)>, now: Seq<(String, V)>, i: int)
    requires
        in_order(before),
        in_order(now),
        0 <= i <= before.len(),
        now == before.insert(i, now[i]),
        !has_path(before, now[i].0@),
    ensures
        as_map(now) == as_map(before).insert(now[i].0@, now[i].1),
{
    lemma_as_map(before);
    lemma_as_map(now);
    let k = now[i].0@;
    let want = as_map(before).insert(k, now[i].1);
    assert forall|x: Seq<char>| #[trigger] as_map(now).contains_key(x) <==> want.contains_key(
        x,
    ) by {
        if has_path(now, x) {
            let a = choose|a: int| 0 <= a < now.len() && (#[trigger] now[a]).0@ == x;
            if a < i {
                assert(before[a] == now[a]);
            } else if a > i {
                assert(before[a - 1] == now[a]);
            }
        }
        if has_path(before, x) {
            let a = choose|a: int| 0 <= a < before.len() && (#[trigger] before[a]).0@ == x;
            let b = if a < i {
                a
            } else {
                a + 1
            };
            assert(now[b] == before[a]);
        }
        assert(now[i].0@ == k);
    }
    assert forall|x: Seq<char>| #[trigger] as_map(now).contains_key(x) implies as_map(now)[x]
        == want[x] by {
        let a = choose|a: int| 0 <= a < now.len() && (#[trigger] now[a]).0@ == x;
        if a < i {
            assert(before[a] == now[a]);
        } else if a > i {
            assert(before[a - 1] == now[a]);
        }
        if a != i {
            assert(has_path(before, x));
        }
    }
    assert(as_map(now) =~= want);
}

// ---------------------------------------------------------------------------
// Laws
// ---------------------------------------------------------------------------

proof fn lemma_rank_order(x: char, y: char)
    requires
        x < y,
    ensures
        x != '/' && y != '/' ==> rank(x) < rank(y),
{
}

/// Paths are ordered component by component: after a common beginning, a path that
/// ends comes first, then one whose component ends, and then the smaller character
/// decides.
pub proof fn law_path_order(common: Seq<char>, a: Seq<char>, b: Seq<char>)
    ensures
        path_less(common + a, common + b) == path_less(a, b),
        b.len() > 0 ==> path_less(common, common + b),
        !path_less(common + a, common),
        a.len() > 0 && b.len() > 0 && a[0] == '/' && b[0] != '/' ==> path_less(common + a, common
            + b) && !path_less(common + b, common + a),
        a.len() > 0 && b.len() > 0 && a[0] != '/' && b[0] != '/' && a[0] < b[0] ==> path_less(
            common + a,
            common + b,
        ) && !path_less(common + b, common + a),
    decreases common.len(),
{
    let none = Seq::<char>::empty();
    if common.len() == 0 {
        assert(common + a =~= a);
        assert(common + b =~= b);
        assert(common =~= none);
        if a.len() > 0 && b.len() > 0 && a[0] < b[0] {
            lemma_rank_order(a[0], b[0]);
        }
    } else {
        law_path_order(common.skip(1), a, b);
        assert((common + a).skip(1) =~= common.skip(1) + a);
        assert((common + b).skip(1) =~= common.skip(1) + b);
    }
}

/// The order is a strict total one.
pub proof fn law_paths_are_totally_ordered(a: Seq<char>, b: Seq<char>, c: Seq<char>)
    ensures
        !path_less(a, a),
        path_less(a, b) ==> !path_less(b, a),
        a != b ==> path_less(a, b) || path_less(b, a),
        path_less(a, b) && path_less(b, c) ==> path_less(a, c),
{
    lemma_path_order(a, b);
    lemma_path_order(a, a);
    if path_less(a, b) && path_less(b, c) {
        lemma_path_transitive(a, b, c);
    }
}

/// What is dropped is told, in order: every entry whose path is not to be kept, and
/// no other.
pub proof fn law_dropped_entries<V>(first: (String, V), rest: Seq<(String, V)>, keep: Seq<String>)
    ensures
        on_list(keep, first.0@) ==> dropped(seq![first] + rest, keep) == dropped(rest, keep),
        !on_list(keep, first.0@) ==> dropped(seq![first] + rest, keep) == seq![first] + dropped(
            rest,
            keep,
        ),
        dropped(Seq::<(String, V)>::empty(), keep).len() == 0,
{
    let all = seq![first] + rest;
    assert(all[0] == first);
    assert(all.skip(1) =~= rest);
}

/// The paths of a list are those that stand on it.
pub proof fn law_listed_paths(list: Seq<String>, next: String, path: Seq<char>)
    ensures
        on_list(list.push(next), path) <==> path == next@ || on_list(list, path),
        !on_list(seq![], path),
        paths(list).contains(path) == on_list(list, path),
{
    let all = list.push(next);
    assert(all[list.len() as int] == next);
    if on_list(list, path) {
        let i = choose|i: int| 0 <= i < list.len() && (#[trigger] list[i])@ == path;
        assert(all[i] == list[i]);
    }
    if on_list(all, path) {
        let i = choose|i: int| 0 <= i < all.len() && (#[trigger] all[i])@ == path;
        if i < list.len() {
            assert(list[i] == all[i]);
        }
    }
}

} // verus!
