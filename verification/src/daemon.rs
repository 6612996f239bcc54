//! The scheduler: decides which minutes to evaluate after each wake-up (with
//! Vixie cron's handling of clock jumps and DST) and which jobs are due.

use vstd::prelude::*;

use crate::calendar::WallTime;
use crate::clock;
use crate::crontab::{env_get, Entry, Format};
use crate::database::{Database, LoadedTab};
use crate::job::Runner;
use crate::text::{chars_of, same, same_str, trimmed};
use crate::zone::Zone;

verus! {

/// Which jobs to consider for a minute.
#[derive(Debug, Clone, Copy, PartialEq, Eq, Structural)]
pub enum Pass {
    All,
    /// Only jobs with `*` in minute or hour.
    WildOnly,
    /// Only jobs with fixed minute and hour.
    FixedOnly,
}

/// Largest clock jump (minutes) treated as DST/adjustment rather than a reset.
pub const MAX_JUMP: i64 = 180;

/// Largest forward gap in which every missed minute is replayed fully.
pub const MAX_CATCHUP: i64 = 5;

/// Maximum number of concurrently running (or delayed) jobs overall.
pub const MAX_JOBS_TOTAL: usize = 512;

/// Maximum number of concurrently running (or delayed) jobs per user.
pub const MAX_JOBS_PER_USER: usize = 64;

// ---------------------------------------------------------------------------
// Planning
// ---------------------------------------------------------------------------

/// The minutes after `from` up to `to`, each with the same pass.
pub open spec fn minutes_after(from: int, to: int, pass: Pass) -> Seq<(i64, Pass)> {
    Seq::new(
        if to > from {
            (to - from) as nat
        } else {
            0
        },
        |i: int| ((from + 1 + i) as i64, pass),
    )
}

/// The new virtual minute and the evaluations to perform, given the last
/// processed minute and the current one.
pub open spec fn planned(virtual_time: int, time_running: int) -> (int, Seq<(i64, Pass)>) {
    let diff = time_running - virtual_time;
    if 1 < diff <= MAX_CATCHUP {
        (time_running, minutes_after(virtual_time, time_running, Pass::All))
    } else if MAX_CATCHUP < diff <= MAX_JUMP {
        (
            time_running,
            minutes_after(virtual_time, time_running - 1, Pass::FixedOnly).push(
                (time_running as i64, Pass::All),
            ),
        )
    } else if -MAX_JUMP <= diff <= 0 {
        (virtual_time, seq![(time_running as i64, Pass::WildOnly)])
    } else {
        (time_running, seq![(time_running as i64, Pass::All)])
    }
}

fn push_minutes(work: &mut Vec<(i64, Pass)>, from: i64, to: i64, pass: Pass)
    requires
        from <= to,
    ensures
        final(work)@ == old(work)@ + minutes_after(from as int, to as int, pass),
{
    let mut m: i64 = from;
    let ghost before = work@;
    assert(before + minutes_after(from as int, from as int, pass) =~= before);
    while m < to
        invariant
            from <= m <= to,
            work@ == before + minutes_after(from as int, m as int, pass),
        decreases to - m,
    {
        m = m + 1;
        work.push((m, pass));
        assert(minutes_after(from as int, m as int, pass) =~= minutes_after(
            from as int,
            m - 1,
            pass,
        ).push((m, pass)));
        assert(work@ =~= before + minutes_after(from as int, m as int, pass));
    }
}

/// Given the last processed minute and the current minute, return the new
/// "virtual" minute and the (minute, pass) evaluations to perform.
///
/// * `diff == 1`: normal tick.
/// * `1 < diff <= 5`: short hiccup (load, suspend); replay every minute.
/// * `5 < diff <= 180`: clock jumped forward (e.g. DST start): run fixed-time
///   jobs for each skipped minute once, wildcard jobs only for now.
/// * `-180 <= diff <= 0`: clock went back (e.g. DST end) or is catching up
///   after going back: run wildcard jobs for now but hold the virtual clock
///   so fixed-time jobs are not repeated. (A genuinely early wake is filtered
///   by [`skip_repeated_wild`].)
/// * anything else: large change; resynchronise.
pub fn plan(virtual_time: i64, time_running: i64) -> (r: (i64, Vec<(i64, Pass)>))
    requires
        i64::MIN <= time_running - virtual_time <= i64::MAX,
    ensures
        (r.0 as int, r.1@) == planned(virtual_time as int, time_running as int),
{
    let diff: i64 = time_running - virtual_time;
    let mut work: Vec<(i64, Pass)> = Vec::new();
    let ghost want = planned(virtual_time as int, time_running as int);
    if 1 < diff && diff <= MAX_CATCHUP {
        push_minutes(&mut work, virtual_time, time_running, Pass::All);
        assert(work@ =~= want.1);
        (time_running, work)
    } else if MAX_CATCHUP < diff && diff <= MAX_JUMP {
        push_minutes(&mut work, virtual_time, time_running - 1, Pass::FixedOnly);
        work.push((time_running, Pass::All));
        assert(work@ =~= want.1);
        (time_running, work)
    } else if -MAX_JUMP <= diff && diff <= 0 {
        work.push((time_running, Pass::WildOnly));
        assert(work@ =~= want.1);
        (virtual_time, work)
    } else {
        work.push((time_running, Pass::All));
        assert(work@ =~= want.1);
        (time_running, work)
    }
}

/// The evaluations without the repeated ones, and the minute whose wildcard
/// jobs ran last.
pub open spec fn unrepeated(work: Seq<(i64, Pass)>, last_wild: Option<i64>) -> (
    Seq<(i64, Pass)>,
    Option<i64>,
)
    decreases work.len(),
{
    if work.len() == 0 {
        (seq![], last_wild)
    } else {
        let (out, last) = unrepeated(work.drop_last(), last_wild);
        let (minute, pass) = work.last();
        if pass == Pass::WildOnly && last == Some(minute) {
            (out, last)
        } else if pass == Pass::FixedOnly {
            (out.push(work.last()), last)
        } else {
            (out.push(work.last()), Some(minute))
        }
    }
}

fn same_minute(a: &Option<i64>, minute: i64) -> (r: bool)
    ensures
        r == (*a == Some(minute)),
{
    match a {
        Some(m) => *m == minute,
        None => false,
    }
}

/// Drop a `WildOnly` evaluation of a minute whose wildcard jobs were just
/// evaluated (an early wake within the same minute), and record which minute
/// last had its wildcard jobs run.
pub fn skip_repeated_wild(work: Vec<(i64, Pass)>, last_wild: &mut Option<i64>) -> (r: Vec<
    (i64, Pass),
>)
    ensures
        (r@, *final(last_wild)) == unrepeated(work@, *old(last_wild)),
{
    let mut out: Vec<(i64, Pass)> = Vec::new();
    let mut i: usize = 0;
    let ghost start = *last_wild;
    assert(work@.take(0) =~= seq![]);
    while i < work.len()
        invariant
            i <= work@.len(),
            (out@, *last_wild) == unrepeated(work@.take(i as int), start),
        decreases work@.len() - i,
    {
        let (minute, pass) = work[i];
        assert(work@.take(i + 1).drop_last() =~= work@.take(i as int));
        assert(work@.take(i + 1).last() == work@[i as int]);
        if pass == Pass::WildOnly && same_minute(last_wild, minute) {
        } else {
            if pass != Pass::FixedOnly {
                *last_wild = Some(minute);
            }
            out.push((minute, pass));
        }
        i += 1;
    }
    assert(work@.take(work@.len() as int) =~= work@);
    out
}

/// A minute to evaluate, with the UTC offset that its number was counted with.
#[derive(Debug, Clone, Copy, PartialEq, Eq, Structural)]
pub struct Evaluation {
    pub minute: i64,
    pub pass: Pass,
    pub vgmtoff: i32,
}

/// Minutes before the current one were counted with the earlier offset.
pub open spec fn evaluations(work: Seq<(i64, Pass)>, now: i64, earlier: i32, gmtoff: i32) -> Seq<
    Evaluation,
> {
    work.map_values(
        |w: (i64, Pass)|
            Evaluation {
                minute: w.0,
                pass: w.1,
                vgmtoff: if w.0 < now {
                    earlier
                } else {
                    gmtoff
                },
            },
    )
}

/// What the daemon remembers from one minute to the next.
#[derive(Debug, Clone, Copy, PartialEq, Eq, Structural)]
pub struct Ticker {
    pub virtual_time: i64,
    pub last_wild: Option<i64>,
    /// The UTC offset at the virtual time.
    pub gmtoff: i32,
}

impl Ticker {
    /// The daemon started in this minute.
    pub fn new(minute: i64, gmtoff: i32) -> (r: Ticker)
        ensures
            r == (Ticker { virtual_time: minute, last_wild: None, gmtoff }),
    {
        Ticker { virtual_time: minute, last_wild: None, gmtoff }
    }

    /// The daemon woke up in this minute: the evaluations to perform.
    pub fn tick(&mut self, time_running: i64, gmtoff: i32) -> (r: Vec<Evaluation>)
        requires
            i64::MIN <= time_running - old(self).virtual_time <= i64::MAX,
        ensures
            ({
                let (virtual_time, work) = planned(
                    old(self).virtual_time as int,
                    time_running as int,
                );
                let (kept, last) = unrepeated(work, old(self).last_wild);
                &&& final(self).virtual_time == virtual_time
                &&& final(self).last_wild == last
                &&& final(self).gmtoff == if virtual_time == time_running {
                    gmtoff
                } else {
                    old(self).gmtoff
                }
                &&& r@ == evaluations(kept, time_running, old(self).gmtoff, gmtoff)
            }),
            time_running > old(self).virtual_time ==> final(self).virtual_time == time_running
                && final(self).gmtoff == gmtoff,
            time_running - old(self).virtual_time < -180 ==> final(self).virtual_time
                == time_running && final(self).gmtoff == gmtoff,
            -180 <= time_running - old(self).virtual_time < 0 ==> final(self).virtual_time == old(
                self,
            ).virtual_time && final(self).gmtoff == old(self).gmtoff,
            forall|i: int| 0 <= i < r@.len() ==> (#[trigger] r@[i]).minute <= time_running,
    {
        let (virtual_time, work) = plan(self.virtual_time, time_running);
        let ghost planned_work = work@;
        proof {
            law_wildcard_jobs_run_now(self.virtual_time, time_running);
        }
        self.virtual_time = virtual_time;
        let mut last = self.last_wild;
        let kept = skip_repeated_wild(work, &mut last);
        self.last_wild = last;
        let earlier: i32 = self.gmtoff;
        let mut out: Vec<Evaluation> = Vec::new();
        let mut i: usize = 0;
        while i < kept.len()
            invariant
                i <= kept@.len(),
                out@.len() == i,
                forall|j: int|
                    0 <= j < i ==> #[trigger] out@[j] == evaluations(
                        kept@,
                        time_running,
                        earlier,
                        gmtoff,
                    )[j],
            decreases kept@.len() - i,
        {
            let (minute, pass) = kept[i];
            let vgmtoff: i32 = if minute < time_running {
                earlier
            } else {
                gmtoff
            };
            out.push(Evaluation { minute, pass, vgmtoff });
            i += 1;
        }
        assert(out@ =~= evaluations(kept@, time_running, earlier, gmtoff));
        if virtual_time == time_running {
            self.gmtoff = gmtoff;
        }
        proof {
            lemma_unrepeated_bound(planned_work, old(self).last_wild, time_running);
            assert forall|i: int| 0 <= i < out@.len() implies (#[trigger] out@[i]).minute
                <= time_running by {
                assert(out@[i] == evaluations(kept@, time_running, earlier, gmtoff)[i]);
                assert(kept@[i] == unrepeated(planned_work, old(self).last_wild).0[i]);
            }
        }
        out
    }
}

proof fn lemma_unrepeated_bound(work: Seq<(i64, Pass)>, last_wild: Option<i64>, now: i64)
    requires
        forall|i: int| 0 <= i < work.len() ==> (#[trigger] work[i]).0 <= now,
    ensures
        forall|i: int|
            0 <= i < unrepeated(work, last_wild).0.len() ==> (#[trigger] unrepeated(
                work,
                last_wild,
            ).0[i]).0 <= now,
    decreases work.len(),
{
    if work.len() > 0 {
        let shorter = work.drop_last();
        assert forall|i: int| 0 <= i < shorter.len() implies (#[trigger] shorter[i]).0 <= now by {
            assert(work[i].0 <= now);
        }
        lemma_unrepeated_bound(shorter, last_wild, now);
        assert(work[work.len() - 1].0 <= now);
        let all = unrepeated(work, last_wild).0;
        let before = unrepeated(shorter, last_wild).0;
        assert forall|i: int| 0 <= i < all.len() implies (#[trigger] all[i]).0 <= now by {
            if i < before.len() {
                assert(all[i] == before[i]);
            }
        }
    }
}

/// What to do while waiting for the next minute.
#[derive(Debug, Clone, Copy, PartialEq, Eq, Structural)]
pub enum Wait {
    /// Look again after this many milliseconds.
    Sleep(u64),
    /// The minute has come, or the clock was set back.
    Stop,
}

/// How to wait with `left` seconds to go. More than 65 seconds mean that the
/// clock stepped backwards: the old deadline is given up.
pub fn wait_step(left: i64) -> (r: Wait)
    ensures
        r == if left <= 0 || left > 65 {
            Wait::Stop
        } else {
            Wait::Sleep(1000)
        },
{
    if left <= 0 || left > 65 {
        Wait::Stop
    } else {
        Wait::Sleep(1000)
    }
}

/// When to wake up: one second past the next local minute.
pub fn wake_time(now: i64, gmtoff: i32) -> (r: i64)
    requires
        i64::MIN <= now + gmtoff,
        now + gmtoff + 60 <= i64::MAX,
        now + 61 <= i64::MAX,
    ensures
        r == ((now + gmtoff) / 60 + 1) * 60 - gmtoff + 1,
        now + 1 < r <= now + 61,
{
    clock::next_minute_epoch(now, gmtoff) + 1
}

/// Are the fixed-time jobs of a minute evaluated?
pub open spec fn evaluates_fixed(work: Seq<(i64, Pass)>, minute: i64) -> bool {
    exists|i: int|
        0 <= i < work.len() && (#[trigger] work[i]).0 == minute && work[i].1 != Pass::WildOnly
}

/// Up to the largest jump, every minute that the virtual clock passes is
/// evaluated for fixed-time jobs once, in order, and no other minute is: such
/// jobs are neither skipped nor repeated.
pub proof fn law_fixed_jobs_run_once(virtual_time: i64, time_running: i64)
    requires
        -MAX_JUMP <= time_running - virtual_time <= MAX_JUMP,
    ensures
        ({
            let (after, work) = planned(virtual_time as int, time_running as int);
            &&& after == if time_running > virtual_time {
                time_running
            } else {
                virtual_time
            }
            &&& forall|i: int|
                0 <= i < work.len() && (#[trigger] work[i]).1 != Pass::WildOnly ==> virtual_time
                    < work[i].0 <= after
            &&& forall|m: i64|
                virtual_time < m <= after ==> #[trigger] evaluates_fixed(work, m)
            &&& forall|i: int, j: int|
                0 <= i < j < work.len() ==> (#[trigger] work[i]).0 < (#[trigger] work[j]).0
        }),
{
    let (after, work) = planned(virtual_time as int, time_running as int);
    assert forall|m: i64| virtual_time < m <= after implies #[trigger] evaluates_fixed(
        work,
        m,
    ) by {
        let i = m - virtual_time - 1;
        assert(work[i].0 == m);
    }
}

/// Where the virtual clock stands after waking up at the given minutes in
/// turn, and all evaluations on the way.
pub open spec fn history(virtual_time: int, times: Seq<i64>) -> (int, Seq<(i64, Pass)>)
    decreases times.len(),
{
    if times.len() == 0 {
        (virtual_time, seq![])
    } else {
        let (before, done) = history(virtual_time, times.drop_last());
        let (after, work) = planned(before, times.last() as int);
        (after, done + work)
    }
}

/// Is the clock never further off than the largest jump when the daemon wakes
/// up?
pub open spec fn steady(virtual_time: int, times: Seq<i64>) -> bool
    decreases times.len(),
{
    times.len() == 0 || {
        &&& steady(virtual_time, times.drop_last())
        &&& -MAX_JUMP <= times.last() - history(virtual_time, times.drop_last()).0 <= MAX_JUMP
    }
}

/// Whatever the clock does within the largest jump, back and forth, fixed-time
/// jobs are evaluated once for every minute that the virtual clock has passed,
/// in order: none is skipped and none is repeated.
pub proof fn law_fixed_jobs_run_once_in_all(virtual_time: i64, times: Seq<i64>)
    requires
        steady(virtual_time as int, times),
    ensures
        ({
            let (after, done) = history(virtual_time as int, times);
            &&& virtual_time <= after <= i64::MAX
            &&& forall|i: int|
                0 <= i < done.len() && (#[trigger] done[i]).1 != Pass::WildOnly ==> virtual_time
                    < done[i].0 <= after
            &&& forall|m: i64| virtual_time < m <= after ==> #[trigger] evaluates_fixed(done, m)
            &&& forall|i: int, j: int|
                0 <= i < j < done.len() && (#[trigger] done[i]).1 != Pass::WildOnly && (
                #[trigger] done[j]).1 != Pass::WildOnly ==> done[i].0 < done[j].0
        }),
    decreases times.len(),
{
    if times.len() > 0 {
        let shorter = times.drop_last();
        law_fixed_jobs_run_once_in_all(virtual_time, shorter);
        let (before, done) = history(virtual_time as int, shorter);
        let now = times.last();
        law_fixed_jobs_run_once(before as i64, now);
        let (after, work) = planned(before, now as int);
        let all = done + work;
        assert forall|i: int|
            0 <= i < all.len() && (#[trigger] all[i]).1 != Pass::WildOnly implies virtual_time
            < all[i].0 <= after by {
            if i < done.len() {
                assert(all[i] == done[i]);
            } else {
                assert(all[i] == work[i - done.len()]);
            }
        }
        assert forall|m: i64| virtual_time < m <= after implies #[trigger] evaluates_fixed(
            all,
            m,
        ) by {
            if m <= before {
                assert(evaluates_fixed(done, m));
                let i = choose|i: int|
                    0 <= i < done.len() && (#[trigger] done[i]).0 == m && done[i].1
                        != Pass::WildOnly;
                assert(all[i] == done[i]);
            } else {
                assert(evaluates_fixed(work, m));
                let i = choose|i: int|
                    0 <= i < work.len() && (#[trigger] work[i]).0 == m && work[i].1
                        != Pass::WildOnly;
                assert(all[done.len() + i] == work[i]);
            }
        }
        assert forall|i: int, j: int|
            0 <= i < j < all.len() && (#[trigger] all[i]).1 != Pass::WildOnly && (
            #[trigger] all[j]).1 != Pass::WildOnly implies all[i].0 < all[j].0 by {
            if j < done.len() {
                assert(all[i] == done[i] && all[j] == done[j]);
            } else if i < done.len() {
                assert(all[i] == done[i] && all[j] == work[j - done.len()]);
            } else {
                assert(all[i] == work[i - done.len()] && all[j] == work[j - done.len()]);
            }
        }
    }
}

/// Wildcard jobs are always evaluated for the current minute, last, and for
/// no minute beyond it.
pub proof fn law_wildcard_jobs_run_now(virtual_time: i64, time_running: i64)
    ensures
        ({
            let work = planned(virtual_time as int, time_running as int).1;
            &&& work.len() > 0
            &&& work.last().0 == time_running
            &&& work.last().1 != Pass::FixedOnly
            &&& forall|i: int| 0 <= i < work.len() ==> (#[trigger] work[i]).0 <= time_running
        }),
{
}

/// Waking up twice in one minute evaluates nothing the second time.
pub proof fn law_early_wake_runs_nothing(virtual_time: i64, time_running: i64)
    requires
        -MAX_JUMP <= time_running - virtual_time <= 0,
    ensures
        unrepeated(
            planned(virtual_time as int, time_running as int).1,
            Some(time_running),
        ).0.len() == 0,
{
    let work = planned(virtual_time as int, time_running as int).1;
    reveal_with_fuel(unrepeated, 2);
    assert(work.drop_last() =~= seq![]);
}

// ---------------------------------------------------------------------------
// Cluster mode
// ---------------------------------------------------------------------------

/// Why a file could not be read: it is not there, or for another reason,
/// which the number tells apart.
#[derive(Debug, Clone, Copy, PartialEq, Eq, Structural)]
pub enum ReadFailure {
    NotFound,
    Other(u32),
}

/// Cluster mode decision: whether user crontabs may run on this host, given
/// the result of reading `<spool>/.cron.hostname`.
pub open spec fn cluster_ok(
    cluster: bool,
    hostname_file: Result<String, ReadFailure>,
    hostname: Seq<char>,
) -> bool {
    !cluster || match hostname_file {
        Ok(h) => crate::text::trim(h@) == hostname,
        Err(_) => false,
    }
}

pub fn cluster_allows(
    cluster: bool,
    hostname_file: &Result<String, ReadFailure>,
    hostname: &str,
) -> (r: bool)
    ensures
        r == cluster_ok(cluster, *hostname_file, hostname@),
{
    if !cluster {
        return true;
    }
    match hostname_file {
        Ok(h) => {
            let text = chars_of(h.as_str());
            let name = chars_of(hostname);
            same(trimmed(text.as_slice()), name.as_slice())
        },
        Err(_) => false,
    }
}

/// The failure to remember, and whether it is to be logged: once for every
/// change, and never for a file that is not there.
pub open spec fn noted(last: Option<ReadFailure>, read: Result<String, ReadFailure>) -> (
    Option<ReadFailure>,
    bool,
) {
    match read {
        Err(ReadFailure::Other(n)) => (
            Some(ReadFailure::Other(n)),
            last != Some(ReadFailure::Other(n)),
        ),
        _ => (None, false),
    }
}

pub fn note_failure(last: &mut Option<ReadFailure>, read: &Result<String, ReadFailure>) -> (r: bool)
    ensures
        (*final(last), r) == noted(*old(last), *read),
{
    match read {
        Err(ReadFailure::Other(n)) => {
            let known = match last {
                Some(ReadFailure::Other(m)) => *m == *n,
                _ => false,
            };
            *last = Some(ReadFailure::Other(*n));
            !known
        },
        _ => {
            *last = None;
            false
        },
    }
}

// ---------------------------------------------------------------------------
// Job slots
// ---------------------------------------------------------------------------

/// Bounded accounting of running jobs, overall and per user.
#[derive(Debug)]
pub struct JobSlots {
    /// Users with running jobs, each with their number.
    counts: Vec<(String, usize)>,
    total: usize,
    max_total: usize,
    max_per_user: usize,
}

/// Stands for one job slot, to be given back with [`JobSlots::release`].
#[derive(Debug)]
pub struct SlotGuard {
    user: String,
}

impl SlotGuard {
    pub closed spec fn owner(&self) -> Seq<char> {
        self.user@
    }
}

/// Index of the user's count, or the length.
pub open spec fn slot_index(counts: Seq<(String, usize)>, user: Seq<char>) -> int
    decreases counts.len(),
{
    if counts.len() == 0 || counts[0].0@ == user {
        0
    } else {
        1 + slot_index(counts.skip(1), user)
    }
}

proof fn lemma_slot_index(counts: Seq<(String, usize)>, user: Seq<char>)
    ensures
        0 <= slot_index(counts, user) <= counts.len(),
        slot_index(counts, user) < counts.len() ==> counts[slot_index(counts, user)].0@ == user,
        forall|i: int| 0 <= i < slot_index(counts, user) ==> (#[trigger] counts[i]).0@ != user,
    decreases counts.len(),
{
    if counts.len() > 0 && counts[0].0@ != user {
        let t = counts.skip(1);
        lemma_slot_index(t, user);
        assert forall|i: int| 0 <= i < slot_index(counts, user) implies (
        #[trigger] counts[i]).0@ != user by {
            if i > 0 {
                assert(t[i - 1] == counts[i]);
            }
        }
    }
}

proof fn lemma_slot_index_is(counts: Seq<(String, usize)>, user: Seq<char>, n: int)
    requires
        0 <= n <= counts.len(),
        n < counts.len() ==> counts[n].0@ == user,
        forall|i: int| 0 <= i < n ==> (#[trigger] counts[i]).0@ != user,
    ensures
        slot_index(counts, user) == n,
{
    lemma_slot_index(counts, user);
    let m = slot_index(counts, user);
    if m < n {
        assert(counts[m].0@ != user);
    } else if n < m {
        assert(counts[n].0@ != user);
    }
}

/// All counts together.
pub open spec fn slot_sum(counts: Seq<(String, usize)>) -> int
    decreases counts.len(),
{
    if counts.len() == 0 {
        0
    } else {
        counts[0].1 + slot_sum(counts.skip(1))
    }
}

proof fn lemma_sum_update(counts: Seq<(String, usize)>, i: int, e: (String, usize))
    requires
        0 <= i < counts.len(),
    ensures
        slot_sum(counts.update(i, e)) == slot_sum(counts) - counts[i].1 + e.1,
        slot_sum(counts) >= counts[i].1,
    decreases counts.len(),
{
    let t = counts.skip(1);
    lemma_sum_nonneg(t);
    if i == 0 {
        assert(counts.update(0, e).skip(1) =~= t);
    } else {
        lemma_sum_update(t, i - 1, e);
        assert(counts.update(i, e).skip(1) =~= t.update(i - 1, e));
        assert(t[i - 1] == counts[i]);
    }
}

proof fn lemma_sum_nonneg(counts: Seq<(String, usize)>)
    ensures
        slot_sum(counts) >= 0,
    decreases counts.len(),
{
    if counts.len() > 0 {
        lemma_sum_nonneg(counts.skip(1));
    }
}

proof fn lemma_sum_push(counts: Seq<(String, usize)>, e: (String, usize))
    ensures
        slot_sum(counts.push(e)) == slot_sum(counts) + e.1,
    decreases counts.len(),
{
    if counts.len() == 0 {
        assert(counts.push(e).skip(1) =~= counts);
    } else {
        lemma_sum_push(counts.skip(1), e);
        assert(counts.push(e).skip(1) =~= counts.skip(1).push(e));
    }
}

proof fn lemma_sum_remove(counts: Seq<(String, usize)>, i: int)
    requires
        0 <= i < counts.len(),
    ensures
        slot_sum(counts.remove(i)) == slot_sum(counts) - counts[i].1,
    decreases counts.len(),
{
    let t = counts.skip(1);
    if i == 0 {
        assert(counts.remove(0) =~= t);
    } else {
        lemma_sum_remove(t, i - 1);
        assert(counts.remove(i).skip(1) =~= t.remove(i - 1));
        assert(t[i - 1] == counts[i]);
    }
}

/// What giving a slot of that user back does to the slots.
pub open spec fn released(before: JobSlots, after: JobSlots, user: Seq<char>) -> bool {
    &&& after.limit_total() == before.limit_total()
    &&& after.limit_per_user() == before.limit_per_user()
    &&& before.held(user) > 0 ==> {
        &&& after.held_total() == before.held_total() - 1
        &&& after.held(user) == before.held(user) - 1
        &&& forall|u: Seq<char>| u != user ==> #[trigger] after.held(u) == before.held(u)
    }
    &&& before.held(user) == 0 ==> after == before
}

impl JobSlots {
    /// Slots that the user holds.
    pub closed spec fn held(&self, user: Seq<char>) -> nat {
        let i = slot_index(self.counts@, user);
        if i < self.counts@.len() {
            self.counts@[i].1 as nat
        } else {
            0
        }
    }

    /// Slots held overall.
    pub closed spec fn held_total(&self) -> nat {
        self.total as nat
    }

    pub closed spec fn limit_total(&self) -> nat {
        self.max_total as nat
    }

    pub closed spec fn limit_per_user(&self) -> nat {
        self.max_per_user as nat
    }

    /// The total is the sum over the users, and no limit is exceeded.
    pub closed spec fn wf(&self) -> bool {
        &&& self.total == slot_sum(self.counts@)
        &&& self.total <= self.max_total
        &&& forall|i: int, j: int|
            0 <= i < j < self.counts@.len() ==> (#[trigger] self.counts@[i]).0@ != (
            #[trigger] self.counts@[j]).0@
        &&& forall|i: int|
            0 <= i < self.counts@.len() ==> 0 < (#[trigger] self.counts@[i]).1 <= self.max_per_user
    }

    pub fn new(max_total: usize, max_per_user: usize) -> (r: JobSlots)
        ensures
            r.wf(),
            r.limit_total() == max_total,
            r.limit_per_user() == max_per_user,
            r.held_total() == 0,
            forall|u: Seq<char>| #[trigger] r.held(u) == 0,
    {
        JobSlots { counts: Vec::new(), total: 0, max_total, max_per_user }
    }

    fn find(&self, user: &str) -> (r: usize)
        ensures
            r == slot_index(self.counts@, user@),
            r <= self.counts@.len(),
    {
        let mut i: usize = 0;
        while i < self.counts.len() && !same_str(self.counts[i].0.as_str(), user)
            invariant
                i <= self.counts@.len(),
                forall|j: int| 0 <= j < i ==> (#[trigger] self.counts@[j]).0@ != user@,
            decreases self.counts@.len() - i,
        {
            i += 1;
        }
        proof {
            lemma_slot_index_is(self.counts@, user@, i as int);
        }
        i
    }

    /// No user holds more than the limits allow.
    pub proof fn law_limits(&self, user: Seq<char>)
        requires
            self.wf(),
        ensures
            self.held(user) <= self.limit_per_user(),
            self.held(user) <= self.held_total() <= self.limit_total(),
    {
        lemma_slot_index(self.counts@, user);
        let i = slot_index(self.counts@, user);
        if i < self.counts@.len() {
            lemma_sum_update(self.counts@, i, self.counts@[i]);
        }
    }

    /// Reserve a slot for `user`, or `None` when a limit is reached.
    pub fn try_acquire(&mut self, user: &str) -> (r: Option<SlotGuard>)
        requires
            old(self).wf(),
        ensures
            final(self).wf(),
            final(self).limit_total() == old(self).limit_total(),
            final(self).limit_per_user() == old(self).limit_per_user(),
            r is Some <==> old(self).held_total() < old(self).limit_total() && old(self).held(user@)
                < old(self).limit_per_user(),
            r matches Some(g) ==> {
                &&& g.owner() == user@
                &&& final(self).held_total() == old(self).held_total() + 1
                &&& final(self).held(user@) == old(self).held(user@) + 1
                &&& forall|u: Seq<char>|
                    u != user@ ==> #[trigger] final(self).held(u) == old(self).held(u)
            },
            r is None ==> *final(self) == *old(self),
    {
        let i = self.find(user);
        let ghost before = self.counts@;
        proof {
            lemma_slot_index(before, user@);
        }
        let mine: usize = if i < self.counts.len() {
            self.counts[i].1
        } else {
            0
        };
        if self.total >= self.max_total || mine >= self.max_per_user {
            return None;
        }
        if i < self.counts.len() {
            let name = self.counts[i].0.clone();
            self.counts.set(i, (name, mine + 1));
            proof {
                lemma_sum_update(before, i as int, self.counts@[i as int]);
            }
        } else {
            self.counts.push((user.to_owned(), 1));
            proof {
                lemma_sum_push(before, self.counts@[i as int]);
            }
        }
        self.total = self.total + 1;
        proof {
            let now = self.counts@;
            assert forall|u: Seq<char>|
                u != user@ implies #[trigger] self.held(u) == old(self).held(u) by {
                lemma_slot_index(before, u);
                let k = slot_index(before, u);
                if k < before.len() {
                    assert forall|j: int| 0 <= j < k implies (#[trigger] now[j]).0@ != u by {
                        assert(before[j].0@ != u);
                    }
                    lemma_slot_index_is(now, u, k);
                } else {
                    assert forall|j: int| 0 <= j < now.len() implies (#[trigger] now[j]).0@
                        != u by {
                        if j < before.len() {
                            assert(before[j].0@ != u);
                        }
                    }
                    lemma_slot_index_is(now, u, now.len() as int);
                }
            }
            assert forall|j: int| 0 <= j < i implies (#[trigger] now[j]).0@ != user@ by {
                assert(before[j].0@ != user@);
            }
            lemma_slot_index_is(now, user@, i as int);
            assert forall|a: int, b: int| 0 <= a < b < now.len() implies (#[trigger] now[a]).0@ != (
            #[trigger] now[b]).0@ by {
                if b < before.len() {
                    assert(before[a].0@ != before[b].0@);
                }
            }
        }
        Some(SlotGuard { user: user.to_owned() })
    }

    /// Gives a slot back.
    pub fn release(&mut self, slot: SlotGuard)
        requires
            old(self).wf(),
        ensures
            final(self).wf(),
            released(*old(self), *final(self), slot.owner()),
    {
        let i = self.find(slot.user.as_str());
        let ghost before = self.counts@;
        let ghost user = slot.user@;
        proof {
            lemma_slot_index(before, user);
        }
        if i >= self.counts.len() {
            return;
        }
        proof {
            lemma_sum_update(before, i as int, before[i as int]);
        }
        let n: usize = self.counts[i].1;
        self.total = self.total - 1;
        if n > 1 {
            let name = self.counts[i].0.clone();
            self.counts.set(i, (name, n - 1));
            proof {
                lemma_sum_update(before, i as int, self.counts@[i as int]);
                let now = self.counts@;
                assert forall|u: Seq<char>| u != user implies #[trigger] self.held(u) == old(
                    self,
                ).held(u) by {
                    lemma_slot_index(before, u);
                    let k = slot_index(before, u);
                    assert forall|j: int| 0 <= j < k implies (#[trigger] now[j]).0@ != u by {
                        assert(before[j].0@ != u);
                    }
                    lemma_slot_index_is(now, u, k);
                }
                assert forall|j: int| 0 <= j < i implies (#[trigger] now[j]).0@ != user by {
                    assert(before[j].0@ != user);
                }
                lemma_slot_index_is(now, user, i as int);
                assert forall|a: int, b: int| 0 <= a < b < now.len() implies (
                #[trigger] now[a]).0@ != (#[trigger] now[b]).0@ by {
                    assert(before[a].0@ != before[b].0@);
                }
            }
        } else {
            self.counts.remove(i);
            proof {
                lemma_sum_remove(before, i as int);
                let now = self.counts@;
                assert forall|a: int, b: int| 0 <= a < b < now.len() implies (
                #[trigger] now[a]).0@ != (#[trigger] now[b]).0@ by {
                    let x = if a < i {
                        a
                    } else {
                        a + 1
                    };
                    let y = if b < i {
                        b
                    } else {
                        b + 1
                    };
                    assert(before[x].0@ != before[y].0@);
                }
                assert forall|j: int| 0 <= j < now.len() implies (#[trigger] now[j]).0@
                    != user by {
                    if j < i {
                        assert(before[j].0@ != before[i as int].0@);
                    } else {
                        assert(before[i as int].0@ != before[j + 1].0@);
                    }
                }
                lemma_slot_index_is(now, user, now.len() as int);
                assert forall|u: Seq<char>| u != user implies #[trigger] self.held(u) == old(
                    self,
                ).held(u) by {
                    lemma_slot_index(before, u);
                    let k = slot_index(before, u);
                    let l = if k < i {
                        k
                    } else {
                        k - 1
                    };
                    assert forall|j: int| 0 <= j < l implies (#[trigger] now[j]).0@ != u by {
                        if j < i {
                            assert(before[j].0@ != u);
                        } else {
                            assert(before[j + 1].0@ != u);
                        }
                    }
                    lemma_slot_index_is(now, u, l);
                }
            }
        }
    }

    /// Currently held slots (total, for `user`).
    pub fn in_use(&self, user: &str) -> (r: (usize, usize))
        ensures
            r.0 == self.held_total(),
            r.1 == self.held(user@),
    {
        let i = self.find(user);
        let mine: usize = if i < self.counts.len() {
            self.counts[i].1
        } else {
            0
        };
        (self.total, mine)
    }
}

// ---------------------------------------------------------------------------
// Due jobs
// ---------------------------------------------------------------------------

/// The minute in question, the offset its number was counted with, and the
/// offset in effect now.
#[derive(Debug, Clone, Copy, PartialEq, Eq, Structural)]
pub struct Moment {
    pub minute: i64,
    pub vgmtoff: i32,
    pub gmtoff: i32,
}

impl Moment {
    /// The minute lies in the representable years.
    pub open spec fn valid(self) -> bool {
        crate::calendar::min_second() <= self.minute * 60 < crate::calendar::end_second()
    }
}

pub open spec fn wanted(pass: Pass, wild: bool) -> bool {
    match pass {
        Pass::All => true,
        Pass::WildOnly => wild,
        Pass::FixedOnly => !wild,
    }
}

/// The zone with the given name; UTC for a name that is not in the list.
pub open spec fn zone_for(zones: Seq<(String, Zone)>, name: Seq<char>) -> crate::zone::ZoneModel
    decreases zones.len(),
{
    if zones.len() == 0 {
        crate::zone::ZoneModel::utc()
    } else if zones[0].0@ == name {
        zones[0].1@
    } else {
        zone_for(zones.skip(1), name)
    }
}

/// The second, counted on its own wall clock, at which the entry sees the
/// moment: local time, or that of its zone.
pub open spec fn second_for(entry: Entry, at: Moment, zones: Seq<(String, Zone)>) -> int {
    match entry.tz {
        Some(name) => {
            let zone = zone_for(zones, name@);
            let t = at.minute * 60 - at.vgmtoff;
            crate::zone::saturated(t + zone.offset(t) - zone.correction(t))
        },
        None => at.minute * 60,
    }
}

/// Is the job due? Jobs with `CRON_TZ`, even an empty one, are left out while
/// the local offset is changing.
pub open spec fn is_due(entry: Entry, at: Moment, pass: Pass, zones: Seq<(String, Zone)>) -> bool {
    &&& wanted(pass, entry.schedule.wild())
    &&& crate::crontab::env_value(
        crate::crontab::env_model(entry.env@),
        "CRON_TZ"@,
    ) is Some ==> at.vgmtoff == at.gmtoff
    &&& exists|t: WallTime| #[trigger]
        entry.schedule.fires(t) && t.valid() && t.second_number() == second_for(entry, at, zones)
}

fn find_zone(zones: &Vec<(String, Zone)>, name: &str) -> (r: Zone)
    ensures
        r@ == zone_for(zones@, name@),
{
    let mut i: usize = 0;
    assert(zones@.skip(0) =~= zones@);
    while i < zones.len()
        invariant
            i <= zones@.len(),
            zone_for(zones@.skip(i as int), name@) == zone_for(zones@, name@),
        decreases zones@.len() - i,
    {
        assert(zones@.skip(i as int).skip(1) =~= zones@.skip(i + 1));
        if same_str(zones[i].0.as_str(), name) {
            return zones[i].1.clone();
        }
        i += 1;
    }
    Zone::utc()
}

/// Is the job due at the moment?
pub fn due(entry: &Entry, at: &Moment, pass: Pass, zones: &Vec<(String, Zone)>) -> (r: bool)
    requires
        at.valid(),
    ensures
        r == is_due(*entry, *at, pass, zones@),
{
    let wild = entry.schedule.is_wild();
    let want = match pass {
        Pass::All => true,
        Pass::WildOnly => wild,
        Pass::FixedOnly => !wild,
    };
    if !want {
        return false;
    }
    if at.vgmtoff != at.gmtoff && env_get(entry.env.as_slice(), "CRON_TZ").is_some() {
        return false;
    }
    proof {
        crate::calendar::lemma_range();
    }
    let t = match &entry.tz {
        Some(name) => {
            let zone = find_zone(zones, name.as_str());
            clock::wall_time_in_tz(at.minute, at.vgmtoff, &zone)
        },
        None => clock::wall_time(at.minute),
    };
    let fires = entry.schedule.matches(&t);
    proof {
        assert forall|u: WallTime| #[trigger]
            entry.schedule.fires(u) && u.valid() && u.second_number() == second_for(
                *entry,
                *at,
                zones@,
            ) implies fires by {
            assert(u.minute_number() == t.minute_number());
            entry.schedule.lemma_fires_by_minute(u, t);
        }
    }
    fires
}

/// A job to start: the positions of its crontab and entry, and the minutes to
/// wait before starting it.
#[derive(Debug, Clone, Copy, PartialEq, Eq, Structural)]
pub struct DueJob {
    pub tab: usize,
    pub entry: usize,
    pub delay: u32,
}

/// Which jobs are asked for.
pub open spec fn selected(
    entry: Entry,
    reboot: bool,
    at: Moment,
    pass: Pass,
    zones: Seq<(String, Zone)>,
) -> bool {
    if reboot {
        entry.schedule.rebooting()
    } else {
        is_due(entry, at, pass, zones)
    }
}

/// The delay of the job at a position of a crontab, if delays apply.
pub open spec fn delay_for(tab: LoadedTab, entry: int, delayed: bool) -> u32 {
    if delayed {
        tab.delay_of(entry)
    } else {
        0
    }
}

/// The jobs among the first `n` entries of a crontab.
pub open spec fn jobs_in_tab(
    tab: LoadedTab,
    position: int,
    n: int,
    delayed: bool,
    reboot: bool,
    at: Moment,
    pass: Pass,
    zones: Seq<(String, Zone)>,
) -> Seq<DueJob>
    decreases n,
{
    if n <= 0 {
        seq![]
    } else {
        let before = jobs_in_tab(tab, position, n - 1, delayed, reboot, at, pass, zones);
        if selected(tab.crontab.entries@[n - 1], reboot, at, pass, zones) {
            before.push(
                DueJob {
                    tab: position as usize,
                    entry: (n - 1) as usize,
                    delay: delay_for(tab, n - 1, delayed),
                },
            )
        } else {
            before
        }
    }
}

/// The jobs of the first `n` crontabs, in the order of the paths. Users'
/// crontabs count only if `users_ok`.
pub open spec fn jobs_in(
    tabs: Seq<(String, LoadedTab)>,
    n: int,
    users_ok: bool,
    honor_delay: bool,
    reboot: bool,
    at: Moment,
    pass: Pass,
    zones: Seq<(String, Zone)>,
) -> Seq<DueJob>
    decreases n,
{
    if n <= 0 {
        seq![]
    } else {
        let before = jobs_in(tabs, n - 1, users_ok, honor_delay, reboot, at, pass, zones);
        let tab = tabs[n - 1].1;
        if tab.format == Format::User && !users_ok {
            before
        } else {
            before + jobs_in_tab(
                tab,
                n - 1,
                tab.crontab.entries@.len() as int,
                honor_delay && !reboot,
                reboot,
                at,
                pass,
                zones,
            )
        }
    }
}

fn push_jobs(
    out: &mut Vec<DueJob>,
    tab: &LoadedTab,
    position: usize,
    delayed: bool,
    reboot: bool,
    at: &Moment,
    pass: Pass,
    zones: &Vec<(String, Zone)>,
)
    requires
        !reboot ==> at.valid(),
    ensures
        final(out)@ == old(out)@ + jobs_in_tab(
            *tab,
            position as int,
            tab.crontab.entries@.len() as int,
            delayed,
            reboot,
            *at,
            pass,
            zones@,
        ),
{
    let ghost before = out@;
    let mut k: usize = 0;
    assert(before + Seq::<DueJob>::empty() =~= before);
    while k < tab.crontab.entries.len()
        invariant
            k <= tab.crontab.entries@.len(),
            !reboot ==> at.valid(),
            out@ == before + jobs_in_tab(
                *tab,
                position as int,
                k as int,
                delayed,
                reboot,
                *at,
                pass,
                zones@,
            ),
        decreases tab.crontab.entries@.len() - k,
    {
        let entry = &tab.crontab.entries[k];
        let take = if reboot {
            entry.schedule.is_reboot()
        } else {
            due(entry, at, pass, zones)
        };
        let ghost done = jobs_in_tab(
            *tab,
            position as int,
            k as int,
            delayed,
            reboot,
            *at,
            pass,
            zones@,
        );
        if take {
            let delay: u32 = if delayed {
                tab.delay(k)
            } else {
                0
            };
            let ghost job = DueJob { tab: position, entry: k, delay };
            out.push(DueJob { tab: position, entry: k, delay });
            assert((before + done).push(job) =~= before + done.push(job));
        }
        k += 1;
    }
}

fn collect_jobs(
    db: &Database,
    users_ok: bool,
    honor_delay: bool,
    reboot: bool,
    at: &Moment,
    pass: Pass,
    zones: &Vec<(String, Zone)>,
) -> (r: Vec<DueJob>)
    requires
        !reboot ==> at.valid(),
    ensures
        r@ == jobs_in(
            db.listed(),
            db.listed().len() as int,
            users_ok,
            honor_delay,
            reboot,
            *at,
            pass,
            zones@,
        ),
        db.listed().len() <= usize::MAX,
{
    let mut out: Vec<DueJob> = Vec::new();
    let n = db.tab_count();
    let mut i: usize = 0;
    while i < n
        invariant
            i <= n == db.listed().len(),
            !reboot ==> at.valid(),
            out@ == jobs_in(
                db.listed(),
                i as int,
                users_ok,
                honor_delay,
                reboot,
                *at,
                pass,
                zones@,
            ),
        decreases n - i,
    {
        let tab = db.tab(i);
        if tab.format == Format::User && !users_ok {
        } else {
            push_jobs(&mut out, tab, i, honor_delay && !reboot, reboot, at, pass, zones);
        }
        i += 1;
    }
    out
}

/// The jobs due at a local minute, in the order in which they are started.
/// `users_ok` says whether users' crontabs may run here, `honor_delay` whether
/// delays apply, and `zones` holds the zones that entries name.
pub open spec fn due_jobs_of(
    tabs: Seq<(String, LoadedTab)>,
    users_ok: bool,
    honor_delay: bool,
    at: Moment,
    pass: Pass,
    zones: Seq<(String, Zone)>,
) -> Seq<DueJob> {
    jobs_in(tabs, tabs.len() as int, users_ok, honor_delay, false, at, pass, zones)
}

/// Every `@reboot` job; no delay applies, and the time does not matter.
pub open spec fn reboot_jobs_of(tabs: Seq<(String, LoadedTab)>, users_ok: bool) -> Seq<DueJob> {
    jobs_in(
        tabs,
        tabs.len() as int,
        users_ok,
        false,
        true,
        Moment { minute: 0, vgmtoff: 0, gmtoff: 0 },
        Pass::All,
        seq![],
    )
}

/// What to do with a due job.
#[derive(Debug)]
pub enum Dispatch {
    /// Nobody is named to run it.
    NoUser,
    /// There are too many running jobs; it is skipped.
    Full(String),
    /// Start it as this user; the slot is to be released when it ends.
    Start(String, SlotGuard),
}

/// The user who runs an entry: the one it names, or the owner of the file.
pub open spec fn job_user_of(owner: Option<String>, user: Option<String>) -> Option<Seq<char>> {
    match user {
        Some(u) => Some(u@),
        None => crate::crontab::text_model(owner),
    }
}

pub fn job_user(tab: &LoadedTab, entry: &Entry) -> (r: Option<String>)
    ensures
        crate::crontab::text_model(r) == job_user_of(tab.owner, entry.user),
{
    match &entry.user {
        Some(u) => Some(u.clone()),
        None => match &tab.owner {
            Some(o) => Some(o.clone()),
            None => None,
        },
    }
}

/// What dispatching a job of that user does to the slots.
pub open spec fn dispatched(
    before: JobSlots,
    after: JobSlots,
    user: Option<Seq<char>>,
    r: Dispatch,
) -> bool {
    &&& after.limit_total() == before.limit_total()
    &&& after.limit_per_user() == before.limit_per_user()
    &&& match user {
        None => r is NoUser && after == before,
        Some(user) => if before.held_total() < before.limit_total() && before.held(user)
            < before.limit_per_user() {
            &&& r matches Dispatch::Start(u, g) && u@ == user && g.owner() == user
            &&& after.held_total() == before.held_total() + 1
            &&& after.held(user) == before.held(user) + 1
            &&& forall|u: Seq<char>| u != user ==> #[trigger] after.held(u) == before.held(u)
        } else {
            &&& r matches Dispatch::Full(u) && u@ == user
            &&& after == before
        },
    }
}

/// Decides whether a due job starts, and takes its slot.
fn take_slot(slots: &mut JobSlots, tab: &LoadedTab, entry: &Entry) -> (r: Dispatch)
    requires
        old(slots).wf(),
    ensures
        final(slots).wf(),
        dispatched(*old(slots), *final(slots), job_user_of(tab.owner, entry.user), r),
{
    match job_user(tab, entry) {
        None => Dispatch::NoUser,
        Some(user) => match slots.try_acquire(user.as_str()) {
            Some(slot) => Dispatch::Start(user, slot),
            None => Dispatch::Full(user),
        },
    }
}

// ---------------------------------------------------------------------------
// The scheduler
// ---------------------------------------------------------------------------

/// Is this a job of one of the crontabs, with the delay of its entry if delays
/// apply and without one otherwise?
pub open spec fn started_in_a_round(
    tabs: Seq<(String, LoadedTab)>,
    honor_delay: bool,
    job: DueJob,
) -> bool {
    &&& job.tab < tabs.len()
    &&& job.entry < tabs[job.tab as int].1.crontab.entries@.len()
    &&& !honor_delay ==> job.delay == 0
    &&& honor_delay && job.entry < tabs[job.tab as int].1.delays@.len() ==> job.delay
        == tabs[job.tab as int].1.delays@[job.entry as int]
}

/// What a round of jobs starts.
#[derive(Debug)]
pub struct Round {
    pub jobs: Vec<DueJob>,
    /// Log that `<spool>/.cron.hostname` cannot be read.
    pub log_failure: bool,
}

pub struct Scheduler {
    pub db: Database,
    pub runner: Runner,
    /// `-c`: only run spool crontabs when this host is the cluster host.
    pub cluster: bool,
    /// Apply `RANDOM_DELAY` offsets (disabled for one-shot runs).
    pub honor_delay: bool,
    pub slots: JobSlots,
    /// Last failure to read `.cron.hostname`, so that it is logged once per
    /// change.
    pub cluster_err: Option<ReadFailure>,
    /// Jobs that could not be started (thread spawn failure or over cap).
    pub dispatch_failures: usize,
}

impl Scheduler {
    pub open spec fn wf(&self) -> bool {
        self.slots.wf()
    }

    /// Nothing but the slots, the known failure and the count may differ.
    pub open spec fn same_setup(&self, other: &Scheduler) -> bool {
        &&& self.db == other.db
        &&& self.runner == other.runner
        &&& self.cluster == other.cluster
        &&& self.honor_delay == other.honor_delay
    }

    pub fn new(db: Database, runner: Runner, cluster: bool, honor_delay: bool) -> (r: Scheduler)
        ensures
            r.wf(),
            r.db == db,
            r.runner == runner,
            r.cluster == cluster,
            r.honor_delay == honor_delay,
            r.cluster_err is None,
            r.dispatch_failures == 0,
            r.slots.limit_total() == MAX_JOBS_TOTAL,
            r.slots.limit_per_user() == MAX_JOBS_PER_USER,
            r.slots.limit_total() == 512,
            r.slots.limit_per_user() == 64,
            r.slots.held_total() == 0,
            forall|u: Seq<char>| #[trigger] r.slots.held(u) == 0,
    {
        Scheduler {
            db,
            runner,
            cluster,
            honor_delay,
            slots: JobSlots::new(MAX_JOBS_TOTAL, MAX_JOBS_PER_USER),
            cluster_err: None,
            dispatch_failures: 0,
        }
    }

    /// Number of jobs that could not be started since the last call.
    pub fn take_dispatch_failures(&mut self) -> (r: usize)
        requires
            old(self).wf(),
        ensures
            r == old(self).dispatch_failures,
            final(self).dispatch_failures == 0,
            final(self).wf(),
            final(self).same_setup(old(self)),
            final(self).slots == old(self).slots,
            final(self).cluster_err == old(self).cluster_err,
    {
        let n: usize = self.dispatch_failures;
        self.dispatch_failures = 0;
        n
    }

    /// Whether users' crontabs may run here, and whether the failure to read
    /// the host file is to be logged. The file counts only in cluster mode.
    fn cluster_allows_user_tabs(&mut self, read: &Result<String, ReadFailure>) -> (r: (bool, bool))
        requires
            old(self).wf(),
        ensures
            r.0 == cluster_ok(old(self).cluster, *read, old(self).runner.hostname@),
            (final(self).cluster_err, r.1) == if old(self).cluster {
                noted(old(self).cluster_err, *read)
            } else {
                (old(self).cluster_err, false)
            },
            final(self).wf(),
            final(self).same_setup(old(self)),
            final(self).slots == old(self).slots,
            final(self).dispatch_failures == old(self).dispatch_failures,
    {
        if !self.cluster {
            return (true, false);
        }
        let log = note_failure(&mut self.cluster_err, read);
        (cluster_allows(true, read, self.runner.hostname.as_str()), log)
    }

    /// Every `@reboot` job. `read` is what reading the cluster host file gave.
    pub fn run_reboot(&mut self, read: &Result<String, ReadFailure>) -> (r: Round)
        requires
            old(self).wf(),
        ensures
            r.jobs@ == reboot_jobs_of(
                old(self).db.listed(),
                cluster_ok(old(self).cluster, *read, old(self).runner.hostname@),
            ),
            (final(self).cluster_err, r.log_failure) == if old(self).cluster {
                noted(old(self).cluster_err, *read)
            } else {
                (old(self).cluster_err, false)
            },
            final(self).wf(),
            final(self).same_setup(old(self)),
            final(self).slots == old(self).slots,
            final(self).dispatch_failures == old(self).dispatch_failures,
    {
        let (users_ok, log_failure) = self.cluster_allows_user_tabs(read);
        let at = Moment { minute: 0, vgmtoff: 0, gmtoff: 0 };
        let none: Vec<(String, Zone)> = Vec::new();
        assert(none@ =~= seq![]);
        let jobs = collect_jobs(&self.db, users_ok, false, true, &at, Pass::All, &none);
        Round { jobs, log_failure }
    }

    /// The jobs due at a local minute, in the order in which they are to be
    /// dispatched. `read` is what reading the cluster host file gave, and
    /// `zones` holds the zones that entries name.
    pub fn run_minute(
        &mut self,
        read: &Result<String, ReadFailure>,
        at: &Moment,
        pass: Pass,
        zones: &Vec<(String, Zone)>,
    ) -> (r: Round)
        requires
            old(self).wf(),
            at.valid(),
        ensures
            r.jobs@ == due_jobs_of(
                old(self).db.listed(),
                cluster_ok(old(self).cluster, *read, old(self).runner.hostname@),
                old(self).honor_delay,
                *at,
                pass,
                zones@,
            ),
            forall|i: int|
                0 <= i < r.jobs@.len() ==> started_in_a_round(
                    old(self).db.listed(),
                    old(self).honor_delay,
                    #[trigger] r.jobs@[i],
                ),
            !old(self).cluster ==> r.jobs@ == due_jobs_of(
                old(self).db.listed(),
                true,
                old(self).honor_delay,
                *at,
                pass,
                zones@,
            ) && !r.log_failure,
            (final(self).cluster_err, r.log_failure) == if old(self).cluster {
                noted(old(self).cluster_err, *read)
            } else {
                (old(self).cluster_err, false)
            },
            final(self).wf(),
            final(self).same_setup(old(self)),
            final(self).slots == old(self).slots,
            final(self).dispatch_failures == old(self).dispatch_failures,
    {
        let (users_ok, log_failure) = self.cluster_allows_user_tabs(read);
        let jobs = collect_jobs(&self.db, users_ok, self.honor_delay, false, at, pass, zones);
        proof {
            let tabs = self.db.listed();
            let honor_delay = self.honor_delay;
            assert forall|i: int| 0 <= i < jobs@.len() implies started_in_a_round(
                tabs,
                honor_delay,
                #[trigger] jobs@[i],
            ) by {
                assert(jobs@.contains(jobs@[i]));
                law_jobs_of_a_minute(tabs, users_ok, honor_delay, *at, pass, zones@, jobs@[i]);
            }
        }
        Round { jobs, log_failure }
    }

    /// Decides whether a due job starts, and takes its slot. A job that is
    /// skipped because too many run counts as a failure.
    pub fn dispatch(&mut self, job: &DueJob) -> (r: Dispatch)
        requires
            old(self).wf(),
            job.tab < old(self).db.listed().len(),
            job.entry < old(self).db.listed()[job.tab as int].1.crontab.entries@.len(),
        ensures
            final(self).wf(),
            final(self).same_setup(old(self)),
            final(self).cluster_err == old(self).cluster_err,
            ({
                let tab = old(self).db.listed()[job.tab as int].1;
                let entry = tab.crontab.entries@[job.entry as int];
                &&& dispatched(
                    old(self).slots,
                    final(self).slots,
                    job_user_of(tab.owner, entry.user),
                    r,
                )
                &&& final(self).dispatch_failures == if r is Full {
                    old(self).dispatch_failures.wrapping_add(1)
                } else {
                    old(self).dispatch_failures
                }
            }),
    {
        let tab = self.db.tab(job.tab);
        let r = take_slot(&mut self.slots, tab, &tab.crontab.entries[job.entry]);
        if let Dispatch::Full(_) = &r {
            self.dispatch_failures = self.dispatch_failures.wrapping_add(1);
        }
        r
    }

    /// A job that was to start could not; its slot is given back.
    pub fn spawn_failed(&mut self, slot: SlotGuard)
        requires
            old(self).wf(),
        ensures
            final(self).wf(),
            final(self).same_setup(old(self)),
            final(self).cluster_err == old(self).cluster_err,
            released(old(self).slots, final(self).slots, slot.owner()),
            final(self).dispatch_failures == old(self).dispatch_failures.wrapping_add(1),
    {
        self.slots.release(slot);
        self.dispatch_failures = self.dispatch_failures.wrapping_add(1);
    }

    /// A job has ended; its slot is given back.
    pub fn finished(&mut self, slot: SlotGuard)
        requires
            old(self).wf(),
        ensures
            final(self).wf(),
            final(self).same_setup(old(self)),
            final(self).cluster_err == old(self).cluster_err,
            released(old(self).slots, final(self).slots, slot.owner()),
            final(self).dispatch_failures == old(self).dispatch_failures,
    {
        self.slots.release(slot);
    }
}

/// Users' crontabs do not run where the cluster does not allow them.
pub proof fn law_cluster_holds_user_jobs(
    tabs: Seq<(String, LoadedTab)>,
    n: int,
    honor_delay: bool,
    reboot: bool,
    at: Moment,
    pass: Pass,
    zones: Seq<(String, Zone)>,
)
    requires
        0 <= n <= tabs.len(),
        tabs.len() <= usize::MAX,
    ensures
        forall|i: int|
            0 <= i < jobs_in(tabs, n, false, honor_delay, reboot, at, pass, zones).len()
                ==> tabs[(#[trigger] jobs_in(
                tabs,
                n,
                false,
                honor_delay,
                reboot,
                at,
                pass,
                zones,
            )[i]).tab as int].1.format == Format::System,
{
    let all = jobs_in(tabs, n, false, honor_delay, reboot, at, pass, zones);
    assert forall|i: int| 0 <= i < all.len() implies tabs[(
    #[trigger] all[i]).tab as int].1.format == Format::System by {
        law_jobs_are_those_asked_for(
            tabs,
            n,
            false,
            honor_delay,
            reboot,
            at,
            pass,
            zones,
            all[i],
        );
    }
}

proof fn lemma_jobs_in_tab(
    tab: LoadedTab,
    position: int,
    n: int,
    delayed: bool,
    reboot: bool,
    at: Moment,
    pass: Pass,
    zones: Seq<(String, Zone)>,
    job: DueJob,
)
    requires
        0 <= n <= tab.crontab.entries@.len(),
        0 <= position <= usize::MAX,
    ensures
        jobs_in_tab(tab, position, n, delayed, reboot, at, pass, zones).contains(job) <==> {
            &&& job.tab == position
            &&& job.entry < n
            &&& job.delay == delay_for(tab, job.entry as int, delayed)
            &&& selected(tab.crontab.entries@[job.entry as int], reboot, at, pass, zones)
        },
    decreases n,
{
    let all = jobs_in_tab(tab, position, n, delayed, reboot, at, pass, zones);
    if n > 0 {
        lemma_jobs_in_tab(tab, position, n - 1, delayed, reboot, at, pass, zones, job);
        let before = jobs_in_tab(tab, position, n - 1, delayed, reboot, at, pass, zones);
        assert(tab.crontab.entries.len() == tab.crontab.entries@.len());
        assert(n - 1 <= usize::MAX);
        let last = DueJob {
            tab: position as usize,
            entry: (n - 1) as usize,
            delay: delay_for(tab, n - 1, delayed),
        };
        if selected(tab.crontab.entries@[n - 1], reboot, at, pass, zones) {
            assert(all == before.push(last));
            if before.contains(job) {
                let k = choose|k: int| 0 <= k < before.len() && before[k] == job;
                assert(all[k] == job);
            }
            assert(all[before.len() as int] == last);
            if all.contains(job) {
                let k = choose|k: int| 0 <= k < all.len() && all[k] == job;
                if k < before.len() {
                    assert(before[k] == job);
                }
            }
            if job.tab == position && job.entry == n - 1 && job.delay == last.delay {
                assert(job == last);
            }
        }
    }
}

/// The jobs to start are exactly those asked for: an entry of a crontab that
/// may run here, due at the moment (or for `@reboot`), with its delay where
/// delays apply.
pub proof fn law_jobs_are_those_asked_for(
    tabs: Seq<(String, LoadedTab)>,
    n: int,
    users_ok: bool,
    honor_delay: bool,
    reboot: bool,
    at: Moment,
    pass: Pass,
    zones: Seq<(String, Zone)>,
    job: DueJob,
)
    requires
        0 <= n <= tabs.len() <= usize::MAX,
    ensures
        jobs_in(tabs, n, users_ok, honor_delay, reboot, at, pass, zones).contains(job) <==> {
            &&& job.tab < n
            &&& users_ok || tabs[job.tab as int].1.format == Format::System
            &&& job.entry < tabs[job.tab as int].1.crontab.entries@.len()
            &&& job.delay == delay_for(
                tabs[job.tab as int].1,
                job.entry as int,
                honor_delay && !reboot,
            )
            &&& selected(
                tabs[job.tab as int].1.crontab.entries@[job.entry as int],
                reboot,
                at,
                pass,
                zones,
            )
        },
    decreases n,
{
    if n > 0 {
        law_jobs_are_those_asked_for(
            tabs,
            n - 1,
            users_ok,
            honor_delay,
            reboot,
            at,
            pass,
            zones,
            job,
        );
        let tab = tabs[n - 1].1;
        let before = jobs_in(tabs, n - 1, users_ok, honor_delay, reboot, at, pass, zones);
        let all = jobs_in(tabs, n, users_ok, honor_delay, reboot, at, pass, zones);
        if !(tab.format == Format::User && !users_ok) {
            let delayed = honor_delay && !reboot;
            let len = tab.crontab.entries@.len() as int;
            let more = jobs_in_tab(tab, n - 1, len, delayed, reboot, at, pass, zones);
            lemma_jobs_in_tab(tab, n - 1, len, delayed, reboot, at, pass, zones, job);
            assert(all == before + more);
            if before.contains(job) {
                let k = choose|k: int| 0 <= k < before.len() && before[k] == job;
                assert(all[k] == job);
            }
            if more.contains(job) {
                let k = choose|k: int| 0 <= k < more.len() && more[k] == job;
                assert(all[before.len() + k] == job);
            }
            if all.contains(job) {
                let k = choose|k: int| 0 <= k < all.len() && all[k] == job;
                if k < before.len() {
                    assert(before[k] == job);
                } else {
                    assert(more[k - before.len()] == job);
                }
            }
        }
    }
}

/// Giving a slot back undoes taking it.
pub proof fn law_release_undoes_dispatch(
    before: JobSlots,
    running: JobSlots,
    after: JobSlots,
    user: Seq<char>,
    r: Dispatch,
)
    requires
        dispatched(before, running, Some(user), r),
        r is Start,
        released(running, after, user),
    ensures
        after.held_total() == before.held_total(),
        after.limit_total() == before.limit_total(),
        after.limit_per_user() == before.limit_per_user(),
        forall|u: Seq<char>| #[trigger] after.held(u) == before.held(u),
{
    assert forall|u: Seq<char>| #[trigger] after.held(u) == before.held(u) by {
        if u != user {
            assert(running.held(u) == before.held(u));
        }
    }
}

/// Jobs with `CRON_TZ` rest while the local offset is changing.
pub proof fn law_zone_jobs_rest(entry: Entry, at: Moment, pass: Pass, zones: Seq<(String, Zone)>)
    requires
        crate::crontab::env_value(
            crate::crontab::env_model(entry.env@),
            "CRON_TZ"@,
        ) is Some,
        at.vgmtoff != at.gmtoff,
    ensures
        !is_due(entry, at, pass, zones),
{
}

// ---------------------------------------------------------------------------
// What the plan amounts to
// ---------------------------------------------------------------------------

/// A clock that moved on by six minutes to three hours: the minutes that were
/// skipped are evaluated for fixed-time jobs alone, and the current one for
/// all jobs, so that wildcard jobs run once and not once for every minute.
pub proof fn law_long_gaps_spare_wildcard_jobs(virtual_time: i64, time_running: i64)
    requires
        5 < time_running - virtual_time <= 180,
    ensures
        ({
            let (after, work) = planned(virtual_time as int, time_running as int);
            &&& after == time_running
            &&& work.len() == time_running - virtual_time
            &&& forall|i: int|
                0 <= i < work.len() ==> (#[trigger] work[i]).0 == virtual_time + 1 + i
            &&& forall|i: int|
                0 <= i < work.len() && (#[trigger] work[i]).0 < time_running ==> work[i].1
                    == Pass::FixedOnly
            &&& work.last() == (time_running, Pass::All)
        }),
{
}

/// A clock that moved on by up to five minutes: every minute that passed is
/// evaluated for all jobs.
pub proof fn law_short_gaps_are_replayed(virtual_time: i64, time_running: i64)
    requires
        1 <= time_running - virtual_time <= 5,
    ensures
        ({
            let (after, work) = planned(virtual_time as int, time_running as int);
            &&& after == time_running
            &&& work.len() == time_running - virtual_time
            &&& forall|i: int|
                0 <= i < work.len() ==> #[trigger] work[i] == (
                    (virtual_time + 1 + i) as i64,
                    Pass::All,
                )
        }),
{
}

/// A clock that stands or went back by up to three hours: the virtual clock
/// waits, and only wildcard jobs are evaluated, for the current minute.
pub proof fn law_backward_steps_hold_fixed_jobs(virtual_time: i64, time_running: i64)
    requires
        -180 <= time_running - virtual_time <= 0,
    ensures
        planned(virtual_time as int, time_running as int) == (
            virtual_time as int,
            seq![(time_running, Pass::WildOnly)],
        ),
{
}

/// A clock that was set by more than three hours, either way: nothing is made
/// up for, and the current minute is evaluated for all jobs.
pub proof fn law_large_steps_start_over(virtual_time: i64, time_running: i64)
    requires
        time_running - virtual_time > 180 || time_running - virtual_time < -180,
    ensures
        planned(virtual_time as int, time_running as int) == (
            time_running as int,
            seq![(time_running, Pass::All)],
        ),
{
}

/// Dropping repeated evaluations works on one evaluation after the other.
pub proof fn law_repeats_are_dropped_in_turn(
    first: Seq<(i64, Pass)>,
    second: Seq<(i64, Pass)>,
    last_wild: Option<i64>,
)
    ensures
        ({
            let (kept, between) = unrepeated(first, last_wild);
            let (more, after) = unrepeated(second, between);
            unrepeated(first + second, last_wild) == (kept + more, after)
        }),
    decreases second.len(),
{
    let (kept, between) = unrepeated(first, last_wild);
    if second.len() == 0 {
        assert(first + second =~= first);
        assert(kept + Seq::<(i64, Pass)>::empty() =~= kept);
    } else {
        law_repeats_are_dropped_in_turn(first, second.drop_last(), last_wild);
        let all = first + second;
        assert(all.drop_last() =~= first + second.drop_last());
        assert(all.last() == second.last());
        let (more, after) = unrepeated(second.drop_last(), between);
        assert((kept + more).push(second.last()) =~= kept + more.push(second.last()));
    }
}

/// A single evaluation is dropped only if it is for wildcard jobs alone and
/// theirs ran last in that very minute. Any evaluation of wildcard jobs is
/// remembered, and one of fixed-time jobs alone is not.
pub proof fn law_only_repeats_are_dropped(minute: i64, pass: Pass, last_wild: Option<i64>)
    ensures
        ({
            let (kept, last) = unrepeated(seq![(minute, pass)], last_wild);
            &&& kept.len() == 0 <==> pass == Pass::WildOnly && last_wild == Some(minute)
            &&& kept.len() > 0 ==> kept == seq![(minute, pass)]
            &&& pass != Pass::FixedOnly ==> last == Some(minute)
            &&& pass == Pass::FixedOnly ==> last == last_wild
        }),
{
    let work = seq![(minute, pass)];
    reveal_with_fuel(unrepeated, 2);
    assert(work.drop_last() =~= seq![]);
    assert(work.last() == (minute, pass));
    assert(Seq::<(i64, Pass)>::empty().push((minute, pass)) =~= work);
}

/// Evaluations keep their order, minute and pass; those of earlier minutes
/// carry the earlier offset, that of the current one the current offset.
pub proof fn law_evaluations_carry_their_offset(
    work: Seq<(i64, Pass)>,
    now: i64,
    earlier: i32,
    gmtoff: i32,
)
    ensures
        ({
            let e = evaluations(work, now, earlier, gmtoff);
            &&& e.len() == work.len()
            &&& forall|i: int|
                0 <= i < work.len() ==> {
                    &&& (#[trigger] e[i]).minute == work[i].0
                    &&& e[i].pass == work[i].1
                    &&& work[i].0 < now ==> e[i].vgmtoff == earlier
                    &&& work[i].0 >= now ==> e[i].vgmtoff == gmtoff
                }
        }),
{
}

/// Waiting is done in steps of a second, never for longer than a minute and a
/// few seconds, and never past the wake-up time.
pub proof fn law_waiting(left: i64, r: Wait)
    requires
        call_ensures(wait_step, (left,), r),
    ensures
        0 < left <= 65 ==> r == Wait::Sleep(1000),
        left <= 0 ==> r == Wait::Stop,
        left > 65 ==> r == Wait::Stop,
{
}

// ---------------------------------------------------------------------------
// What being due amounts to
// ---------------------------------------------------------------------------

/// The zone of a name is the first one listed under it.
pub proof fn law_zone_lookup(zones: Seq<(String, Zone)>, name: Seq<char>, i: int)
    requires
        0 <= i < zones.len(),
        zones[i].0@ == name,
        forall|j: int| 0 <= j < i ==> (#[trigger] zones[j]).0@ != name,
    ensures
        zone_for(zones, name) == zones[i].1@,
    decreases i,
{
    if i > 0 {
        let t = zones.skip(1);
        assert(zones[0].0@ != name);
        assert forall|j: int| 0 <= j < i - 1 implies (#[trigger] t[j]).0@ != name by {
            assert(zones[j + 1].0@ != name);
        }
        law_zone_lookup(t, name, i - 1);
    }
}

/// The time on the entry's own wall clock decides: a job is due if its
/// schedule fires at that time and the pass asks for jobs of its kind, but for
/// those with `CRON_TZ` while the offset is changing. The clock shows local
/// time, or for an entry with a zone the instant (the local time less the
/// offset it was counted with) as seen there.
pub proof fn law_wall_clock_decides(
    entry: Entry,
    at: Moment,
    pass: Pass,
    zones: Seq<(String, Zone)>,
    w: WallTime,
)
    requires
        w.valid(),
        match entry.tz {
            None => w.second_number() == at.minute * 60,
            Some(name) => {
                let t = at.minute * 60 - at.vgmtoff;
                let zone = zone_for(zones, name@);
                w.second_number() == t + zone.offset(t) - zone.correction(t)
            },
        },
        at.vgmtoff == at.gmtoff,
    ensures
        pass == Pass::All ==> is_due(entry, at, pass, zones) == entry.schedule.fires(w),
        pass == Pass::WildOnly ==> is_due(entry, at, pass, zones) == (entry.schedule.fires(w) && (
        entry.schedule.star(0) || entry.schedule.star(1))),
        pass == Pass::FixedOnly ==> is_due(entry, at, pass, zones) == (entry.schedule.fires(w)
            && !entry.schedule.star(0) && !entry.schedule.star(1)),
{
    crate::calendar::lemma_second_bounds(w);
    assert(w.second_number() == second_for(entry, at, zones));
    assert forall|u: WallTime| #[trigger]
        entry.schedule.fires(u) && u.valid() && u.second_number() == w.second_number() implies
        entry.schedule.fires(w) by {
        assert(u.minute_number() == w.minute_number());
        entry.schedule.lemma_fires_by_minute(u, w);
    }
}

/// Whether a job with a zone is due depends on the instant alone: moments that
/// were counted with different offsets and name the same instant are alike.
pub proof fn law_zone_jobs_follow_the_instant(
    entry: Entry,
    a: Moment,
    b: Moment,
    pass: Pass,
    zones: Seq<(String, Zone)>,
)
    requires
        entry.tz is Some,
        a.vgmtoff == a.gmtoff,
        b.vgmtoff == b.gmtoff,
        a.minute * 60 - a.gmtoff == b.minute * 60 - b.gmtoff,
    ensures
        is_due(entry, a, pass, zones) == is_due(entry, b, pass, zones),
{
}

/// A job whose zone is as far from UTC as local time is due exactly when the
/// same job without a zone is.
pub proof fn law_local_zone_changes_nothing(
    entry: Entry,
    local: Entry,
    at: Moment,
    pass: Pass,
    zones: Seq<(String, Zone)>,
)
    requires
        at.valid(),
        at.vgmtoff == at.gmtoff,
        entry.schedule == local.schedule,
        local.tz is None,
        entry.tz matches Some(name) && {
            let zone = zone_for(zones, name@);
            let t = at.minute * 60 - at.gmtoff;
            zone.offset(t) == at.gmtoff && zone.correction(t) == 0
        },
    ensures
        is_due(entry, at, pass, zones) == is_due(local, at, pass, zones),
{
}

/// A job without a zone goes by the number of the local minute, whatever the
/// offset.
pub proof fn law_local_jobs_follow_the_clock(
    entry: Entry,
    a: Moment,
    b: Moment,
    pass: Pass,
    zones: Seq<(String, Zone)>,
    others: Seq<(String, Zone)>,
)
    requires
        entry.tz is None,
        a.minute == b.minute,
        crate::crontab::env_value(
            crate::crontab::env_model(entry.env@),
            "CRON_TZ"@,
        ) is None || a.vgmtoff == a.gmtoff && b.vgmtoff == b.gmtoff,
    ensures
        is_due(entry, a, pass, zones) == is_due(entry, b, pass, others),
{
}

/// The wildcard pass and the fixed-time pass share the jobs of a minute out
/// between them.
pub proof fn law_passes_divide_the_jobs(entry: Entry, at: Moment, zones: Seq<(String, Zone)>)
    ensures
        is_due(entry, at, Pass::All, zones) == (is_due(entry, at, Pass::WildOnly, zones) || is_due(
            entry,
            at,
            Pass::FixedOnly,
            zones,
        )),
        !(is_due(entry, at, Pass::WildOnly, zones) && is_due(entry, at, Pass::FixedOnly, zones)),
        is_due(entry, at, Pass::WildOnly, zones) ==> entry.schedule.star(0)
            || entry.schedule.star(1),
        is_due(entry, at, Pass::FixedOnly, zones) ==> !entry.schedule.star(0)
            && !entry.schedule.star(1),
{
}

// ---------------------------------------------------------------------------
// What a round amounts to
// ---------------------------------------------------------------------------

/// Without cluster mode users' crontabs run everywhere; with it they run exactly
/// on the host that the file names, whatever white space stands around the name,
/// and nowhere if the file cannot be read.
pub proof fn law_cluster_host(
    lead: Seq<char>,
    named: Seq<char>,
    end: Seq<char>,
    file: String,
    failure: ReadFailure,
    hostname: Seq<char>,
    read: Result<String, ReadFailure>,
)
    requires
        file@ == lead + named + end,
        crate::lines::blank(lead),
        crate::lines::blank(end),
        named.len() > 0 ==> !crate::text::white(named[0]) && !crate::text::white(named.last()),
    ensures
        cluster_ok(true, Ok(file), hostname) <==> named == hostname,
        !cluster_ok(true, Err(failure), hostname),
        cluster_ok(false, read, hostname),
{
    crate::text::law_trim(lead, named, end);
}

/// A failure to read the host file is logged when it is another one than before,
/// and not again while it lasts. A file that is not there is never logged, and a
/// file that can be read again makes the next failure a new one.
pub proof fn law_failures_are_logged_once(
    last: Option<ReadFailure>,
    n: u32,
    m: u32,
    file: String,
)
    ensures
        noted(last, Err(ReadFailure::Other(n))).1 <==> last != Some(ReadFailure::Other(n)),
        !noted(noted(last, Err(ReadFailure::Other(n))).0, Err(ReadFailure::Other(n))).1,
        n != m ==> noted(noted(last, Err(ReadFailure::Other(n))).0, Err(ReadFailure::Other(m))).1,
        noted(noted(last, Ok(file)).0, Err(ReadFailure::Other(n))).1,
        noted(noted(last, Err(ReadFailure::NotFound)).0, Err(ReadFailure::Other(n))).1,
        !noted(last, Ok(file)).1,
        !noted(last, Err(ReadFailure::NotFound)).1,
{
}

/// The user that an entry names runs it, and otherwise the owner of the crontab.
pub proof fn law_job_user(owner: Option<String>, name: String)
    ensures
        job_user_of(owner, Some(name)) == Some(name@),
        owner matches Some(o) ==> job_user_of(owner, None) == Some(o@),
        owner is None ==> job_user_of(owner, None) is None,
{
}

/// A job starts, as its user, if that user and all users together have room for
/// it, and only then. A job that does not start takes no room.
pub proof fn law_dispatch(
    before: JobSlots,
    after: JobSlots,
    user: Option<Seq<char>>,
    r: Dispatch,
)
    requires
        dispatched(before, after, user, r),
    ensures
        user is None <==> r is NoUser,
        user matches Some(u) ==> {
            &&& r is Start <==> before.held_total() < before.limit_total() && before.held(u)
                < before.limit_per_user()
            &&& r matches Dispatch::Start(name, slot) ==> name@ == u && slot.owner() == u
                && after.held(u) == before.held(u) + 1 && after.held_total() == before.held_total()
                + 1
            &&& r is Full <==> before.held_total() >= before.limit_total() || before.held(u)
                >= before.limit_per_user()
        },
        !(r is Start) ==> after == before,
        forall|u: Seq<char>| Some(u) != user ==> #[trigger] after.held(u) == before.held(u),
{
}

/// The jobs of a minute are those entries that are due then, with the delay that
/// was drawn for them where delays apply; users' entries are left out where they
/// may not run.
pub proof fn law_jobs_of_a_minute(
    tabs: Seq<(String, LoadedTab)>,
    users_ok: bool,
    honor_delay: bool,
    at: Moment,
    pass: Pass,
    zones: Seq<(String, Zone)>,
    job: DueJob,
)
    requires
        tabs.len() <= usize::MAX,
    ensures
        due_jobs_of(tabs, users_ok, honor_delay, at, pass, zones).contains(job) <==> {
            let tab = tabs[job.tab as int].1;
            &&& job.tab < tabs.len()
            &&& users_ok || tab.format == Format::System
            &&& job.entry < tab.crontab.entries@.len()
            &&& is_due(tab.crontab.entries@[job.entry as int], at, pass, zones)
            &&& job.delay == if honor_delay && job.entry < tab.delays@.len() {
                tab.delays@[job.entry as int]
            } else {
                0
            }
        },
{
    law_jobs_are_those_asked_for(
        tabs,
        tabs.len() as int,
        users_ok,
        honor_delay,
        false,
        at,
        pass,
        zones,
        job,
    );
}

/// The jobs of a start are the `@reboot` entries, all of them and at once; users'
/// ones are left out where they may not run.
pub proof fn law_jobs_of_a_start(tabs: Seq<(String, LoadedTab)>, users_ok: bool, job: DueJob)
    requires
        tabs.len() <= usize::MAX,
    ensures
        reboot_jobs_of(tabs, users_ok).contains(job) <==> {
            let tab = tabs[job.tab as int].1;
            &&& job.tab < tabs.len()
            &&& users_ok || tab.format == Format::System
            &&& job.entry < tab.crontab.entries@.len()
            &&& tab.crontab.entries@[job.entry as int].schedule.rebooting()
            &&& job.delay == 0
        },
{
    law_jobs_are_those_asked_for(
        tabs,
        tabs.len() as int,
        users_ok,
        false,
        true,
        Moment { minute: 0, vgmtoff: 0, gmtoff: 0 },
        Pass::All,
        seq![],
        job,
    );
}

/// Does one job come before another: by crontab, then by entry?
pub open spec fn comes_before(a: DueJob, b: DueJob) -> bool {
    a.tab < b.tab || a.tab == b.tab && a.entry < b.entry
}

proof fn lemma_tab_order(
    tab: LoadedTab,
    position: int,
    n: int,
    delayed: bool,
    reboot: bool,
    at: Moment,
    pass: Pass,
    zones: Seq<(String, Zone)>,
)
    requires
        0 <= n <= tab.crontab.entries@.len(),
        0 <= position <= usize::MAX,
    ensures
        ({
            let jobs = jobs_in_tab(tab, position, n, delayed, reboot, at, pass, zones);
            &&& forall|i: int|
                0 <= i < jobs.len() ==> (#[trigger] jobs[i]).tab == position && jobs[i].entry < n
            &&& forall|i: int, j: int|
                0 <= i < j < jobs.len() ==> comes_before(#[trigger] jobs[i], #[trigger] jobs[j])
        }),
    decreases n,
{
    if n > 0 {
        lemma_tab_order(tab, position, n - 1, delayed, reboot, at, pass, zones);
        assert(tab.crontab.entries.len() == tab.crontab.entries@.len());
        let jobs = jobs_in_tab(tab, position, n, delayed, reboot, at, pass, zones);
        let before = jobs_in_tab(tab, position, n - 1, delayed, reboot, at, pass, zones);
        assert forall|i: int| 0 <= i < jobs.len() implies (#[trigger] jobs[i]).tab == position
            && jobs[i].entry < n by {
            if i < before.len() {
                assert(jobs[i] == before[i]);
            }
        }
        assert forall|i: int, j: int| 0 <= i < j < jobs.len() implies comes_before(
            #[trigger] jobs[i],
            #[trigger] jobs[j],
        ) by {
            assert(jobs[i] == before[i]);
            if j < before.len() {
                assert(jobs[j] == before[j]);
            }
        }
    }
}

/// Jobs are started in the order of the crontabs, and those of one crontab in the
/// order of its lines; no entry is started twice in one round.
pub proof fn law_jobs_in_order(
    tabs: Seq<(String, LoadedTab)>,
    n: int,
    users_ok: bool,
    honor_delay: bool,
    reboot: bool,
    at: Moment,
    pass: Pass,
    zones: Seq<(String, Zone)>,
)
    requires
        0 <= n <= tabs.len() <= usize::MAX,
    ensures
        ({
            let jobs = jobs_in(tabs, n, users_ok, honor_delay, reboot, at, pass, zones);
            &&& forall|i: int| 0 <= i < jobs.len() ==> (#[trigger] jobs[i]).tab < n
            &&& forall|i: int, j: int|
                0 <= i < j < jobs.len() ==> comes_before(#[trigger] jobs[i], #[trigger] jobs[j])
        }),
    decreases n,
{
    if n > 0 {
        law_jobs_in_order(tabs, n - 1, users_ok, honor_delay, reboot, at, pass, zones);
        let tab = tabs[n - 1].1;
        lemma_tab_order(
            tab,
            n - 1,
            tab.crontab.entries@.len() as int,
            honor_delay && !reboot,
            reboot,
            at,
            pass,
            zones,
        );
        let before = jobs_in(tabs, n - 1, users_ok, honor_delay, reboot, at, pass, zones);
        let jobs = jobs_in(tabs, n, users_ok, honor_delay, reboot, at, pass, zones);
        let more = jobs_in_tab(
            tab,
            n - 1,
            tab.crontab.entries@.len() as int,
            honor_delay && !reboot,
            reboot,
            at,
            pass,
            zones,
        );
        if jobs != before {
            assert(jobs == before + more);
        }
        assert forall|i: int| 0 <= i < jobs.len() implies (#[trigger] jobs[i]).tab < n by {
            if i < before.len() {
                assert(jobs[i] == before[i]);
            } else {
                assert(jobs[i] == more[i - before.len()]);
            }
        }
        assert forall|i: int, j: int| 0 <= i < j < jobs.len() implies comes_before(
            #[trigger] jobs[i],
            #[trigger] jobs[j],
        ) by {
            if j < before.len() {
                assert(jobs[i] == before[i] && jobs[j] == before[j]);
            } else if i < before.len() {
                assert(jobs[i] == before[i] && jobs[j] == more[j - before.len()]);
            } else {
                assert(jobs[i] == more[i - before.len()] && jobs[j] == more[j - before.len()]);
            }
        }
    }
}

/// `@reboot` jobs are due at no minute: they run when the daemon starts, and then
/// only.
pub proof fn law_reboot_jobs_wait_for_the_start(
    entry: Entry,
    at: Moment,
    pass: Pass,
    zones: Seq<(String, Zone)>,
)
    requires
        entry.schedule.rebooting(),
    ensures
        !is_due(entry, at, pass, zones),
{
}

/// The daemon wakes up one second into the next local minute.
pub proof fn law_wake_up(now: i64, gmtoff: i32, r: i64)
    requires
        call_ensures(wake_time, (now, gmtoff), r),
    ensures
        now + 1 < r <= now + 61,
        (r + gmtoff) % 60 == 1,
        (now + gmtoff) / 60 + 1 == (r + gmtoff) / 60,
{
}

} // verus!
