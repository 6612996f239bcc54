//! What `crond` settles before it runs: the mailer, and the moment of a
//! one-shot run.

use chrono::{Offset, TimeZone};
use vstd::prelude::*;

use crate::clock::local_minute;
use crate::daemon::Moment;
use crate::mail::Mailer;

verus! {

// ---------------------------------------------------------------------------
// Mailer
// ---------------------------------------------------------------------------

/// Where job output goes.
#[derive(Debug, Clone, PartialEq, Eq)]
pub struct OutputSetup {
    pub mailer: Mailer,
    /// Log output that is not mailed.
    pub syslog_output: bool,
    /// Log that no mailer was found.
    pub announce: bool,
}

/// Where job output goes: `-s` logs it, `-m` names a mail command or `off`,
/// which discards it, and otherwise a mailer is looked for among the files
/// that are there; output is logged if there is none.
pub fn choose_mailer(syslog: bool, arg: Option<&str>, present: &Vec<String>) -> (r: OutputSetup)
    ensures
        if syslog {
            r.mailer@ is Off && r.syslog_output && !r.announce
        } else {
            match arg {
                Some(m) => r.mailer@ == crate::mail::mailer_arg(m@) && !r.syslog_output
                    && !r.announce,
                None => {
                    let found = crate::mail::detected(present@, 0);
                    &&& r.mailer@ == found
                    &&& r.syslog_output == (found is Off)
                    &&& r.announce == (found is Off)
                },
            }
        },
{
    if syslog {
        return OutputSetup { mailer: Mailer::Off, syslog_output: true, announce: false };
    }
    match arg {
        Some(m) => OutputSetup {
            mailer: Mailer::from_arg(m),
            syslog_output: false,
            announce: false,
        },
        None => {
            let mailer = Mailer::detect(present);
            let off = mailer.is_off();
            OutputSetup { mailer, syslog_output: off, announce: off }
        },
    }
}

// ---------------------------------------------------------------------------
// One-shot runs
// ---------------------------------------------------------------------------

/// What `chrono::NaiveDateTime::parse_from_str` makes of a text in the form
/// `%Y-%m-%d %H:%M`: the seconds since 1970-01-01 00:00 on the same clock, or
/// the message of its error.
pub uninterp spec fn run_at_parsed(text: Seq<char>) -> Result<i64, Seq<char>>;

/// `chrono::NaiveDateTime::parse_from_str` with the format `%Y-%m-%d %H:%M`.
/// Which texts it takes is not stated; the times it gives are representable.
#[verifier::external_body]
fn parse_run_at(text: &str) -> (r: Result<i64, String>)
    ensures
        match run_at_parsed(text@) {
            Ok(s) => r == Ok::<i64, String>(s),
            Err(m) => r matches Err(e) && e@ == m,
        },
        r matches Ok(s) ==> crate::calendar::min_second() <= s < crate::calendar::end_second(),
{
    match chrono::NaiveDateTime::parse_from_str(text, "%Y-%m-%d %H:%M") {
        Ok(t) => Ok(t.and_utc().timestamp()),
        Err(e) => Err(e.to_string()),
    }
}

/// `chrono::Local::from_local_datetime` for a wall-clock time given in seconds
/// since 1970-01-01 00:00 on the same clock: the offset from UTC, in seconds
/// east and always less than a day, of the earliest instant with that time, or
/// `None` if there is none. Nothing is said of which zone the machine is in.
#[verifier::external_body]
fn offset_of_local(second: i64) -> (r: Option<i32>)
    ensures
        r matches Some(n) ==> -86400 < n < 86400,
{
    let t = chrono::DateTime::from_timestamp(second, 0)?.naive_utc();
    let local = chrono::Local.from_local_datetime(&t).earliest()?;
    Some(local.offset().fix().local_minus_utc())
}

/// The offset to count with. A wall-clock time inside a DST gap has no local
/// instant; then the offset just before the gap (an hour earlier) counts, or
/// else that just after it.
pub fn pick_offset(here: Option<i32>, earlier: Option<i32>, later: Option<i32>) -> (r: i32)
    ensures
        r == match (here, earlier, later) {
            (Some(n), _, _) => n,
            (None, Some(n), _) => n,
            (None, None, Some(n)) => n,
            (None, None, None) => 0,
        },
{
    match here {
        Some(n) => n,
        None => match earlier {
            Some(n) => n,
            None => match later {
                Some(n) => n,
                None => 0,
            },
        },
    }
}

/// The moment of a one-shot run at a wall-clock second, with the offsets then,
/// an hour earlier and an hour later.
pub fn moment_at(
    second: i64,
    here: Option<i32>,
    earlier: Option<i32>,
    later: Option<i32>,
) -> (r: Moment)
    ensures
        r.minute == second as int / 60,
        r.gmtoff == match (here, earlier, later) {
            (Some(n), _, _) => n,
            (None, Some(n), _) => n,
            (None, None, Some(n)) => n,
            (None, None, None) => 0,
        },
        r.vgmtoff == r.gmtoff,
{
    let gmtoff = pick_offset(here, earlier, later);
    Moment { minute: local_minute(second, 0), vgmtoff: gmtoff, gmtoff }
}

/// The wall-clock seconds whose offsets a one-shot run asks for: its own, an
/// hour earlier and an hour later.
pub fn run_at_probes(second: i64) -> (r: (i64, i64, i64))
    requires
        i64::MIN + 3600 <= second <= i64::MAX - 3600,
    ensures
        r.0 == second,
        r.1 == second - 3600,
        r.2 == second + 3600,
{
    (second, second - 3600, second + 3600)
}

/// The moment that `--run-at` names, or what is wrong with it.
pub fn run_at_moment(text: &str) -> (r: Result<Moment, String>)
    ensures
        match run_at_parsed(text@) {
            Ok(s) => r matches Ok(at) && at.valid() && at.minute == s as int / 60 && at.vgmtoff
                == at.gmtoff && -86400 < at.gmtoff < 86400,
            Err(m) => r matches Err(e) && e@ == m,
        },
{
    match parse_run_at(text) {
        Err(e) => Err(e),
        Ok(second) => {
            proof {
                crate::calendar::lemma_range();
            }
            let (at, before, after) = run_at_probes(second);
            let here = offset_of_local(at);
            let earlier = offset_of_local(before);
            let later = offset_of_local(after);
            Ok(moment_at(second, here, earlier, later))
        },
    }
}

// ---------------------------------------------------------------------------
// Laws
// ---------------------------------------------------------------------------

/// Output that is to be logged is not mailed; a mailer that was named is used and
/// nothing is logged; and only if neither was asked for and no mailer is found is
/// output logged and that said.
pub proof fn law_output_setup(
    syslog: bool,
    arg: Option<&str>,
    present: Vec<String>,
    r: OutputSetup,
)
    requires
        call_ensures(choose_mailer, (syslog, arg, &present), r),
    ensures
        syslog ==> r.mailer is Off && r.syslog_output && !r.announce,
        !syslog ==> (arg matches Some(m) ==> r.mailer@ == crate::mail::mailer_arg(m@)
            && !r.syslog_output && !r.announce),
        !syslog && arg is None ==> r.mailer@ == crate::mail::detected(present@, 0)
            && r.syslog_output == (r.mailer is Off) && r.announce == (r.mailer is Off),
{
}

/// The offset at the time itself counts if there is one, or else that an hour
/// before, or else that an hour after.
pub proof fn law_offset_choice(
    here: Option<i32>,
    earlier: Option<i32>,
    later: Option<i32>,
    r: i32,
)
    requires
        call_ensures(pick_offset, (here, earlier, later), r),
    ensures
        here matches Some(n) ==> r == n,
        here is None ==> (earlier matches Some(n) ==> r == n),
        here is None && earlier is None ==> (later matches Some(n) ==> r == n),
        here is None && earlier is None && later is None ==> r == 0,
{
}

/// A one-shot run is at the minute of its wall-clock time, and no offset is
/// changing then.
pub proof fn law_one_shot_moment(
    second: i64,
    here: Option<i32>,
    earlier: Option<i32>,
    later: Option<i32>,
    r: Moment,
)
    requires
        call_ensures(moment_at, (second, here, earlier, later), r),
    ensures
        r.minute * 60 <= second < r.minute * 60 + 60,
        r.vgmtoff == r.gmtoff,
        here matches Some(n) ==> r.gmtoff == n,
        here is None ==> (earlier matches Some(n) ==> r.gmtoff == n),
        here is None && earlier is None ==> (later matches Some(n) ==> r.gmtoff == n),
{
}

} // verus!
