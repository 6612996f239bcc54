//! Logging to syslog: when to connect, when to give a message up, and which
//! messages go to standard error too.

use vstd::prelude::*;

use crate::text::{chars_of, find_char, is_digit};

verus! {

/// How long, in milliseconds, to wait before trying to reach syslog again
/// after a failed connection, so that an absent socket does not cost a connect
/// on every message.
pub const RECONNECT_BACKOFF: u64 = 10000;

/// How often a message is sent before it is given up.
pub const MAX_SENDS: u32 = 2;

/// Whether a reconnect may be attempted now. Times are in milliseconds.
pub fn may_reconnect(retry_after: Option<u64>, now: u64) -> (r: bool)
    ensures
        r == (match retry_after {
            Some(t) => now >= t,
            None => true,
        }),
{
    match retry_after {
        Some(t) => now >= t,
        None => true,
    }
}

/// What to do next with a message.
#[derive(Debug, Clone, Copy, PartialEq, Eq, Structural)]
pub enum SendStep {
    Connect,
    Send,
    /// It cannot be delivered.
    GiveUp,
}

/// The connection to syslog.
#[derive(Debug, Clone, Copy, PartialEq, Eq, Structural)]
pub struct Link {
    pub connected: bool,
    /// No connection attempts before this time.
    pub retry_after: Option<u64>,
}

impl Link {
    pub fn new(connected: bool) -> (r: Link)
        ensures
            r == (Link { connected, retry_after: None }),
    {
        Link { connected, retry_after: None }
    }

    pub open spec fn next_step(self, sends: u32, now: u64) -> SendStep {
        if sends >= MAX_SENDS {
            SendStep::GiveUp
        } else if self.connected {
            SendStep::Send
        } else if self.retry_after matches Some(t) && now < t {
            SendStep::GiveUp
        } else {
            SendStep::Connect
        }
    }

    /// What to do with a message that was sent in vain `sends` times.
    pub fn step(&self, sends: u32, now: u64) -> (r: SendStep)
        ensures
            r == self.next_step(sends, now),
    {
        if sends >= MAX_SENDS {
            SendStep::GiveUp
        } else if self.connected {
            SendStep::Send
        } else if may_reconnect(self.retry_after, now) {
            SendStep::Connect
        } else {
            SendStep::GiveUp
        }
    }

    pub open spec fn after_connect(self, ok: bool, now: u64) -> Link {
        if ok {
            Link { connected: true, retry_after: None }
        } else {
            Link {
                connected: false,
                retry_after: Some(
                    if now + RECONNECT_BACKOFF > u64::MAX {
                        u64::MAX
                    } else {
                        (now + RECONNECT_BACKOFF) as u64
                    },
                ),
            }
        }
    }

    /// Takes in how an attempt to connect, begun at `now`, came out.
    pub fn connect_result(&mut self, ok: bool, now: u64)
        ensures
            *final(self) == old(self).after_connect(ok, now),
    {
        if ok {
            self.connected = true;
            self.retry_after = None;
        } else {
            self.connected = false;
            self.retry_after = Some(now.saturating_add(RECONNECT_BACKOFF));
        }
    }

    pub open spec fn after_send(self, ok: bool) -> Link {
        Link { connected: self.connected && ok, retry_after: self.retry_after }
    }

    /// Takes in how sending a message came out; the connection is dropped if
    /// it failed.
    pub fn send_result(&mut self, ok: bool)
        ensures
            *final(self) == old(self).after_send(ok),
    {
        if !ok {
            self.connected = false;
        }
    }
}

/// After a failed connection nothing is attempted until the backoff is over,
/// and a broken connection is replaced right away.
pub proof fn law_reconnects_are_limited(link: Link, sends: u32, begun: u64, now: u64)
    requires
        sends < MAX_SENDS,
        begun + RECONNECT_BACKOFF <= u64::MAX,
    ensures
        link.after_connect(false, begun).next_step(sends, now) == if now < begun
            + RECONNECT_BACKOFF {
            SendStep::GiveUp
        } else {
            SendStep::Connect
        },
        link.after_connect(true, begun).next_step(sends, now) == SendStep::Send,
        link.after_connect(true, begun).after_send(false).next_step(sends, now)
            == SendStep::Connect,
{
}

/// Does a message go to standard error? `mirror` copies every message there,
/// `fallback` those that syslog did not take.
pub fn to_stderr(mirror: bool, fallback: bool, delivered: bool) -> (r: bool)
    ensures
        r == (mirror || (fallback && !delivered)),
{
    mirror || (fallback && !delivered)
}

// ---------------------------------------------------------------------------
// The journal
// ---------------------------------------------------------------------------

/// An unsigned number: decimal digits, behind an optional `+`.
pub open spec fn unsigned(s: Seq<char>) -> Option<u64> {
    let digits = if s.len() > 0 && s[0] == '+' {
        s.skip(1)
    } else {
        s
    };
    if digits.len() > 0 && crate::schedule::all_digits(digits) && crate::schedule::decimal(digits)
        <= u64::MAX {
        Some(crate::schedule::decimal(digits) as u64)
    } else {
        None
    }
}

/// The device and the inode that a `<device>:<inode>` text names.
pub open spec fn stream_id(s: Seq<char>) -> Option<(u64, u64)> {
    let colon = crate::text::first_of(s, ':');
    if colon < s.len() {
        match (unsigned(s.take(colon)), unsigned(s.skip(colon + 1))) {
            (Some(dev), Some(ino)) => Some((dev, ino)),
            _ => None,
        }
    } else {
        None
    }
}

fn parse_unsigned(s: &[char]) -> (r: Option<u64>)
    ensures
        r == unsigned(s@),
{
    let from: usize = if s.len() > 0 && s[0] == '+' {
        1
    } else {
        0
    };
    let digits = &s[from..s.len()];
    assert(digits@ =~= s@.skip(from as int));
    assert(s@.skip(0) =~= s@);
    if digits.len() == 0 {
        return None;
    }
    let limit: u128 = u64::MAX as u128;
    let mut value: u128 = 0;
    let mut i: usize = 0;
    while i < digits.len()
        invariant
            i <= digits.len(),
            limit == u64::MAX,
            forall|j: int| 0 <= j < i ==> crate::text::digit(#[trigger] digits@[j]),
            crate::schedule::decimal(digits@.take(i as int)) >= 0,
            value <= limit ==> value == crate::schedule::decimal(digits@.take(i as int)),
            value > limit ==> crate::schedule::decimal(digits@.take(i as int)) > limit,
            value <= limit * 10 + 9,
            digits@ == if s@.len() > 0 && s@[0] == '+' {
                s@.skip(1)
            } else {
                s@
            },
        decreases digits.len() - i,
    {
        if !is_digit(digits[i]) {
            return None;
        }
        proof {
            assert(digits@.take(i + 1).drop_last() =~= digits@.take(i as int));
            assert(digits@.take(i + 1).last() == digits@[i as int]);
        }
        if value <= limit {
            value = value * 10 + (digits[i] as u128 - '0' as u128);
        }
        i += 1;
    }
    assert(digits@.take(digits@.len() as int) =~= digits@);
    if value <= limit {
        Some(value as u64)
    } else {
        None
    }
}

/// Reads the device and the inode of a `<device>:<inode>` text.
pub fn parse_stream(text: &str) -> (r: Option<(u64, u64)>)
    ensures
        r == stream_id(text@),
{
    let s = chars_of(text);
    let colon = find_char(s.as_slice(), ':');
    if colon >= s.len() {
        return None;
    }
    let left = &s.as_slice()[0..colon];
    let right = &s.as_slice()[colon + 1..s.len()];
    assert(left@ =~= text@.take(colon as int));
    assert(right@ =~= text@.skip(colon + 1));
    match (parse_unsigned(left), parse_unsigned(right)) {
        (Some(dev), Some(ino)) => Some((dev, ino)),
        _ => None,
    }
}

/// Is standard error, which has the given device and inode, connected to the
/// systemd journal, which systemd advertises as
/// `JOURNAL_STREAM=<device>:<inode>`? Mirroring log lines to standard error
/// there would record every message twice.
pub fn stderr_is_journal(stream: Option<&str>, stderr: Option<(u64, u64)>) -> (r: bool)
    ensures
        r == (stream matches Some(s) && stream_id(s@) is Some && stderr == stream_id(s@)),
{
    match stream {
        Some(s) => match (parse_stream(s), stderr) {
            (Some(a), Some(b)) => a.0 == b.0 && a.1 == b.1,
            _ => false,
        },
        None => false,
    }
}

/// The least severe messages that are logged.
#[derive(Debug, Clone, Copy, PartialEq, Eq, Structural)]
pub enum Verbosity {
    Info,
    Debug,
}

/// How a program logs.
#[derive(Debug, Clone, Copy, PartialEq, Eq, Structural)]
pub struct LogSetup {
    /// Copy every message to standard error.
    pub mirror: bool,
    /// Write to standard error when syslog is unreachable, even if `mirror` is
    /// off.
    pub fallback_stderr: bool,
    pub verbosity: Verbosity,
}

/// How to log: `stderr` mirrors messages to standard error (foreground mode),
/// except when that is the systemd journal and syslog is reachable.
pub fn init(stderr: bool, debug: bool, journal: bool) -> (r: LogSetup)
    ensures
        r.mirror == (stderr && !journal),
        r.fallback_stderr == stderr,
        r.verbosity == if debug {
            Verbosity::Debug
        } else {
            Verbosity::Info
        },
{
    LogSetup {
        mirror: stderr && !journal,
        fallback_stderr: stderr,
        verbosity: if debug {
            Verbosity::Debug
        } else {
            Verbosity::Info
        },
    }
}

// ---------------------------------------------------------------------------
// Laws
// ---------------------------------------------------------------------------

/// A message is sent twice at most, and no connection is attempted within ten
/// seconds of one that failed.
pub proof fn law_sending(link: Link, sends: u32, begun: u64, now: u64)
    ensures
        sends >= 2 ==> link.next_step(sends, now) == SendStep::GiveUp,
        sends < 2 && link.connected ==> link.next_step(sends, now) == SendStep::Send,
        sends < 2 && !link.connected && link.retry_after is None ==> link.next_step(sends, now)
            == SendStep::Connect,
        sends < 2 && now < begun + 10000 && now < u64::MAX ==> link.after_connect(
            false,
            begun,
        ).next_step(sends, now) == SendStep::GiveUp,
        sends < 2 && now >= begun + 10000 ==> link.after_connect(false, begun).next_step(sends, now)
            == SendStep::Connect,
        link.after_send(true) == link,
        !link.after_send(false).connected,
        link.after_send(false).retry_after == link.retry_after,
{
}

/// A reconnect may be attempted unless its time has not come.
pub proof fn law_reconnect(retry_after: Option<u64>, now: u64, r: bool)
    requires
        call_ensures(may_reconnect, (retry_after, now), r),
    ensures
        retry_after is None ==> r,
        retry_after matches Some(t) ==> (r <==> now >= t),
{
}

/// With a copy asked for, every message goes to standard error; with a fallback,
/// those that were not delivered do; no other does.
pub proof fn law_standard_error(mirror: bool, fallback: bool, delivered: bool, r: bool)
    requires
        call_ensures(to_stderr, (mirror, fallback, delivered), r),
    ensures
        mirror ==> r,
        fallback && !delivered ==> r,
        !mirror && delivered ==> !r,
        !mirror && !fallback ==> !r,
{
}

/// Messages are copied to standard error in the foreground, unless that is the
/// journal, and then still go there when syslog is out of reach.
pub proof fn law_log_setup(stderr: bool, debug: bool, journal: bool, r: LogSetup)
    requires
        call_ensures(init, (stderr, debug, journal), r),
    ensures
        r.mirror <==> stderr && !journal,
        r.fallback_stderr <==> stderr,
        r.verbosity == Verbosity::Debug <==> debug,
{
}

/// The name of a stream is read back: its device and its inode.
pub proof fn law_streams(device: nat, inode: nat)
    requires
        device <= u64::MAX,
        inode <= u64::MAX,
    ensures
        stream_id(
            crate::text::decimal_text(device) + seq![':'] + crate::text::decimal_text(inode),
        ) == Some((device as u64, inode as u64)),
{
    let a = crate::text::decimal_text(device);
    let b = crate::text::decimal_text(inode);
    let s = a + seq![':'] + b;
    let n = a.len() as int;
    crate::notation::lemma_decimal(device);
    crate::notation::lemma_decimal(inode);
    assert(s[n] == ':');
    assert forall|i: int| 0 <= i < n implies s[i] != ':' by {
        assert(crate::text::digit(a[i]));
        assert(s[i] == a[i]);
    }
    crate::text::lemma_first_of_is(s, ':', n);
    assert(s.take(n) =~= a);
    assert(s.skip(n + 1) =~= b);
    assert(crate::text::digit(a[0]));
    assert(crate::text::digit(b[0]));
}

/// Standard error is the journal exactly if it is the stream that systemd names.
pub proof fn law_journal(stream: Option<&str>, stderr: Option<(u64, u64)>, r: bool)
    requires
        call_ensures(stderr_is_journal, (stream, stderr), r),
    ensures
        stream is None || stderr is None ==> !r,
        stream matches Some(s) ==> (stream_id(s@) matches Some(id) ==> (r <==> stderr == Some(id))),
        stream matches Some(s) ==> (stream_id(s@) is None ==> !r),
{
}

} // verus!
