//! POSIX `TZ` strings, read and applied the way glibc's `tzset` does.
//!
//! The parser is lenient: offsets are read like `sscanf("%hu")` (white space,
//! signs and 16-bit wrap-around are accepted), hours are clamped to 24 and
//! minutes and seconds to 59, rule times accept any hour and a leading `-`,
//! and a failure part-way leaves zeroed or partially filled rules in place
//! rather than rejecting the string.

use vstd::prelude::*;

verus! {

/// The bytes with a meaning of their own in a `TZ` string.
pub const PLUS: u8 = 0x2b;

pub const COMMA: u8 = 0x2c;

pub const MINUS: u8 = 0x2d;

pub const DOT: u8 = 0x2e;

pub const SLASH: u8 = 0x2f;

pub const COLON: u8 = 0x3a;

pub const LESS: u8 = 0x3c;

pub const GREATER: u8 = 0x3e;

pub const LETTER_J: u8 = 0x4a;

pub const LETTER_M: u8 = 0x4d;

/// Byte at `i`, or NUL past the end (C-string semantics).
pub open spec fn byte_at(s: Seq<u8>, i: int) -> u8 {
    if 0 <= i < s.len() {
        s[i]
    } else {
        0
    }
}

pub fn at(s: &[u8], i: usize) -> (r: u8)
    ensures
        r == byte_at(s@, i as int),
        r != 0 ==> i < s@.len() <= usize::MAX,
{
    if i < s.len() {
        s[i]
    } else {
        0
    }
}

// ---------------------------------------------------------------------------
// Runs of bytes
// ---------------------------------------------------------------------------

#[derive(Debug, Clone, Copy, PartialEq, Eq, Structural)]
pub enum Class {
    /// White space as `isspace` has it.
    Space,
    Digit,
    Letter,
    /// What may stand between `<` and `>` in a zone name.
    Quoted,
}

pub open spec fn letter_byte(b: u8) -> bool {
    0x41 <= b <= 0x5a || 0x61 <= b <= 0x7a
}

pub open spec fn digit_byte(b: u8) -> bool {
    0x30 <= b <= 0x39
}

impl Class {
    pub open spec fn has(self, b: u8) -> bool {
        match self {
            Class::Space => b == 0x20 || 0x09 <= b <= 0x0d,
            Class::Digit => digit_byte(b),
            Class::Letter => letter_byte(b),
            Class::Quoted => letter_byte(b) || digit_byte(b) || b == PLUS || b == MINUS,
        }
    }

    fn contains(self, b: u8) -> (r: bool)
        ensures
            r == self.has(b),
    {
        let letter = (0x41 <= b && b <= 0x5a) || (0x61 <= b && b <= 0x7a);
        let digit = 0x30 <= b && b <= 0x39;
        match self {
            Class::Space => b == 0x20 || (0x09 <= b && b <= 0x0d),
            Class::Digit => digit,
            Class::Letter => letter,
            Class::Quoted => letter || digit || b == PLUS || b == MINUS,
        }
    }
}

/// End of the run of bytes of a class that starts at `p`.
pub open spec fn run_end(s: Seq<u8>, p: int, class: Class) -> int
    decreases s.len() - p,
{
    if 0 <= p < s.len() && class.has(s[p]) {
        run_end(s, p + 1, class)
    } else {
        p
    }
}

pub proof fn lemma_run_end(s: Seq<u8>, p: int, class: Class)
    requires
        0 <= p <= s.len(),
    ensures
        p <= run_end(s, p, class) <= s.len(),
        forall|i: int| p <= i < run_end(s, p, class) ==> class.has(#[trigger] s[i]),
        !class.has(byte_at(s, run_end(s, p, class))),
    decreases s.len() - p,
{
    if p < s.len() && class.has(s[p]) {
        lemma_run_end(s, p + 1, class);
    }
}

fn skip_run(s: &[u8], p: usize, class: Class) -> (r: usize)
    requires
        p <= s@.len(),
    ensures
        r == run_end(s@, p as int, class),
        p <= r <= s@.len(),
{
    let mut i: usize = p;
    while i < s.len() && class.contains(s[i])
        invariant
            p <= i <= s@.len(),
            run_end(s@, i as int, class) == run_end(s@, p as int, class),
        decreases s@.len() - i,
    {
        i += 1;
    }
    i
}

// ---------------------------------------------------------------------------
// Numbers
// ---------------------------------------------------------------------------

/// The number the decimal digits `s[a..b]` denote.
pub open spec fn digits_value(s: Seq<u8>, a: int, b: int) -> int
    decreases b - a,
{
    if a >= b {
        0
    } else {
        digits_value(s, a, b - 1) * 10 + (s[b - 1] - 0x30)
    }
}

/// `strtoul` of a number followed by a conversion to `unsigned short`.
pub open spec fn short_value(negative: bool, n: int) -> u16 {
    if n > u64::MAX {
        0xffff
    } else if negative {
        ((0 - n) % 0x10000) as u16
    } else {
        (n % 0x10000) as u16
    }
}

pub open spec fn is_sign(b: u8) -> bool {
    b == PLUS || b == MINUS
}

/// `sscanf("%hu")` at `p`: the value and the index after it.
pub open spec fn short_at(s: Seq<u8>, p: int) -> Option<(u16, int)> {
    let i = run_end(s, p, Class::Space);
    let start = if is_sign(byte_at(s, i)) {
        i + 1
    } else {
        i
    };
    let end = run_end(s, start, Class::Digit);
    if end == start {
        None
    } else {
        Some((short_value(byte_at(s, i) == MINUS, digits_value(s, start, end)), end))
    }
}

pub fn scan_hu(s: &[u8], p: usize) -> (r: Option<(u16, usize)>)
    requires
        p <= s@.len(),
    ensures
        match short_at(s@, p as int) {
            Some((v, end)) => r matches Some((w, e)) && w == v && e == end && p < e <= s@.len(),
            None => r is None,
        },
{
    let i = skip_run(s, p, Class::Space);
    let c: u8 = at(s, i);
    let negative = c == MINUS;
    let start: usize = if c == PLUS || c == MINUS {
        i + 1
    } else {
        i
    };
    let end = skip_run(s, start, Class::Digit);
    if end == start {
        return None;
    }
    proof {
        lemma_run_end(s@, start as int, Class::Digit);
    }
    let mut value: u64 = 0;
    let mut overflow = false;
    let mut k: usize = start;
    while k < end
        invariant
            start <= k <= end <= s@.len(),
            forall|i: int| start <= i < end ==> digit_byte(#[trigger] s@[i]),
            digits_value(s@, start as int, k as int) >= 0,
            !overflow ==> value == digits_value(s@, start as int, k as int),
            overflow ==> digits_value(s@, start as int, k as int) > u64::MAX,
        decreases end - k,
    {
        assert(digit_byte(s@[k as int]));
        let digit: u64 = (s[k] - 0x30) as u64;
        if value > 1844674407370955161 || (value == 1844674407370955161 && digit > 5) {
            overflow = true;
        } else {
            value = value * 10 + digit;
        }
        k += 1;
    }
    let ghost n = digits_value(s@, start as int, end as int);
    let result: u16 = if overflow {
        0xffff
    } else if negative {
        let low: u64 = value % 0x10000;
        proof {
            assert((0 - n) % 0x10000 == if low == 0 {
                0
            } else {
                0x10000 - low
            });
        }
        if low == 0 {
            0
        } else {
            (0x10000 - low) as u16
        }
    } else {
        (value % 0x10000) as u16
    };
    Some((result, end))
}

/// Up to `left` numbers separated by `sep`, as `sscanf` reads them, and the
/// index after the last one read.
pub open spec fn shorts_at(s: Seq<u8>, p: int, sep: u8, left: nat) -> (Seq<u16>, int)
    decreases left,
{
    if left == 0 {
        (seq![], p)
    } else {
        match short_at(s, p) {
            None => (seq![], p),
            Some((v, end)) => if byte_at(s, end) == sep && shorts_at(
                s,
                end + 1,
                sep,
                (left - 1) as nat,
            ).0.len() > 0 {
                let (rest, last) = shorts_at(s, end + 1, sep, (left - 1) as nat);
                (seq![v] + rest, last)
            } else {
                (seq![v], end)
            },
        }
    }
}

/// Reads up to three numbers separated by `sep`.
fn scan_shorts(s: &[u8], p: usize, sep: u8) -> (r: (Vec<u16>, usize))
    requires
        p <= s@.len(),
        sep != 0,
    ensures
        (r.0@, r.1 as int) == shorts_at(s@, p as int, sep, 3),
        r.0@.len() <= 3,
        p <= r.1 <= s@.len(),
{
    reveal_with_fuel(shorts_at, 4);
    let mut out: Vec<u16> = Vec::new();
    match scan_hu(s, p) {
        None => {
            assert(out@ =~= seq![]);
            return (out, p);
        },
        Some((v, end)) => {
            out.push(v);
            assert(out@ =~= seq![v]);
            if at(s, end) != sep {
                return (out, end);
            }
            match scan_hu(s, end + 1) {
                None => {
                    return (out, end);
                },
                Some((v2, end2)) => {
                    out.push(v2);
                    assert(out@ =~= seq![v] + seq![v2]);
                    if at(s, end2) != sep {
                        return (out, end2);
                    }
                    match scan_hu(s, end2 + 1) {
                        None => {
                            return (out, end2);
                        },
                        Some((v3, end3)) => {
                            out.push(v3);
                            assert(out@ =~= seq![v] + (seq![v2] + seq![v3]));
                            return (out, end3);
                        },
                    }
                },
            }
        },
    }
}

/// The `k`-th number read, or `default` if there were not so many.
pub open spec fn nth_or(vals: Seq<u16>, k: int, default: u16) -> u16 {
    if k < vals.len() {
        vals[k]
    } else {
        default
    }
}

fn get_or(vals: &Vec<u16>, k: usize, default: u16) -> (r: u16)
    ensures
        r == nth_or(vals@, k as int, default),
{
    if k < vals.len() {
        vals[k]
    } else {
        default
    }
}

/// `sscanf(s, "%hu%n:%hu%n:%hu%n", ...)`: fills `vals` in order and returns
/// the number of conversions and of bytes consumed.
pub fn scan_hms(s: &[u8], p: usize, vals: &mut [u16; 3]) -> (r: (usize, usize))
    requires
        p <= s@.len(),
    ensures
        ({
            let (read, end) = shorts_at(s@, p as int, COLON, 3);
            &&& r.0 == read.len()
            &&& r.1 == end - p
            &&& p + r.1 <= s@.len()
            &&& forall|k: int|
                0 <= k < 3 ==> #[trigger] final(vals)@[k] == nth_or(read, k, old(vals)@[k])
        }),
{
    let (read, end) = scan_shorts(s, p, COLON);
    if read.len() > 0 {
        vals[0] = read[0];
    }
    if read.len() > 1 {
        vals[1] = read[1];
    }
    if read.len() > 2 {
        vals[2] = read[2];
    }
    (read.len(), end - p)
}

// ---------------------------------------------------------------------------
// Names, offsets and rules
// ---------------------------------------------------------------------------

/// End of the zone name at `p`: at least three letters, or at least three
/// characters between `<` and `>`.
pub open spec fn name_end(s: Seq<u8>, p: int) -> Option<int> {
    let plain = run_end(s, p, Class::Letter);
    let quoted = run_end(s, p + 1, Class::Quoted);
    if plain - p >= 3 {
        Some(plain)
    } else if byte_at(s, p) == LESS && byte_at(s, quoted) == GREATER && quoted - (p + 1) >= 3 {
        Some(quoted + 1)
    } else {
        None
    }
}

pub fn parse_tzname(s: &[u8], p: usize) -> (r: Option<usize>)
    requires
        p <= s@.len(),
    ensures
        match name_end(s@, p as int) {
            Some(e) => r matches Some(q) && q == e && p < q <= s@.len(),
            None => r is None,
        },
{
    let plain = skip_run(s, p, Class::Letter);
    if plain - p >= 3 {
        return Some(plain);
    }
    if at(s, p) != LESS {
        return None;
    }
    let start: usize = p + 1;
    let q = skip_run(s, start, Class::Quoted);
    if at(s, q) != GREATER || q - start < 3 {
        return None;
    }
    Some(q + 1)
}

pub open spec fn at_most(v: u16, limit: int) -> int {
    if v > limit {
        limit
    } else {
        v as int
    }
}

/// The offset from UTC at `p`, in seconds east, and the index after it.
/// `base` is the standard offset when reading that of daylight saving time,
/// which is an hour more unless given; the standard offset is required.
pub open spec fn offset_of(s: Seq<u8>, p: int, base: Option<i32>) -> Option<(i32, int)> {
    let c = byte_at(s, p);
    let q = if is_sign(c) {
        p + 1
    } else {
        p
    };
    let (vals, end) = shorts_at(s, q, COLON, 3);
    let secs = at_most(nth_or(vals, 0, 0), 24) * 3600 + at_most(nth_or(vals, 1, 0), 59) * 60
        + at_most(nth_or(vals, 2, 0), 59);
    match base {
        None => if (is_sign(c) || digit_byte(c)) && vals.len() > 0 {
            Some(
                (
                    (if c == MINUS {
                        secs
                    } else {
                        -secs
                    }) as i32,
                    end,
                ),
            )
        } else {
            None
        },
        Some(standard) => if vals.len() > 0 {
            Some(
                (
                    (if c == MINUS {
                        secs
                    } else {
                        -secs
                    }) as i32,
                    end,
                ),
            )
        } else {
            Some(((standard + 3600) as i32, q))
        },
    }
}

pub fn parse_offset(s: &[u8], p: usize, base: Option<i32>) -> (r: Option<(i32, usize)>)
    requires
        p <= s@.len(),
        base matches Some(b) ==> -90000 < b < 90000,
    ensures
        match offset_of(s@, p as int, base) {
            Some((v, e)) => r matches Some((w, q)) && w == v && q == e && p <= q <= s@.len()
                && -100000 < w < 100000 && (base is None ==> -90000 < w < 90000),
            None => r is None,
        },
        base is Some ==> r is Some,
{
    let c: u8 = at(s, p);
    let signed = c == PLUS || c == MINUS;
    if base.is_none() && !signed && !(0x30 <= c && c <= 0x39) {
        return None;
    }
    let q: usize = if signed {
        p + 1
    } else {
        p
    };
    let mut hms: [u16; 3] = [0, 0, 0];
    let (count, consumed) = scan_hms(s, q, &mut hms);
    if count > 0 {
        let h: i32 = if hms[0] > 24 {
            24
        } else {
            hms[0] as i32
        };
        let m: i32 = if hms[1] > 59 {
            59
        } else {
            hms[1] as i32
        };
        let sec: i32 = if hms[2] > 59 {
            59
        } else {
            hms[2] as i32
        };
        let secs: i32 = h * 3600 + m * 60 + sec;
        let value: i32 = if c == MINUS {
            secs
        } else {
            -secs
        };
        return Some((value, q + consumed));
    }
    match base {
        None => None,
        Some(standard) => Some((standard + 3600, q)),
    }
}

#[derive(Debug, Clone, Copy, PartialEq, Eq, Structural)]
pub enum RuleKind {
    /// `n`: zero-based day of year, counting Feb 29.
    J0,
    /// `Jn`: one-based day of year, never counting Feb 29.
    J1,
    /// `Mm.n.d`.
    M,
}

/// When one of the two offsets takes effect in a year, and that offset.
#[derive(Debug, Clone, Copy, PartialEq, Eq, Structural)]
pub struct Rule {
    pub kind: RuleKind,
    pub m: u16,
    pub n: u16,
    pub d: u16,
    pub secs: i32,
    /// Seconds east of UTC.
    pub offset: i32,
}

impl Rule {
    /// The rule with every number zero but the offset.
    pub open spec fn blank(offset: i32) -> Rule {
        Rule { kind: RuleKind::J0, m: 0, n: 0, d: 0, secs: 0, offset }
    }

    fn with_offset(offset: i32) -> (r: Rule)
        ensures
            r == Rule::blank(offset),
    {
        Rule { kind: RuleKind::J0, m: 0, n: 0, d: 0, secs: 0, offset }
    }
}

/// The date part of the rule at `p`: what it leaves in `rule`, and the index
/// after it if it is valid. A missing rule is the second Sunday of March, or
/// the first one of November.
pub open spec fn rule_date(s: Seq<u8>, p: int, daylight: bool, rule: Rule) -> (Rule, Option<int>) {
    let c = byte_at(s, p);
    if c == LETTER_J || digit_byte(c) {
        let kind = if c == LETTER_J {
            RuleKind::J1
        } else {
            RuleKind::J0
        };
        let start = if c == LETTER_J {
            p + 1
        } else {
            p
        };
        let end = run_end(s, start, Class::Digit);
        let day = digits_value(s, start, end);
        if end == start || day > 365 || (c == LETTER_J && day == 0) {
            (Rule { kind, ..rule }, None)
        } else {
            (Rule { kind, d: day as u16, ..rule }, Some(end))
        }
    } else if c == LETTER_M {
        let (vals, end) = shorts_at(s, p + 1, DOT, 3);
        let read = Rule {
            kind: RuleKind::M,
            m: nth_or(vals, 0, rule.m),
            n: nth_or(vals, 1, rule.n),
            d: nth_or(vals, 2, rule.d),
            ..rule
        };
        if vals.len() == 3 && 1 <= read.m <= 12 && 1 <= read.n <= 5 && read.d <= 6 {
            (read, Some(end))
        } else {
            (read, None)
        }
    } else if c == 0 {
        if daylight {
            (Rule { kind: RuleKind::M, m: 11, n: 1, d: 0, ..rule }, Some(p))
        } else {
            (Rule { kind: RuleKind::M, m: 3, n: 2, d: 0, ..rule }, Some(p))
        }
    } else {
        (rule, None)
    }
}

/// The time of day of the rule at `p`: `/` and a signed time, or 02:00:00.
pub open spec fn rule_time(s: Seq<u8>, p: int, rule: Rule) -> (Rule, Option<int>) {
    let c = byte_at(s, p);
    if c == 0 || c == COMMA {
        (Rule { secs: 7200, ..rule }, Some(p))
    } else if c == SLASH && byte_at(s, p + 1) != 0 {
        let negative = byte_at(s, p + 1) == MINUS;
        let (vals, end) = shorts_at(
            s,
            if negative {
                p + 2
            } else {
                p + 1
            },
            COLON,
            3,
        );
        let secs = nth_or(vals, 0, 2) * 3600 + nth_or(vals, 1, 0) * 60 + nth_or(vals, 2, 0);
        (
            Rule {
                secs: (if negative {
                    -secs
                } else {
                    secs
                }) as i32,
                ..rule
            },
            Some(end),
        )
    } else {
        (rule, None)
    }
}

/// The rule at `p`, behind an optional comma.
pub open spec fn rule_of(s: Seq<u8>, p: int, daylight: bool, rule: Rule) -> (Rule, Option<int>) {
    let start = if byte_at(s, p) == COMMA {
        p + 1
    } else {
        p
    };
    match rule_date(s, start, daylight, rule) {
        (dated, Some(q)) => rule_time(s, q, dated),
        (dated, None) => (dated, None),
    }
}

fn scan_day(s: &[u8], first: usize, end: usize) -> (day: u32)
    requires
        first <= end <= s@.len(),
        end == run_end(s@, first as int, Class::Digit),
    ensures
        ({
            let n = digits_value(s@, first as int, end as int);
            n >= 0 && day == if n < 1000 {
                n
            } else {
                1000
            }
        }),
{
    let mut day: u32 = 0;
    let mut k: usize = first;
    proof {
        lemma_run_end(s@, first as int, Class::Digit);
    }
    while k < end
        invariant
            first <= k <= end <= s@.len(),
            forall|i: int| first <= i < end ==> digit_byte(#[trigger] s@[i]),
            digits_value(s@, first as int, k as int) >= 0,
            day <= 1000,
            day < 1000 ==> day == digits_value(s@, first as int, k as int),
            day == 1000 ==> digits_value(s@, first as int, k as int) >= 1000,
        decreases end - k,
    {
        assert(digit_byte(s@[k as int]));
        let next: u32 = day * 10 + (s[k] - 0x30) as u32;
        day = if next > 1000 {
            1000
        } else {
            next
        };
        k += 1;
    }
    day
}

fn parse_rule_date(s: &[u8], p: usize, daylight: bool, rule: Rule) -> (r: (Rule, Option<usize>))
    requires
        p <= s@.len(),
    ensures
        ({
            let (want, next) = rule_date(s@, p as int, daylight, rule);
            &&& r.0 == want
            &&& match next {
                Some(e) => r.1 matches Some(q) && q == e && q <= s@.len(),
                None => r.1 is None,
            }
        }),
{
    let mut out = rule;
    let c: u8 = at(s, p);
    if c == LETTER_J || (0x30 <= c && c <= 0x39) {
        out.kind = if c == LETTER_J {
            RuleKind::J1
        } else {
            RuleKind::J0
        };
        let first: usize = if c == LETTER_J {
            p + 1
        } else {
            p
        };
        let end = skip_run(s, first, Class::Digit);
        let day = scan_day(s, first, end);
        if end == first || day > 365 || (c == LETTER_J && day == 0) {
            return (out, None);
        }
        out.d = day as u16;
        (out, Some(end))
    } else if c == LETTER_M {
        out.kind = RuleKind::M;
        let (vals, end) = scan_shorts(s, p + 1, DOT);
        out.m = get_or(&vals, 0, out.m);
        out.n = get_or(&vals, 1, out.n);
        out.d = get_or(&vals, 2, out.d);
        if vals.len() != 3 || out.m < 1 || out.m > 12 || out.n < 1 || out.n > 5 || out.d > 6 {
            return (out, None);
        }
        (out, Some(end))
    } else if c == 0 {
        out.kind = RuleKind::M;
        if daylight {
            out.m = 11;
            out.n = 1;
            out.d = 0;
        } else {
            out.m = 3;
            out.n = 2;
            out.d = 0;
        }
        (out, Some(p))
    } else {
        (out, None)
    }
}

fn parse_rule_time(s: &[u8], p: usize, rule: Rule) -> (r: (Rule, Option<usize>))
    requires
        p <= s@.len(),
    ensures
        ({
            let (want, next) = rule_time(s@, p as int, rule);
            &&& r.0 == want
            &&& match next {
                Some(e) => r.1 matches Some(q) && q == e && q <= s@.len(),
                None => r.1 is None,
            }
        }),
{
    let mut out = rule;
    let c: u8 = at(s, p);
    if c == 0 || c == COMMA {
        out.secs = 7200;
        return (out, Some(p));
    }
    if c != SLASH || at(s, p + 1) == 0 {
        return (out, None);
    }
    let negative = at(s, p + 1) == MINUS;
    let from: usize = if negative {
        p + 2
    } else {
        p + 1
    };
    let mut hms: [u16; 3] = [2, 0, 0];
    let (_, consumed) = scan_hms(s, from, &mut hms);
    let secs: i32 = hms[0] as i32 * 3600 + hms[1] as i32 * 60 + hms[2] as i32;
    out.secs = if negative {
        -secs
    } else {
        secs
    };
    (out, Some(from + consumed))
}

pub fn parse_rule(s: &[u8], p: usize, daylight: bool, rule: Rule) -> (r: (Rule, Option<usize>))
    requires
        p <= s@.len(),
    ensures
        ({
            let (want, next) = rule_of(s@, p as int, daylight, rule);
            &&& r.0 == want
            &&& match next {
                Some(e) => r.1 matches Some(q) && q == e && q <= s@.len(),
                None => r.1 is None,
            }
        }),
{
    let start: usize = if at(s, p) == COMMA {
        p + 1
    } else {
        p
    };
    match parse_rule_date(s, start, daylight, rule) {
        (dated, Some(q)) => parse_rule_time(s, q, dated),
        (dated, None) => (dated, None),
    }
}

/// The rules of a `TZ` string: when standard time begins to be left, and when
/// it returns, with the two offsets.
#[derive(Debug, Clone, Copy, PartialEq, Eq, Structural)]
pub struct PosixTz {
    pub standard: Rule,
    pub daylight: Rule,
}

/// What a `TZ` string says.
#[derive(Debug, Clone, Copy, PartialEq, Eq)]
pub struct TzString {
    pub tz: PosixTz,
    /// The standard and daylight offsets, if the string names a daylight
    /// zone without saying when it applies.
    pub ruleless: Option<(i32, i32)>,
}

/// Both rules, read from `p` on; the second one only if the first is valid.
pub open spec fn rules_of(s: Seq<u8>, p: int, standard: i32, daylight: i32) -> PosixTz {
    match rule_of(s, p, false, Rule::blank(standard)) {
        (first, Some(q)) => PosixTz {
            standard: first,
            daylight: rule_of(s, q, true, Rule::blank(daylight)).0,
        },
        (first, None) => PosixTz { standard: first, daylight: Rule::blank(daylight) },
    }
}

/// The string read by glibc's `tzset`; anything it cannot read is UTC.
pub open spec fn tz_string(s: Seq<u8>) -> TzString {
    let utc = TzString {
        tz: PosixTz { standard: Rule::blank(0), daylight: Rule::blank(0) },
        ruleless: None,
    };
    match name_end(s, 0) {
        None => utc,
        Some(p) => match offset_of(s, p, None) {
            None => utc,
            Some((standard, q)) => if byte_at(s, q) == 0 {
                TzString {
                    tz: PosixTz {
                        standard: Rule::blank(standard),
                        daylight: Rule::blank(standard),
                    },
                    ruleless: None,
                }
            } else {
                match name_end(s, q) {
                    None => TzString { tz: rules_of(s, q, standard, 0), ruleless: None },
                    Some(n) => {
                        let (daylight, e) = offset_of(s, n, Some(standard)).unwrap();
                        TzString {
                            tz: rules_of(s, e, standard, daylight),
                            ruleless: if byte_at(s, e) == 0 || (byte_at(s, e) == COMMA && byte_at(
                                s,
                                e + 1,
                            ) == 0) {
                                Some((standard, daylight))
                            } else {
                                None
                            },
                        }
                    },
                }
            },
        },
    }
}

/// Is this a `TZ` string: a name and an offset, with or without more?
pub open spec fn readable(s: Seq<u8>) -> bool {
    name_end(s, 0) matches Some(p) && offset_of(s, p, None) is Some
}

pub fn is_readable(s: &[u8]) -> (r: bool)
    ensures
        r == readable(s@),
{
    match parse_tzname(s, 0) {
        Some(p) => parse_offset(s, p, None).is_some(),
        None => false,
    }
}

fn parse_rules(s: &[u8], p: usize, standard: i32, daylight: i32) -> (r: PosixTz)
    requires
        p <= s@.len(),
    ensures
        r == rules_of(s@, p as int, standard, daylight),
{
    let (first, next) = parse_rule(s, p, false, Rule::with_offset(standard));
    let second = match next {
        Some(q) => parse_rule(s, q, true, Rule::with_offset(daylight)).0,
        None => Rule::with_offset(daylight),
    };
    PosixTz { standard: first, daylight: second }
}

/// Reads a `TZ` string.
pub fn parse_tz_string(s: &[u8]) -> (r: TzString)
    ensures
        r == tz_string(s@),
{
    let utc = TzString {
        tz: PosixTz { standard: Rule::with_offset(0), daylight: Rule::with_offset(0) },
        ruleless: None,
    };
    let p: usize = match parse_tzname(s, 0) {
        Some(p) => p,
        None => return utc,
    };
    let (standard, q) = match parse_offset(s, p, None) {
        Some(v) => v,
        None => return utc,
    };
    if at(s, q) == 0 {
        return TzString {
            tz: PosixTz {
                standard: Rule::with_offset(standard),
                daylight: Rule::with_offset(standard),
            },
            ruleless: None,
        };
    }
    match parse_tzname(s, q) {
        None => TzString { tz: parse_rules(s, q, standard, 0), ruleless: None },
        Some(n) => {
            let (daylight, e) = parse_offset(s, n, Some(standard)).unwrap();
            let c: u8 = at(s, e);
            let bare = c == 0 || (c == COMMA && at(s, e + 1) == 0);
            TzString {
                tz: parse_rules(s, e, standard, daylight),
                ruleless: if bare {
                    Some((standard, daylight))
                } else {
                    None
                },
            }
        },
    }
}

// ---------------------------------------------------------------------------
// Applying the rules
// ---------------------------------------------------------------------------

proof fn lemma_leap_shift(y: int)
    ensures
        (y + 400_000_000_000_000_000_000) % 4 == y % 4,
        (y + 400_000_000_000_000_000_000) % 100 == y % 100,
        (y + 400_000_000_000_000_000_000) % 400 == y % 400,
{
}

pub fn is_leap(year: i64) -> (r: bool)
    ensures
        r == crate::calendar::leap_year(year as int),
{
    // A whole number of 400-year cycles later the year is positive.
    let y: u128 = (year as i128 + 400_000_000_000_000_000_000) as u128;
    proof {
        lemma_leap_shift(year as int);
    }
    y % 4 == 0 && (y % 100 != 0 || y % 400 == 0)
}

/// Division that rounds toward zero.
pub open spec fn quotient(a: int, b: int) -> int {
    if a >= 0 {
        a / b
    } else {
        -((-a) / b)
    }
}

pub open spec fn remainder(a: int, b: int) -> int {
    a - b * quotient(a, b)
}

/// Days before the months of a common year, then of a leap year, thirteen
/// entries each; 0 outside the table.
pub open spec fn month_table(i: int) -> int {
    if 0 <= i < 13 {
        crate::calendar::days_before_month(1, i + 1)
    } else if 13 <= i < 26 {
        crate::calendar::days_before_month(4, i - 12)
    } else {
        0
    }
}

proof fn lemma_month_table()
    ensures
        month_table(0) == 0,
        month_table(1) == 31,
        month_table(2) == 59,
        month_table(3) == 90,
        month_table(4) == 120,
        month_table(5) == 151,
        month_table(6) == 181,
        month_table(7) == 212,
        month_table(8) == 243,
        month_table(9) == 273,
        month_table(10) == 304,
        month_table(11) == 334,
        month_table(12) == 365,
        month_table(13) == 0,
        month_table(14) == 31,
        month_table(15) == 60,
        month_table(16) == 91,
        month_table(17) == 121,
        month_table(18) == 152,
        month_table(19) == 182,
        month_table(20) == 213,
        month_table(21) == 244,
        month_table(22) == 274,
        month_table(23) == 305,
        month_table(24) == 335,
        month_table(25) == 366,
{
    reveal_with_fuel(crate::calendar::days_before_month, 14);
}

pub fn mon_yday(index: i64) -> (r: i128)
    ensures
        r == month_table(index as int),
        0 <= r <= 366,
{
    proof {
        lemma_month_table();
    }
    let table: [u16; 26] = [
        0,
        31,
        59,
        90,
        120,
        151,
        181,
        212,
        243,
        273,
        304,
        334,
        365,
        0,
        31,
        60,
        91,
        121,
        152,
        182,
        213,
        244,
        274,
        305,
        335,
        366,
    ];
    if 0 <= index && index < 26 {
        table[index as usize] as i128
    } else {
        0
    }
}

/// Day of the week on which month `m` of year `y` begins, Sunday being 0
/// (Zeller's congruence).
pub open spec fn first_weekday(m: int, y: int) -> int {
    let m1 = (m + 9) % 12 + 1;
    let y0 = if m <= 2 {
        y - 1
    } else {
        y
    };
    let century = quotient(y0, 100);
    let rest = remainder(y0, 100);
    ((26 * m1 - 2) / 10 + 1 + rest + quotient(rest, 4) + quotient(century, 4) - 2 * century) % 7
}

/// Days into month, zero-based, of the `n`-th day of the week `d` in a month
/// of `len` days that begins on weekday `first`, or of the last one.
pub open spec fn nth_weekday(first: int, d: int, n: int, len: int) -> int {
    let d0 = if d < first {
        d - first + 7
    } else {
        d - first
    };
    let weeks = if len > d0 {
        (len - 1 - d0) / 7
    } else {
        0
    };
    if n - 1 < 0 {
        d0
    } else if n - 1 < weeks {
        d0 + 7 * (n - 1)
    } else {
        d0 + 7 * weeks
    }
}

/// Zero-based day of the year on which the rule takes effect.
pub open spec fn change_day(rule: Rule, year: int) -> int {
    let leap = crate::calendar::leap_year(year);
    match rule.kind {
        RuleKind::J0 => rule.d as int,
        RuleKind::J1 => if rule.d >= 60 && leap {
            rule.d as int
        } else {
            rule.d - 1
        },
        RuleKind::M => {
            let row = if leap {
                13int
            } else {
                0
            };
            let before = month_table(row + rule.m - 1);
            before + nth_weekday(
                first_weekday(rule.m as int, year),
                rule.d as int,
                rule.n as int,
                month_table(row + rule.m) - before,
            )
        },
    }
}

/// Days from 1970-01-01 to the start of the year; none for earlier years.
pub open spec fn year_days(year: int) -> int {
    if year > 1970 {
        crate::calendar::epoch_day(year, 1, 1)
    } else {
        0
    }
}

/// When the rule takes effect in the year, in seconds since the epoch.
pub open spec fn change(rule: Rule, year: int) -> int {
    (year_days(year) + change_day(rule, year)) * 86400 - rule.offset + rule.secs
}

proof fn lemma_floor_mod(x: int, r: int)
    requires
        r == remainder(x, 7),
    ensures
        x % 7 == if r < 0 {
            r + 7
        } else {
            r
        },
        -7 < r < 7,
{
}

fn month_begins_on(m: u16, year: i64) -> (r: i128)
    ensures
        r == first_weekday(m as int, year as int),
        0 <= r < 7,
{
    let y: i128 = year as i128;
    let m1: i128 = (m as i128 + 9) % 12 + 1;
    let y0: i128 = if m <= 2 {
        y - 1
    } else {
        y
    };
    let century: i128 = y0 / 100;
    let rest: i128 = y0 % 100;
    assert(century == quotient(y0 as int, 100));
    assert(rest == remainder(y0 as int, 100));
    assert(-100 < rest < 100);
    let quarter: i128 = rest / 4;
    assert(quarter == quotient(rest as int, 4));
    let cycle: i128 = century / 4;
    assert(cycle == quotient(century as int, 4));
    let shift: i128 = (26 * m1 - 2) / 10;
    assert(0 <= shift <= 31);
    let sum: i128 = shift + 1 + rest + quarter + cycle - 2 * century;
    let r: i128 = sum % 7;
    proof {
        lemma_floor_mod(sum as int, r as int);
    }
    if r < 0 {
        r + 7
    } else {
        r
    }
}

fn weekday_in_month(first: i128, d: u16, n: u16, len: i128) -> (r: i128)
    requires
        0 <= first < 7,
        -366 <= len <= 366,
    ensures
        r == nth_weekday(first as int, d as int, n as int, len as int),
        0 <= r <= 66000,
{
    let mut day: i128 = d as i128 - first;
    if day < 0 {
        day = day + 7;
    }
    let ghost d0 = day as int;
    let mut i: u16 = 1;
    while i < n && day + 7 < len
        invariant
            0 <= d0 <= 65535,
            -366 <= len <= 366,
            i >= 1,
            i == 1 || i <= n,
            day == d0 + 7 * (i - 1),
            i == 1 || day < len,
            day <= 66000,
        decreases n - i,
    {
        day = day + 7;
        i += 1;
    }
    day
}

fn month_rule_day(rule: &Rule, year: i64) -> (r: i128)
    requires
        rule.kind == RuleKind::M,
    ensures
        r == change_day(*rule, year as int),
        -1000 <= r <= 70000,
{
    let row: i64 = if is_leap(year) {
        13
    } else {
        0
    };
    let base: i64 = row + rule.m as i64;
    let through: i128 = mon_yday(base);
    let before: i128 = mon_yday(base - 1);
    let first = month_begins_on(rule.m, year);
    before + weekday_in_month(first, rule.d, rule.n, through - before)
}

/// When `rule` takes effect in `year`.
pub fn compute_change(rule: &Rule, year: i64) -> (r: i128)
    ensures
        r == change(*rule, year as int),
{
    let y: i128 = year as i128;
    let days: i128 = if year > 1970 {
        (y - 1970) * 365 + ((y - 1) / 4 - 1970 / 4) - ((y - 1) / 100 - 1970 / 100) + ((y - 1) / 400
            - 1970 / 400)
    } else {
        0
    };
    assert(days == year_days(year as int)) by {
        reveal_with_fuel(crate::calendar::days_before_month, 2);
    }
    let day: i128 = match rule.kind {
        RuleKind::J0 => rule.d as i128,
        RuleKind::J1 => {
            if rule.d >= 60 && is_leap(year) {
                rule.d as i128
            } else {
                rule.d as i128 - 1
            }
        },
        RuleKind::M => month_rule_day(rule, year),
    };
    (days + day) * 86400 - rule.offset as i128 + rule.secs as i128
}

/// Second at which a year begins.
pub open spec fn year_second(year: int) -> int {
    crate::calendar::epoch_day(year, 1, 1) * 86400
}

/// The year of the proleptic Gregorian calendar, in UTC, that the time lies
/// in.
pub open spec fn year_of(t: int) -> int {
    choose|y: int| #[trigger] year_second(y) <= t < year_second(y + 1)
}

pub proof fn lemma_year_of(t: int, y: int)
    requires
        year_second(y) <= t < year_second(y + 1),
    ensures
        year_of(t) == y,
{
    reveal_with_fuel(crate::calendar::days_before_month, 2);
    let z = year_of(t);
    assert(year_second(z) <= t < year_second(z + 1));
    if z < y {
        crate::calendar::lemma_year_order(z, y);
        if z + 1 < y {
            crate::calendar::lemma_year_order(z + 1, y);
        }
    } else if y < z {
        crate::calendar::lemma_year_order(y, z);
        if y + 1 < z {
            crate::calendar::lemma_year_order(y + 1, z);
        }
    }
}

/// Days from 1970-01-01 to the start of the year `k` years later.
spec fn span(k: int) -> int {
    crate::calendar::days_before_year(1970 + k) - crate::calendar::days_before_year(1970)
}

fn span_days(k: u64) -> (r: u64)
    requires
        k <= 400,
    ensures
        r == span(k as int),
{
    let y: u64 = 1969 + k;
    365 * k + (y / 4 - 492) + (y / 400 - 4) + 19 - y / 100
}

/// The calendar repeats after 400 years.
proof fn lemma_cycle(y: int, c: int)
    ensures
        crate::calendar::days_before_year(y + 400 * c) == crate::calendar::days_before_year(y)
            + 146_097 * c,
{
    let a = y - 1;
    assert((a + 400 * c) / 4 == a / 4 + 100 * c);
    assert((a + 400 * c) / 100 == a / 100 + 4 * c);
    assert((a + 400 * c) / 400 == a / 400 + c);
}

proof fn lemma_span_guess(day: int)
    requires
        0 <= day,
    ensures
        span(day / 366) <= day,
{
    let k = day / 366;
    assert((1969 + k) / 4 - 492 <= k / 4 + 1);
    assert(span(k) <= 366 * k);
}

/// Proleptic Gregorian UTC year containing Unix time `t`.
pub fn utc_year(t: i64) -> (r: i64)
    ensures
        r == year_of(t as int),
{
    // A thousand million cycles of 400 years make every time positive.
    let shifted: u128 = (t as i128 + 12_622_780_800_000_000_000) as u128;
    let days: u128 = shifted / 86400;
    let cycles: u128 = days / 146_097;
    let day: u64 = (days % 146_097) as u64;
    let mut k: u64 = day / 366;
    proof {
        lemma_span_guess(day as int);
    }
    while k < 399 && span_days(k + 1) <= day
        invariant
            k <= 399,
            span(k as int) <= day < 146_097,
        decreases 399 - k,
    {
        k += 1;
    }
    assert(span(400) == 146_097);
    assert(day < span(k + 1));
    let year: i64 = 1970 + k as i64 + 400 * (cycles as i64 - 1_000_000_000);
    proof {
        reveal_with_fuel(crate::calendar::days_before_month, 2);
        let c = cycles - 1_000_000_000;
        lemma_cycle(1970 + k, c);
        lemma_cycle(1970 + k + 1, c);
        assert(days == 146_097 * cycles + day);
        assert(year_second(year as int) <= t < year_second(year + 1));
        lemma_year_of(t as int, year as int);
    }
    year
}

impl PosixTz {
    /// The offset from UTC, in seconds east, that applies at `t`.
    pub open spec fn offset(self, t: int) -> i32 {
        let year = year_of(t);
        let start = change(self.standard, year);
        let end = change(self.daylight, year);
        let dst = if start > end {
            t < end || t >= start
        } else {
            t >= start && t < end
        };
        if dst {
            self.daylight.offset
        } else {
            self.standard.offset
        }
    }

    pub fn offset_at(&self, t: i64) -> (r: i32)
        ensures
            r == self.offset(t as int),
    {
        let year = utc_year(t);
        let start = compute_change(&self.standard, year);
        let end = compute_change(&self.daylight, year);
        let t: i128 = t as i128;
        let dst = if start > end {
            t < end || t >= start
        } else {
            t >= start && t < end
        };
        if dst {
            self.daylight.offset
        } else {
            self.standard.offset
        }
    }
}

// ---------------------------------------------------------------------------
// Laws
// ---------------------------------------------------------------------------

proof fn lemma_month_start(y: int, m: int)
    requires
        1 <= m <= 12,
    ensures
        ({
            let y0 = if m <= 2 {
                y - 1
            } else {
                y
            };
            let m1 = (m + 9) % 12 + 1;
            crate::calendar::epoch_day(y, m, 1) == 365 * y0 + y0 / 4 - y0 / 100 + y0 / 400 + 28 * m1
                + (26 * m1 - 2) / 10 - 719498
        }),
{
    reveal_with_fuel(crate::calendar::days_before_month, 13);
    crate::calendar::lemma_year_length(y);
}

proof fn lemma_centuries(y0: int)
    requires
        0 <= y0,
    ensures
        y0 / 4 == 25 * (y0 / 100) + (y0 % 100) / 4,
        y0 / 400 == (y0 / 100) / 4,
        y0 == 100 * (y0 / 100) + y0 % 100,
{
}

proof fn lemma_same_weekday(e: int, z: int, k: int)
    requires
        e == z + 7 * k,
    ensures
        e % 7 == z % 7,
{
}

/// Zeller's congruence gives the weekday of the first of a month.
#[verifier::spinoff_prover]
pub proof fn law_first_weekday(m: int, y: int)
    requires
        1 <= m <= 12,
        y >= 1,
    ensures
        first_weekday(m, y) == (crate::calendar::epoch_day(y, m, 1) + 4) % 7,
{
    lemma_month_start(y, m);
    let y0 = if m <= 2 {
        y - 1
    } else {
        y
    };
    let m1 = (m + 9) % 12 + 1;
    let c = y0 / 100;
    let r = y0 % 100;
    lemma_centuries(y0);
    let e = crate::calendar::epoch_day(y, m, 1) + 4;
    let z = (26 * m1 - 2) / 10 + 1 + r + r / 4 + c / 4 - 2 * c;
    lemma_same_weekday(e, z, 5218 * c + 52 * r + 4 * m1 - 102785);
}

proof fn lemma_month_row(year: int, m: int)
    requires
        1 <= m <= 12,
    ensures
        ({
            let row = if crate::calendar::leap_year(year) {
                13int
            } else {
                0
            };
            &&& month_table(row + m - 1) == crate::calendar::days_before_month(year, m)
            &&& month_table(row + m) - month_table(row + m - 1) == crate::calendar::month_days(
                year,
                m,
            )
        }),
{
    reveal_with_fuel(crate::calendar::days_before_month, 13);
}

proof fn lemma_nth_weekday(first: int, d: int, n: int, len: int)
    requires
        0 <= first < 7,
        0 <= d < 7,
        1 <= n,
        28 <= len,
    ensures
        ({
            let k = nth_weekday(first, d, n, len);
            &&& 0 <= k < len
            &&& (first + k) % 7 == d
            &&& k / 7 == n - 1 || (k / 7 < n - 1 && k + 7 >= len)
        }),
{
    let d0 = if d < first {
        d - first + 7
    } else {
        d - first
    };
    let weeks = (len - 1 - d0) / 7;
    assert(0 <= d0 < 7);
    let w = if n - 1 < weeks {
        n - 1
    } else {
        weeks
    };
    assert(nth_weekday(first, d, n, len) == d0 + 7 * w);
    assert((d0 + 7 * w) / 7 == w);
    assert((first + d0 + 7 * w) % 7 == (first + d0) % 7);
}

/// Is `day` of month `m` the date a `Mm.n.d` rule means in `year`?
pub open spec fn is_rule_date(rule: Rule, year: int, day: int) -> bool {
    let date = crate::calendar::epoch_day(year, rule.m as int, day);
    let len = crate::calendar::month_days(year, rule.m as int);
    &&& 1 <= day <= len
    &&& (date + 4) % 7 == rule.d
    &&& (day - 1) / 7 == rule.n - 1 || ((day - 1) / 7 < rule.n - 1 && day + 7 > len)
    &&& change(rule, year) == date * 86400 - rule.offset + rule.secs
}

proof fn lemma_change_day(rule: Rule, year: int, k: int)
    requires
        rule.kind == RuleKind::M,
        1 <= rule.m <= 12,
        year >= 1970,
        k == nth_weekday(
            first_weekday(rule.m as int, year),
            rule.d as int,
            rule.n as int,
            crate::calendar::month_days(year, rule.m as int),
        ),
    ensures
        year_days(year) + change_day(rule, year) == crate::calendar::epoch_day(
            year,
            rule.m as int,
            k + 1,
        ),
{
    lemma_month_row(year, rule.m as int);
    assert(crate::calendar::days_before_month(year, 1) == 0);
}

proof fn lemma_add_mod(e: int, k: int)
    ensures
        (e % 7 + k) % 7 == (e + k) % 7,
{
}

/// `Mm.n.d` names the `n`-th day of the week `d` in month `m`, or the last
/// one if there are fewer than `n`.
pub proof fn law_month_rule(rule: Rule, year: int)
    requires
        rule.kind == RuleKind::M,
        1 <= rule.m <= 12,
        1 <= rule.n <= 5,
        rule.d <= 6,
        year >= 1970,
    ensures
        exists|day: int| is_rule_date(rule, year, day),
{
    let m = rule.m as int;
    law_first_weekday(m, year);
    let len = crate::calendar::month_days(year, m);
    let first = first_weekday(m, year);
    let k = nth_weekday(first, rule.d as int, rule.n as int, len);
    lemma_nth_weekday(first, rule.d as int, rule.n as int, len);
    lemma_change_day(rule, year, k);
    lemma_add_mod(crate::calendar::epoch_day(year, m, 1) + 4, k);
    assert(is_rule_date(rule, year, k + 1));
}

/// `Jn` names the same date in every year, leap or not.
pub proof fn law_julian_rule(rule: Rule, year: int, m: int, day: int)
    requires
        rule.kind == RuleKind::J1,
        1 <= m <= 12,
        1 <= day <= crate::calendar::month_days(1, m),
        rule.d == crate::calendar::days_before_month(1, m) + day,
        year >= 1970,
    ensures
        change(rule, year) == crate::calendar::epoch_day(year, m, day) * 86400 - rule.offset
            + rule.secs,
{
    reveal_with_fuel(crate::calendar::days_before_month, 13);
}

/// A value that has no readable name and offset is UTC.
pub proof fn law_unreadable_is_utc(s: Seq<u8>, t: int)
    requires
        !readable(s),
    ensures
        tz_string(s).tz.offset(t) == 0,
{
}

/// Without a daylight zone the standard offset always applies.
pub proof fn law_standard_only(s: Seq<u8>, t: int)
    requires
        name_end(s, 0) matches Some(p) && offset_of(s, p, None) matches Some((_, q)) && byte_at(s, q)
            == 0,
    ensures
        name_end(s, 0) matches Some(p) && offset_of(s, p, None) matches Some((standard, _))
            && tz_string(s).tz.offset(t) == standard,
{
}

} // verus!
