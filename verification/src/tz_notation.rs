//! Laws about `TZ` strings: which offset and which rules a string asks for.

use vstd::prelude::*;

use crate::posix_tz::{
    byte_at, digits_value, name_end, offset_of, rule_of, run_end, short_at, shorts_at, tz_string,
    Class, Rule, RuleKind, COLON, COMMA, DOT,
};

verus! {

// ---------------------------------------------------------------------------
// Pieces of a string
// ---------------------------------------------------------------------------

/// Do the bytes stand at this place of the string?
pub open spec fn piece_at(s: Seq<u8>, p: int, x: Seq<u8>) -> bool {
    0 <= p && p + x.len() <= s.len() && s.subrange(p, p + x.len()) == x
}

proof fn lemma_piece(before: Seq<u8>, x: Seq<u8>, after: Seq<u8>)
    ensures
        piece_at(before + x + after, before.len() as int, x),
{
    let s = before + x + after;
    assert(s.subrange(before.len() as int, before.len() as int + x.len()) =~= x);
}

proof fn lemma_piece_byte(s: Seq<u8>, p: int, x: Seq<u8>, i: int)
    requires
        piece_at(s, p, x),
        0 <= i < x.len(),
    ensures
        s[p + i] == x[i],
        byte_at(s, p + i) == x[i],
{
    assert(s.subrange(p, p + x.len())[i] == s[p + i]);
}

proof fn lemma_run(s: Seq<u8>, p: int, class: Class, e: int)
    requires
        0 <= p <= e <= s.len(),
        forall|i: int| p <= i < e ==> class.has(#[trigger] s[i]),
        !class.has(byte_at(s, e)) || e == s.len(),
    ensures
        run_end(s, p, class) == e,
    decreases e - p,
{
    if p < e {
        assert(class.has(s[p]));
        lemma_run(s, p + 1, class, e);
    }
}

/// The decimal digits of a number.
pub open spec fn digits(n: nat) -> Seq<u8>
    decreases n,
{
    if n < 10 {
        seq![(0x30 + n) as u8]
    } else {
        digits(n / 10).push((0x30 + n % 10) as u8)
    }
}

proof fn lemma_digits(n: nat)
    ensures
        digits(n).len() > 0,
        forall|i: int| 0 <= i < digits(n).len() ==> 0x30 <= #[trigger] digits(n)[i] <= 0x39,
    decreases n,
{
    if n >= 10 {
        lemma_digits(n / 10);
        let d = digits(n);
        let t = digits(n / 10);
        assert forall|i: int| 0 <= i < d.len() implies 0x30 <= #[trigger] d[i] <= 0x39 by {
            if i < t.len() {
                assert(d[i] == t[i]);
            }
        }
    }
}

proof fn lemma_digits_value(s: Seq<u8>, p: int, n: nat)
    requires
        piece_at(s, p, digits(n)),
    ensures
        digits_value(s, p, p + digits(n).len()) == n,
    decreases n,
{
    let d = digits(n);
    let e = p + d.len();
    lemma_digits(n);
    lemma_piece_byte(s, p, d, d.len() - 1);
    if n < 10 {
        assert(d.len() == 1);
        assert(digits_value(s, p, p) == 0);
    } else {
        let t = digits(n / 10);
        assert(s.subrange(p, p + t.len()) =~= t) by {
            assert forall|i: int| 0 <= i < t.len() implies s[p + i] == t[i] by {
                lemma_piece_byte(s, p, d, i);
                assert(d[i] == t[i]);
            }
        }
        lemma_digits_value(s, p, n / 10);
        assert(e - 1 == p + t.len());
    }
}

proof fn lemma_number(s: Seq<u8>, p: int, n: nat)
    requires
        piece_at(s, p, digits(n)),
        !Class::Digit.has(byte_at(s, p + digits(n).len())),
        n <= 0xffff,
    ensures
        short_at(s, p) == Some((n as u16, p + digits(n).len())),
{
    let d = digits(n);
    let e = p + d.len();
    lemma_digits(n);
    lemma_piece_byte(s, p, d, 0);
    lemma_run(s, p, Class::Space, p);
    assert forall|i: int| p <= i < e implies Class::Digit.has(#[trigger] s[i]) by {
        lemma_piece_byte(s, p, d, i - p);
    }
    lemma_run(s, p, Class::Digit, e);
    lemma_digits_value(s, p, n);
}

/// One number that no separator follows.
proof fn lemma_one_number(s: Seq<u8>, p: int, n: nat, sep: u8)
    requires
        piece_at(s, p, digits(n)),
        !Class::Digit.has(byte_at(s, p + digits(n).len())),
        byte_at(s, p + digits(n).len()) != sep,
        n <= 0xffff,
    ensures
        shorts_at(s, p, sep, 3) == (seq![n as u16], p + digits(n).len()),
{
    lemma_number(s, p, n);
}

/// Three numbers with a separator between each two.
pub open spec fn three(a: nat, b: nat, c: nat, sep: u8) -> Seq<u8> {
    digits(a) + seq![sep] + digits(b) + seq![sep] + digits(c)
}

proof fn lemma_three(s: Seq<u8>, p: int, a: nat, b: nat, c: nat, sep: u8)
    requires
        piece_at(s, p, three(a, b, c, sep)),
        !Class::Digit.has(byte_at(s, p + three(a, b, c, sep).len())),
        !Class::Digit.has(sep),
        a <= 0xffff,
        b <= 0xffff,
        c <= 0xffff,
    ensures
        shorts_at(s, p, sep, 3) == (
            seq![a as u16, b as u16, c as u16],
            p + three(a, b, c, sep).len(),
        ),
{
    let x = three(a, b, c, sep);
    let da = digits(a);
    let db = digits(b);
    let dc = digits(c);
    let q = p + da.len() + 1;
    let r = q + db.len() + 1;
    let e = p + x.len();
    assert forall|i: int| 0 <= i < x.len() implies s[p + i] == x[i] by {
        lemma_piece_byte(s, p, x, i);
    }
    assert(s.subrange(p, p + da.len()) =~= da) by {
        assert forall|i: int| 0 <= i < da.len() implies s[p + i] == da[i] by {
            assert(x[i] == da[i]);
        }
    }
    assert(s.subrange(q, q + db.len()) =~= db) by {
        assert forall|i: int| 0 <= i < db.len() implies s[q + i] == db[i] by {
            assert(x[da.len() + 1 + i] == db[i]);
            assert(s[p + (da.len() + 1 + i)] == x[da.len() + 1 + i]);
        }
    }
    assert(s.subrange(r, r + dc.len()) =~= dc) by {
        assert forall|i: int| 0 <= i < dc.len() implies s[r + i] == dc[i] by {
            assert(x[da.len() + db.len() + 2 + i] == dc[i]);
            assert(s[p + (da.len() + db.len() + 2 + i)] == x[da.len() + db.len() + 2 + i]);
        }
    }
    assert(x[da.len() as int] == sep);
    assert(x[da.len() as int + 1 + db.len()] == sep);
    assert(s[p + da.len()] == sep);
    assert(s[p + (da.len() + 1 + db.len())] == sep);
    lemma_digits(a);
    lemma_digits(b);
    lemma_digits(c);
    lemma_number(s, p, a);
    lemma_number(s, q, b);
    lemma_number(s, r, c);
    reveal_with_fuel(shorts_at, 4);
    assert(shorts_at(s, r, sep, 1) == (seq![c as u16], e));
    assert(shorts_at(s, q, sep, 2) == (seq![b as u16] + seq![c as u16], e));
    assert(seq![a as u16] + (seq![b as u16] + seq![c as u16]) =~= seq![
        a as u16,
        b as u16,
        c as u16,
    ]);
}

// ---------------------------------------------------------------------------
// Names and offsets
// ---------------------------------------------------------------------------

/// Is this a name of three letters or more?
pub open spec fn zone_letters(name: Seq<u8>) -> bool {
    &&& name.len() >= 3
    &&& forall|i: int|
        0 <= i < name.len() ==> 0x41 <= #[trigger] name[i] <= 0x5a || 0x61 <= name[i] <= 0x7a
}

proof fn lemma_name(s: Seq<u8>, p: int, name: Seq<u8>)
    requires
        zone_letters(name),
        piece_at(s, p, name),
        !Class::Letter.has(byte_at(s, p + name.len())),
    ensures
        name_end(s, p) == Some(p + name.len()),
{
    assert forall|i: int| p <= i < p + name.len() implies Class::Letter.has(#[trigger] s[i]) by {
        lemma_piece_byte(s, p, name, i - p);
        assert(0x41 <= name[i - p] <= 0x5a || 0x61 <= name[i - p] <= 0x7a);
    }
    lemma_run(s, p, Class::Letter, p + name.len());
}

/// A name and hours, minutes and seconds behind a sign are a zone with that offset
/// all year. The offset is what has to be added to local time to get UTC, so that
/// zones east of Greenwich have a minus sign.
pub proof fn law_written_offsets(
    name: Seq<u8>,
    east: bool,
    h: nat,
    m: nat,
    sec: nat,
    t: int,
)
    requires
        zone_letters(name),
        h <= 24,
        m <= 59,
        sec <= 59,
    ensures
        ({
            let sign = if east {
                seq![0x2du8]
            } else {
                seq![0x2bu8]
            };
            let s = name + sign + three(h, m, sec, 0x3a);
            &&& crate::posix_tz::readable(s)
            &&& tz_string(s).ruleless is None
            &&& east ==> tz_string(s).tz.offset(t) == h * 3600 + m * 60 + sec
            &&& !east ==> tz_string(s).tz.offset(t) == -(h * 3600 + m * 60 + sec)
        }),
{
    let sign = if east {
        seq![0x2du8]
    } else {
        seq![0x2bu8]
    };
    let x = three(h, m, sec, COLON);
    lemma_three_pieces(name, sign, x);
    lemma_name(name + sign + x, 0, name);
    lemma_signed(name + sign + x, name.len() as int, east, h, m, sec, t);
}

proof fn lemma_three_pieces(a: Seq<u8>, b: Seq<u8>, c: Seq<u8>)
    requires
        b.len() == 1,
    ensures
        piece_at(a + b + c, 0, a),
        byte_at(a + b + c, a.len() as int) == b[0],
        piece_at(a + b + c, a.len() as int + 1, c),
        (a + b + c).len() == a.len() + 1 + c.len(),
{
    let s = a + b + c;
    assert(s.subrange(0, a.len() as int) =~= a);
    assert(s.subrange(a.len() as int + 1, a.len() as int + 1 + c.len()) =~= c);
}

#[verifier::spinoff_prover]
#[verifier::rlimit(60)]
proof fn lemma_signed(s: Seq<u8>, p: int, east: bool, h: nat, m: nat, sec: nat, t: int)
    requires
        name_end(s, 0) == Some(p),
        byte_at(s, p) == if east {
            0x2du8
        } else {
            0x2bu8
        },
        piece_at(s, p + 1, three(h, m, sec, COLON)),
        s.len() == p + 1 + three(h, m, sec, COLON).len(),
        h <= 24,
        m <= 59,
        sec <= 59,
    ensures
        crate::posix_tz::readable(s),
        tz_string(s).ruleless is None,
        east ==> tz_string(s).tz.offset(t) == h * 3600 + m * 60 + sec,
        !east ==> tz_string(s).tz.offset(t) == -(h * 3600 + m * 60 + sec),
{
    lemma_three(s, p + 1, h, m, sec, COLON);
}

/// Of an offset no more than 24 hours, 59 minutes and 59 seconds count.
pub proof fn law_large_offsets(name: Seq<u8>, east: bool, h: nat, m: nat, sec: nat, t: int)
    requires
        zone_letters(name),
        h <= 0xffff,
        m <= 0xffff,
        sec <= 0xffff,
    ensures
        ({
            let sign = if east {
                seq![0x2du8]
            } else {
                seq![0x2bu8]
            };
            let s = name + sign + three(h, m, sec, 0x3a);
            let hours = if h > 24 {
                24
            } else {
                h
            };
            let minutes = if m > 59 {
                59
            } else {
                m
            };
            let seconds = if sec > 59 {
                59
            } else {
                sec
            };
            &&& east ==> tz_string(s).tz.offset(t) == hours * 3600 + minutes * 60 + seconds
            &&& !east ==> tz_string(s).tz.offset(t) == -(hours * 3600 + minutes * 60 + seconds)
        }),
{
    let sign = if east {
        seq![0x2du8]
    } else {
        seq![0x2bu8]
    };
    let x = three(h, m, sec, COLON);
    lemma_three_pieces(name, sign, x);
    lemma_name(name + sign + x, 0, name);
    lemma_large(name + sign + x, name.len() as int, east, h, m, sec, t);
}

#[verifier::spinoff_prover]
#[verifier::rlimit(60)]
proof fn lemma_large(s: Seq<u8>, p: int, east: bool, h: nat, m: nat, sec: nat, t: int)
    requires
        name_end(s, 0) == Some(p),
        byte_at(s, p) == if east {
            0x2du8
        } else {
            0x2bu8
        },
        piece_at(s, p + 1, three(h, m, sec, COLON)),
        s.len() == p + 1 + three(h, m, sec, COLON).len(),
        h <= 0xffff,
        m <= 0xffff,
        sec <= 0xffff,
    ensures
        ({
            let hours = if h > 24 {
                24
            } else {
                h
            };
            let minutes = if m > 59 {
                59
            } else {
                m
            };
            let seconds = if sec > 59 {
                59
            } else {
                sec
            };
            &&& east ==> tz_string(s).tz.offset(t) == hours * 3600 + minutes * 60 + seconds
            &&& !east ==> tz_string(s).tz.offset(t) == -(hours * 3600 + minutes * 60 + seconds)
        }),
{
    lemma_three(s, p + 1, h, m, sec, COLON);
}

/// Without a sign the offset counts as behind UTC too, and minutes and seconds may
/// be left out.
pub proof fn law_written_hours(name: Seq<u8>, h: nat, t: int)
    requires
        zone_letters(name),
        h <= 24,
    ensures
        crate::posix_tz::readable(name + digits(h)),
        tz_string(name + digits(h)).tz.offset(t) == -(h * 3600),
        tz_string(name + seq![0x2du8] + digits(h)).tz.offset(t) == h * 3600,
{
    lemma_unsigned_hours(name, h, t);
    lemma_signed_hours(name, h, t);
}

#[verifier::spinoff_prover]
#[verifier::rlimit(60)]
proof fn lemma_unsigned_hours(name: Seq<u8>, h: nat, t: int)
    requires
        zone_letters(name),
        h <= 24,
    ensures
        crate::posix_tz::readable(name + digits(h)),
        tz_string(name + digits(h)).tz.offset(t) == -(h * 3600),
{
    let d = digits(h);
    let none = Seq::<u8>::empty();
    lemma_digits(h);
    let s = name + d;
    lemma_piece(none, name, d);
    assert(none + name + d =~= s);
    assert(s[name.len() as int] == d[0]);
    lemma_name(s, 0, name);
    lemma_piece(name, d, none);
    assert(name + d + none =~= s);
    lemma_one_number(s, name.len() as int, h, COLON);
}

#[verifier::spinoff_prover]
#[verifier::rlimit(60)]
proof fn lemma_signed_hours(name: Seq<u8>, h: nat, t: int)
    requires
        zone_letters(name),
        h <= 24,
    ensures
        tz_string(name + seq![0x2du8] + digits(h)).tz.offset(t) == h * 3600,
{
    let d = digits(h);
    let none = Seq::<u8>::empty();
    lemma_digits(h);
    let u = name + seq![0x2du8] + d;
    lemma_piece(none, name, seq![0x2du8] + d);
    assert(none + name + (seq![0x2du8] + d) =~= u);
    assert(u[name.len() as int] == 0x2d);
    lemma_name(u, 0, name);
    lemma_piece(name + seq![0x2du8], d, none);
    assert(name + seq![0x2du8] + d + none =~= u);
    lemma_one_number(u, name.len() as int + 1, h, COLON);
}

/// A daylight zone without an offset of its own is an hour ahead of the standard
/// one.
pub proof fn law_daylight_hour(s: Seq<u8>, p: int, standard: i32)
    requires
        0 <= p <= s.len(),
        byte_at(s, p) == 0x2c || byte_at(s, p) == 0,
        standard <= 100000,
    ensures
        offset_of(s, p, Some(standard)) == Some(((standard + 3600) as i32, p)),
{
    lemma_run(s, p, Class::Space, p);
    lemma_run(s, p, Class::Digit, p);
    assert(short_at(s, p) is None);
}

// ---------------------------------------------------------------------------
// Rules
// ---------------------------------------------------------------------------

/// The text of a rule for the `n`-th day of the week `d` in month `m`.
pub open spec fn month_rule(m: nat, n: nat, d: nat) -> Seq<u8> {
    seq![0x4du8] + three(m, n, d, 0x2e)
}

proof fn lemma_month_rule(
    s: Seq<u8>,
    p: int,
    m: nat,
    n: nat,
    d: nat,
    daylight: bool,
    offset: i32,
)
    requires
        piece_at(s, p, seq![COMMA] + month_rule(m, n, d)),
        1 <= m <= 12,
        1 <= n <= 5,
        d <= 6,
        ({
            let c = byte_at(s, p + 1 + month_rule(m, n, d).len());
            c == 0 || c == COMMA
        }),
    ensures
        rule_of(s, p, daylight, Rule::blank(offset)) == (
            Rule {
                kind: RuleKind::M,
                m: m as u16,
                n: n as u16,
                d: d as u16,
                secs: 7200,
                offset,
            },
            Some(p + 1 + month_rule(m, n, d).len()),
        ),
{
    let x = seq![COMMA] + month_rule(m, n, d);
    let y = three(m, n, d, DOT);
    lemma_piece_byte(s, p, x, 0);
    lemma_piece_byte(s, p, x, 1);
    assert(x[1] == 0x4d);
    let q = p + 2;
    assert(s.subrange(q, q + y.len()) =~= y) by {
        assert forall|i: int| 0 <= i < y.len() implies s[q + i] == y[i] by {
            lemma_piece_byte(s, p, x, i + 2);
            assert(x[i + 2] == y[i]);
        }
    }
    lemma_three(s, q, m, n, d, DOT);
}

/// A string with two names, an offset in hours and two rules says when daylight
/// saving time begins and ends: on the days that the rules name, at two in the
/// morning, and it is an hour ahead of standard time.
pub proof fn law_written_rules(
    standard: Seq<u8>,
    h: nat,
    daylight: Seq<u8>,
    a: (nat, nat, nat),
    b: (nat, nat, nat),
)
    requires
        zone_letters(standard),
        zone_letters(daylight),
        h <= 24,
        1 <= a.0 <= 12,
        1 <= a.1 <= 5,
        a.2 <= 6,
        1 <= b.0 <= 12,
        1 <= b.1 <= 5,
        b.2 <= 6,
    ensures
        ({
            let s = standard + digits(h) + daylight + (seq![0x2cu8] + month_rule(a.0, a.1, a.2)) + (
            seq![0x2cu8] + month_rule(b.0, b.1, b.2));
            let tz = tz_string(s).tz;
            &&& tz.standard == (Rule {
                kind: RuleKind::M,
                m: a.0 as u16,
                n: a.1 as u16,
                d: a.2 as u16,
                secs: 7200,
                offset: (-(h * 3600)) as i32,
            })
            &&& tz.daylight == (Rule {
                kind: RuleKind::M,
                m: b.0 as u16,
                n: b.1 as u16,
                d: b.2 as u16,
                secs: 7200,
                offset: (3600 - h * 3600) as i32,
            })
            &&& tz_string(s).ruleless is None
        }),
{
    let x = seq![COMMA] + month_rule(a.0, a.1, a.2);
    let y = seq![COMMA] + month_rule(b.0, b.1, b.2);
    let d = digits(h);
    let s = standard + d + daylight + x + y;
    lemma_digits(h);
    assert(0x41 <= daylight[0] <= 0x5a || 0x61 <= daylight[0] <= 0x7a);
    lemma_five_pieces(standard, d, daylight, x, y);
    lemma_rules(s, standard, h, daylight, x, y, a, b);
}

proof fn lemma_five_pieces(a: Seq<u8>, b: Seq<u8>, c: Seq<u8>, d: Seq<u8>, e: Seq<u8>)
    requires
        b.len() > 0,
        c.len() > 0,
        d.len() > 1,
        e.len() > 0,
    ensures
        ({
            let s = a + b + c + d + e;
            let q = a.len() as int + b.len();
            let r = q + c.len();
            let t = r + d.len();
            &&& piece_at(s, 0, a)
            &&& piece_at(s, a.len() as int, b)
            &&& piece_at(s, q, c)
            &&& piece_at(s, r, d)
            &&& piece_at(s, t, e)
            &&& s.len() == t + e.len()
            &&& byte_at(s, a.len() as int) == b[0]
            &&& byte_at(s, q) == c[0]
            &&& byte_at(s, r) == d[0]
            &&& byte_at(s, r + 1) == d[1]
            &&& byte_at(s, t) == e[0]
        }),
{
    let s = a + b + c + d + e;
    let q = a.len() as int + b.len();
    let r = q + c.len();
    let t = r + d.len();
    assert(s.subrange(0, a.len() as int) =~= a);
    assert(s.subrange(a.len() as int, q) =~= b);
    assert(s.subrange(q, r) =~= c);
    assert(s.subrange(r, t) =~= d);
    assert(s.subrange(t, t + e.len()) =~= e);
}

#[verifier::spinoff_prover]
#[verifier::rlimit(60)]
proof fn lemma_rules(
    s: Seq<u8>,
    standard: Seq<u8>,
    h: nat,
    daylight: Seq<u8>,
    x: Seq<u8>,
    y: Seq<u8>,
    a: (nat, nat, nat),
    b: (nat, nat, nat),
)
    requires
        zone_letters(standard),
        zone_letters(daylight),
        h <= 24,
        1 <= a.0 <= 12,
        1 <= a.1 <= 5,
        a.2 <= 6,
        1 <= b.0 <= 12,
        1 <= b.1 <= 5,
        b.2 <= 6,
        x == seq![COMMA] + month_rule(a.0, a.1, a.2),
        y == seq![COMMA] + month_rule(b.0, b.1, b.2),
        ({
            let p = standard.len() as int;
            let q = p + digits(h).len();
            let e = q + daylight.len();
            let f = e + x.len();
            &&& piece_at(s, 0, standard)
            &&& piece_at(s, p, digits(h))
            &&& piece_at(s, q, daylight)
            &&& piece_at(s, e, x)
            &&& piece_at(s, f, y)
            &&& s.len() == f + y.len()
            &&& Class::Digit.has(byte_at(s, p))
            &&& Class::Letter.has(byte_at(s, q))
            &&& byte_at(s, e) == COMMA
            &&& byte_at(s, e + 1) == 0x4d
            &&& byte_at(s, f) == COMMA
        }),
    ensures
        tz_string(s).tz.standard == (Rule {
            kind: RuleKind::M,
            m: a.0 as u16,
            n: a.1 as u16,
            d: a.2 as u16,
            secs: 7200,
            offset: (-(h * 3600)) as i32,
        }),
        tz_string(s).tz.daylight == (Rule {
            kind: RuleKind::M,
            m: b.0 as u16,
            n: b.1 as u16,
            d: b.2 as u16,
            secs: 7200,
            offset: (3600 - h * 3600) as i32,
        }),
        tz_string(s).ruleless is None,
{
    let p = standard.len() as int;
    let q = p + digits(h).len();
    let e = q + daylight.len();
    let f = e + x.len();
    let offset = (-(h * 3600)) as i32;
    assert(x.len() == 1 + month_rule(a.0, a.1, a.2).len());
    assert(y.len() == 1 + month_rule(b.0, b.1, b.2).len());
    assert(name_end(s, 0) == Some(p)) by {
        lemma_name(s, 0, standard);
    }
    assert(offset_of(s, p, None) == Some((offset, q))) by {
        lemma_one_number(s, p, h, COLON);
    }
    assert(name_end(s, q) == Some(e)) by {
        lemma_name(s, q, daylight);
    }
    law_daylight_hour(s, e, offset);
    lemma_month_rule(s, e, a.0, a.1, a.2, false, offset);
    lemma_month_rule(s, f, b.0, b.1, b.2, true, (3600 - h * 3600) as i32);
}

// ---------------------------------------------------------------------------
// Seasons
// ---------------------------------------------------------------------------

/// Daylight saving time applies from its beginning to its end within a year; where
/// it ends before it begins, as in the south, it applies outside of that span. The
/// moments are those of the year, in UTC, that the time lies in.
pub proof fn law_seasons(z: crate::posix_tz::PosixTz, year: int, t: int)
    requires
        crate::posix_tz::year_second(year) <= t < crate::posix_tz::year_second(year + 1),
    ensures
        ({
            let start = crate::posix_tz::change(z.standard, year);
            let end = crate::posix_tz::change(z.daylight, year);
            &&& start <= end && start <= t < end ==> z.offset(t) == z.daylight.offset
            &&& start <= end && !(start <= t < end) ==> z.offset(t) == z.standard.offset
            &&& end < start && end <= t < start ==> z.offset(t) == z.standard.offset
            &&& end < start && !(end <= t < start) ==> z.offset(t) == z.daylight.offset
        }),
{
    crate::posix_tz::lemma_year_of(t, year);
}

/// A plain number counts the days of the year from 0, leap days included.
pub proof fn law_plain_day_rule(rule: Rule, year: int)
    requires
        rule.kind == RuleKind::J0,
        year >= 1970,
    ensures
        crate::posix_tz::change(rule, year) == (crate::calendar::epoch_day(year, 1, 1) + rule.d)
            * 86400 - rule.offset + rule.secs,
{
    reveal_with_fuel(crate::calendar::days_before_month, 2);
}

/// A name may be quoted: three or more letters, digits and signs between angle
/// brackets, which is how zones without a name of letters are written.
pub proof fn law_quoted_names(inner: Seq<u8>, h: nat, t: int)
    requires
        inner.len() >= 3,
        forall|i: int|
            0 <= i < inner.len() ==> 0x41 <= #[trigger] inner[i] <= 0x5a || 0x61 <= inner[i] <= 0x7a
                || 0x30 <= inner[i] <= 0x39 || inner[i] == 0x2b || inner[i] == 0x2d,
        h <= 24,
    ensures
        ({
            let s = seq![0x3cu8] + inner + seq![0x3eu8] + digits(h);
            &&& crate::posix_tz::readable(s)
            &&& tz_string(s).tz.offset(t) == -(h * 3600)
        }),
{
    let d = digits(h);
    let s = seq![0x3cu8] + inner + seq![0x3eu8] + d;
    let e = 1 + inner.len() as int;
    lemma_digits(h);
    assert(s[0] == 0x3c);
    assert(s[e] == 0x3e);
    lemma_run(s, 0, Class::Letter, 0);
    assert forall|i: int| 1 <= i < e implies Class::Quoted.has(#[trigger] s[i]) by {
        assert(s[i] == inner[i - 1]);
    }
    lemma_run(s, 1, Class::Quoted, e);
    assert(name_end(s, 0) == Some(e + 1));
    let none = Seq::<u8>::empty();
    lemma_piece(seq![0x3cu8] + inner + seq![0x3eu8], d, none);
    assert(seq![0x3cu8] + inner + seq![0x3eu8] + d + none =~= s);
    assert(s[e + 1] == d[0]);
    lemma_one_number(s, e + 1, h, COLON);
}

/// What begins with fewer than three letters and no angle bracket is no zone.
pub proof fn law_short_names(s: Seq<u8>, n: int)
    requires
        0 <= n < 3,
        n <= s.len(),
        n < s.len() ==> !(0x41 <= s[n] <= 0x5a || 0x61 <= s[n] <= 0x7a),
        forall|i: int| 0 <= i < n ==> 0x41 <= #[trigger] s[i] <= 0x5a || 0x61 <= s[i] <= 0x7a,
        s.len() > 0 ==> s[0] != 0x3c,
    ensures
        !crate::posix_tz::readable(s),
{
    lemma_run(s, 0, Class::Letter, n);
}

/// A daylight zone without rules asks for the default ones, and says which two
/// offsets to use; without such a file the rules are those of North America.
pub proof fn law_daylight_without_rules(standard: Seq<u8>, h: nat, daylight: Seq<u8>)
    requires
        zone_letters(standard),
        zone_letters(daylight),
        h <= 24,
    ensures
        ({
            let s = standard + digits(h) + daylight;
            let z = tz_string(s);
            &&& z.ruleless == Some(((-(h * 3600)) as i32, (3600 - h * 3600) as i32))
            &&& z.tz.standard == (Rule {
                kind: RuleKind::M,
                m: 3,
                n: 2,
                d: 0,
                secs: 7200,
                offset: (-(h * 3600)) as i32,
            })
            &&& z.tz.daylight == (Rule {
                kind: RuleKind::M,
                m: 11,
                n: 1,
                d: 0,
                secs: 7200,
                offset: (3600 - h * 3600) as i32,
            })
        }),
{
    let d = digits(h);
    let s = standard + d + daylight;
    let p = standard.len() as int;
    let q = p + d.len();
    let e = q + daylight.len();
    let offset = (-(h * 3600)) as i32;
    lemma_digits(h);
    assert(0x41 <= daylight[0] <= 0x5a || 0x61 <= daylight[0] <= 0x7a);
    assert(s.subrange(0, p) =~= standard);
    assert(s.subrange(p, q) =~= d);
    assert(s.subrange(q, e) =~= daylight);
    assert(s[p] == d[0]);
    assert(s[q] == daylight[0]);
    assert(name_end(s, 0) == Some(p)) by {
        lemma_name(s, 0, standard);
    }
    assert(offset_of(s, p, None) == Some((offset, q))) by {
        lemma_one_number(s, p, h, COLON);
    }
    assert(name_end(s, q) == Some(e)) by {
        lemma_name(s, q, daylight);
    }
    law_daylight_hour(s, e, offset);
}

/// A rule `Jn` names a day of the year that counts from 1, leap days left out. The
/// change is at two in the morning.
pub proof fn law_written_julian_rules(s: Seq<u8>, p: int, n: nat, daylight: bool, offset: i32)
    requires
        1 <= n <= 365,
        piece_at(s, p, seq![0x2cu8, 0x4au8] + digits(n)),
        byte_at(s, p + 2 + digits(n).len()) == 0 || byte_at(s, p + 2 + digits(n).len()) == 0x2c,
    ensures
        rule_of(s, p, daylight, Rule::blank(offset)) == (
            Rule { kind: RuleKind::J1, m: 0, n: 0, d: n as u16, secs: 7200, offset },
            Some(p + 2 + digits(n).len()),
        ),
{
    let x = seq![0x2cu8, 0x4au8] + digits(n);
    assert(x.skip(2) =~= digits(n));
    lemma_piece_byte(s, p, x, 0);
    lemma_piece_byte(s, p, x, 1);
    lemma_day_number(s, p + 2, x, p, 2, n);
}

/// A rule `n` names a day of the year that counts from 0.
pub proof fn law_written_day_rules(s: Seq<u8>, p: int, n: nat, daylight: bool, offset: i32)
    requires
        n <= 365,
        piece_at(s, p, seq![0x2cu8] + digits(n)),
        byte_at(s, p + 1 + digits(n).len()) == 0 || byte_at(s, p + 1 + digits(n).len()) == 0x2c,
    ensures
        rule_of(s, p, daylight, Rule::blank(offset)) == (
            Rule { kind: RuleKind::J0, m: 0, n: 0, d: n as u16, secs: 7200, offset },
            Some(p + 1 + digits(n).len()),
        ),
{
    let x = seq![0x2cu8] + digits(n);
    lemma_digits(n);
    assert(x.skip(1) =~= digits(n));
    lemma_piece_byte(s, p, x, 0);
    lemma_piece_byte(s, p, x, 1);
    assert(x[1] == digits(n)[0]);
    lemma_day_number(s, p + 1, x, p, 1, n);
}

/// A day of the year must lie in the year, counted from 1 behind a `J` and from 0
/// otherwise. A first rule that does not is the last one that is read.
pub proof fn law_bad_day_rules(s: Seq<u8>, p: int, n: nat, standard: i32, daylight: i32)
    requires
        ({
            let e = p + 2 + digits(n).len();
            &&& n == 0 || n > 365
            &&& piece_at(s, p, seq![0x2cu8, 0x4au8] + digits(n))
            &&& byte_at(s, e) == 0 || byte_at(s, e) == 0x2c
        }) || ({
            let e = p + 1 + digits(n).len();
            &&& n > 365
            &&& piece_at(s, p, seq![0x2cu8] + digits(n))
            &&& byte_at(s, e) == 0 || byte_at(s, e) == 0x2c
        }),
    ensures
        rule_of(s, p, false, Rule::blank(standard)).1 is None,
        rule_of(s, p, true, Rule::blank(daylight)).1 is None,
        crate::posix_tz::rules_of(s, p, standard, daylight).daylight == Rule::blank(daylight),
{
    let d = digits(n);
    let x = seq![0x2cu8, 0x4au8] + d;
    let y = seq![0x2cu8] + d;
    lemma_digits(n);
    if piece_at(s, p, x) {
        assert(x.skip(2) =~= d);
        lemma_piece_byte(s, p, x, 0);
        lemma_piece_byte(s, p, x, 1);
        if piece_at(s, p, y) {
            lemma_piece_byte(s, p, y, 1);
            assert(y[1] == d[0]);
        }
        lemma_day_number(s, p + 2, x, p, 2, n);
    } else {
        assert(y.skip(1) =~= d);
        lemma_piece_byte(s, p, y, 0);
        lemma_piece_byte(s, p, y, 1);
        assert(y[1] == d[0]);
        lemma_day_number(s, p + 1, y, p, 1, n);
    }
}

/// A rule for a day of the week must name a month from 1 to 12, a week from 1 to 5
/// and a day from 0 to 6. A first rule that does not is the last one that is read.
pub proof fn law_bad_month_rules(
    s: Seq<u8>,
    p: int,
    m: nat,
    n: nat,
    d: nat,
    standard: i32,
    daylight: i32,
)
    requires
        piece_at(s, p, seq![0x2cu8] + month_rule(m, n, d)),
        ({
            let c = byte_at(s, p + 1 + month_rule(m, n, d).len());
            c == 0 || c == 0x2c
        }),
        m <= 0xffff,
        n <= 0xffff,
        d <= 0xffff,
        m == 0 || m > 12 || n == 0 || n > 5 || d > 6,
    ensures
        rule_of(s, p, false, Rule::blank(standard)).1 is None,
        rule_of(s, p, true, Rule::blank(daylight)).1 is None,
        crate::posix_tz::rules_of(s, p, standard, daylight).daylight == Rule::blank(daylight),
{
    let x = seq![COMMA] + month_rule(m, n, d);
    let y = three(m, n, d, DOT);
    lemma_piece_byte(s, p, x, 0);
    lemma_piece_byte(s, p, x, 1);
    assert(x[1] == 0x4d);
    let q = p + 2;
    assert(s.subrange(q, q + y.len()) =~= y) by {
        assert forall|i: int| 0 <= i < y.len() implies s[q + i] == y[i] by {
            lemma_piece_byte(s, p, x, i + 2);
            assert(x[i + 2] == y[i]);
        }
    }
    lemma_three(s, q, m, n, d, DOT);
}

/// A rule may say at which time of the day its change is, before or after
/// midnight.
pub proof fn law_written_times(
    s: Seq<u8>,
    p: int,
    negative: bool,
    h: nat,
    m: nat,
    sec: nat,
    rule: Rule,
)
    requires
        h <= 167,
        m <= 59,
        sec <= 59,
        ({
            let sign = if negative {
                seq![0x2fu8, 0x2du8]
            } else {
                seq![0x2fu8]
            };
            let x = sign + three(h, m, sec, 0x3a);
            &&& piece_at(s, p, x)
            &&& byte_at(s, p + x.len()) == 0 || byte_at(s, p + x.len()) == 0x2c
        }),
    ensures
        ({
            let secs = h * 3600 + m * 60 + sec;
            crate::posix_tz::rule_time(s, p, rule).0 == (Rule {
                secs: (if negative {
                    -secs
                } else {
                    secs as int
                }) as i32,
                ..rule
            })
        }),
{
    let sign = if negative {
        seq![0x2fu8, 0x2du8]
    } else {
        seq![0x2fu8]
    };
    let y = three(h, m, sec, COLON);
    let x = sign + y;
    lemma_digits(h);
    let q = p + sign.len();
    lemma_piece_byte(s, p, x, 0);
    assert(x[0] == 0x2f);
    assert forall|i: int| 0 <= i < y.len() implies s[q + i] == y[i] by {
        lemma_piece_byte(s, p, x, sign.len() + i);
        assert(x[sign.len() + i] == y[i]);
    }
    assert(s.subrange(q, q + y.len()) =~= y);
    assert(y[0] == digits(h)[0]);
    assert(s[q] == y[0]);
    if negative {
        lemma_piece_byte(s, p, x, 1);
        assert(x[1] == 0x2d);
    }
    lemma_three(s, q, h, m, sec, COLON);
}

proof fn lemma_day_number(s: Seq<u8>, q: int, x: Seq<u8>, p: int, k: int, n: nat)
    requires
        piece_at(s, p, x),
        q == p + k,
        0 <= k,
        x.len() == k + digits(n).len(),
        x.skip(k) == digits(n),
        byte_at(s, q + digits(n).len()) == 0 || byte_at(s, q + digits(n).len()) == 0x2c,
    ensures
        run_end(s, q, Class::Digit) == q + digits(n).len(),
        digits_value(s, q, q + digits(n).len()) == n,
        digits(n).len() > 0,
{
    let d = digits(n);
    lemma_digits(n);
    assert forall|i: int| 0 <= i < d.len() implies s[q + i] == d[i] by {
        lemma_piece_byte(s, p, x, k + i);
        assert(x.skip(k)[i] == x[k + i]);
    }
    assert(s.subrange(q, q + d.len()) =~= d);
    lemma_digits_value(s, q, n);
    assert forall|i: int| q <= i < q + d.len() implies Class::Digit.has(#[trigger] s[i]) by {
        assert(s[q + (i - q)] == d[i - q]);
    }
    lemma_run(s, q, Class::Digit, q + d.len());
}

} // verus!
