//! Compiled time-zone files (TZif), read and applied the way glibc does.

use vstd::prelude::*;

use crate::posix_tz::{parse_tz_string, PosixTz};

verus! {

// ---------------------------------------------------------------------------
// Big-endian numbers
// ---------------------------------------------------------------------------

/// The big-endian number in the `n` bytes from `p` on.
pub open spec fn unsigned_at(b: Seq<u8>, p: int, n: nat) -> int
    decreases n,
{
    if n == 0 {
        0
    } else {
        unsigned_at(b, p, (n - 1) as nat) * 256 + b[p + n - 1]
    }
}

/// The same in two's complement, for 4 and 8 bytes.
pub open spec fn signed_at(b: Seq<u8>, p: int, n: nat) -> int {
    let u = unsigned_at(b, p, n);
    if n == 4 {
        if u >= 0x8000_0000 {
            u - 0x1_0000_0000
        } else {
            u
        }
    } else {
        if u >= 0x8000_0000_0000_0000 {
            u - 0x1_0000_0000_0000_0000
        } else {
            u
        }
    }
}

fn int32(b: &[u8], p: usize) -> (r: i32)
    requires
        p + 4 <= b@.len(),
    ensures
        r == signed_at(b@, p as int, 4),
{
    reveal_with_fuel(unsigned_at, 5);
    let u: u64 = ((b[p] as u64 * 256 + b[p + 1] as u64) * 256 + b[p + 2] as u64) * 256 + b[p
        + 3] as u64;
    assert(u == unsigned_at(b@, p as int, 4));
    if u >= 0x8000_0000 {
        (u as i64 - 0x1_0000_0000) as i32
    } else {
        u as i32
    }
}

fn int64(b: &[u8], p: usize) -> (r: i64)
    requires
        p + 8 <= b@.len(),
    ensures
        r == signed_at(b@, p as int, 8),
{
    let n: usize = b.len();
    let mut u: u64 = 0;
    let mut k: usize = 0;
    assert(unsigned_at(b@, p as int, 0) == 0);
    while k < 8
        invariant
            k <= 8,
            p + 8 <= n == b@.len(),
            u == unsigned_at(b@, p as int, k as nat),
            k == 0 ==> u == 0,
            k == 1 ==> u < 0x100,
            k == 2 ==> u < 0x1_0000,
            k == 3 ==> u < 0x100_0000,
            k == 4 ==> u < 0x1_0000_0000,
            k == 5 ==> u < 0x100_0000_0000,
            k == 6 ==> u < 0x1_0000_0000_0000,
            k == 7 ==> u < 0x100_0000_0000_0000,
        decreases 8 - k,
    {
        u = u * 256 + b[p + k] as u64;
        k += 1;
    }
    if u >= 0x8000_0000_0000_0000 {
        -((0xffff_ffff_ffff_ffff - u) as i64) - 1
    } else {
        u as i64
    }
}

/// A number of 4 or 8 bytes.
fn int_of(b: &[u8], p: usize, width: usize) -> (r: i64)
    requires
        width == 4 || width == 8,
        p + width <= b@.len(),
    ensures
        r == signed_at(b@, p as int, width as nat),
{
    if width == 4 {
        int32(b, p) as i64
    } else {
        int64(b, p)
    }
}

// ---------------------------------------------------------------------------
// Headers
// ---------------------------------------------------------------------------

#[derive(Debug, Clone, Copy, PartialEq, Eq, Structural)]
pub struct Header {
    pub version: u8,
    pub isutcnt: u32,
    pub isstdcnt: u32,
    pub leapcnt: u32,
    pub timecnt: u32,
    pub typecnt: u32,
    pub charcnt: u32,
}

/// The `i`-th count of the header at `pos`.
pub open spec fn count_at(b: Seq<u8>, pos: int, i: int) -> int {
    signed_at(b, pos + 20 + 4 * i, 4)
}

/// The header at `pos`: the magic, a version, and six counts, none of them
/// negative, with no more indicators than types.
pub open spec fn header_at(b: Seq<u8>, pos: int) -> Option<Header> {
    if 0 <= pos && pos + 44 <= b.len() && b[pos] == 0x54 && b[pos + 1] == 0x5a && b[pos + 2] == 0x69
        && b[pos + 3] == 0x66 && (forall|i: int| 0 <= i < 6 ==> #[trigger] count_at(b, pos, i) >= 0)
        && count_at(b, pos, 1) <= count_at(b, pos, 4) && count_at(b, pos, 0) <= count_at(b, pos, 4) {
        Some(
            Header {
                version: b[pos + 4],
                isutcnt: count_at(b, pos, 0) as u32,
                isstdcnt: count_at(b, pos, 1) as u32,
                leapcnt: count_at(b, pos, 2) as u32,
                timecnt: count_at(b, pos, 3) as u32,
                typecnt: count_at(b, pos, 4) as u32,
                charcnt: count_at(b, pos, 5) as u32,
            },
        )
    } else {
        None
    }
}

pub fn read_header(b: &[u8], pos: usize) -> (r: Option<Header>)
    ensures
        r == header_at(b@, pos as int),
        r matches Some(h) ==> {
            &&& pos + 44 <= b@.len()
            &&& h.isutcnt <= h.typecnt
            &&& h.isstdcnt <= h.typecnt
            &&& h.leapcnt <= 0x7fff_ffff
            &&& h.timecnt <= 0x7fff_ffff
            &&& h.typecnt <= 0x7fff_ffff
            &&& h.charcnt <= 0x7fff_ffff
        },
{
    if b.len() < 44 || pos > b.len() - 44 {
        return None;
    }
    if b[pos] != 0x54 || b[pos + 1] != 0x5a || b[pos + 2] != 0x69 || b[pos + 3] != 0x66 {
        return None;
    }
    let isut = int32(b, pos + 20);
    let isstd = int32(b, pos + 24);
    let leap = int32(b, pos + 28);
    let time = int32(b, pos + 32);
    let typ = int32(b, pos + 36);
    let chars = int32(b, pos + 40);
    assert(isut == count_at(b@, pos as int, 0));
    assert(isstd == count_at(b@, pos as int, 1));
    assert(leap == count_at(b@, pos as int, 2));
    assert(time == count_at(b@, pos as int, 3));
    assert(typ == count_at(b@, pos as int, 4));
    assert(chars == count_at(b@, pos as int, 5));
    if isut < 0 || isstd < 0 || leap < 0 || time < 0 || typ < 0 || chars < 0 {
        return None;
    }
    if isstd > typ || isut > typ {
        return None;
    }
    Some(
        Header {
            version: b[pos + 4],
            isutcnt: isut as u32,
            isstdcnt: isstd as u32,
            leapcnt: leap as u32,
            timecnt: time as u32,
            typecnt: typ as u32,
            charcnt: chars as u32,
        },
    )
}

impl Header {
    /// Bytes the data block following the header occupies, not counting the
    /// footer, with transition times of `width` bytes.
    pub open spec fn block_len(self, width: int) -> int {
        self.timecnt * (width + 1) + self.typecnt * 6 + self.charcnt + self.leapcnt * (width + 4)
            + self.isstdcnt + self.isutcnt
    }
}

pub fn data_block_len(h: &Header, width: usize) -> (r: u64)
    requires
        width == 4 || width == 8,
    ensures
        r == h.block_len(width as int),
        r <= 0x40_0000_0000,
{
    if width == 4 {
        h.timecnt as u64 * 5 + h.typecnt as u64 * 6 + h.charcnt as u64 + h.leapcnt as u64 * 8
            + h.isstdcnt as u64 + h.isutcnt as u64
    } else {
        h.timecnt as u64 * 9 + h.typecnt as u64 * 6 + h.charcnt as u64 + h.leapcnt as u64 * 12
            + h.isstdcnt as u64 + h.isutcnt as u64
    }
}

// ---------------------------------------------------------------------------
// Contents
// ---------------------------------------------------------------------------

/// A local time type.
#[derive(Debug, Clone, Copy, PartialEq, Eq, Structural)]
pub struct TType {
    pub offset: i32,
    pub isdst: bool,
}

#[derive(Debug, Clone, Copy, PartialEq, Eq, Structural)]
pub struct Leap {
    pub transition: i64,
    pub change: i64,
}

/// The rules a zone file holds.
#[derive(Debug, PartialEq, Eq)]
pub struct TzFile {
    pub transitions: Vec<i64>,
    pub type_idxs: Vec<u8>,
    pub types: Vec<TType>,
    pub leaps: Vec<Leap>,
    pub footer: Option<PosixTz>,
}

#[verifier::ext_equal]
pub struct TzModel {
    pub transitions: Seq<i64>,
    pub type_idxs: Seq<u8>,
    pub types: Seq<TType>,
    pub leaps: Seq<Leap>,
    pub footer: Option<PosixTz>,
}

impl TzModel {
    /// There is a type, and every transition leads to one.
    pub open spec fn wf(self) -> bool {
        &&& self.types.len() > 0
        &&& self.type_idxs.len() == self.transitions.len()
        &&& forall|i: int|
            0 <= i < self.type_idxs.len() ==> (#[trigger] self.type_idxs[i]) < self.types.len()
    }
}

impl View for TzFile {
    type V = TzModel;

    open spec fn view(&self) -> TzModel {
        TzModel {
            transitions: self.transitions@,
            type_idxs: self.type_idxs@,
            types: self.types@,
            leaps: self.leaps@,
            footer: self.footer,
        }
    }
}

/// A zone file plus the indicators, per type, that only matter when it serves
/// as `posixrules`.
#[derive(Debug)]
pub struct RawTzif {
    pub file: TzFile,
    pub isstd: Vec<bool>,
    pub isgmt: Vec<bool>,
}

#[verifier::ext_equal]
pub struct RawModel {
    pub file: TzModel,
    pub isstd: Seq<bool>,
    pub isgmt: Seq<bool>,
}

impl RawModel {
    pub open spec fn wf(self) -> bool {
        &&& self.file.wf()
        &&& self.isstd.len() == self.file.types.len()
        &&& self.isgmt.len() == self.file.types.len()
    }
}

impl View for RawTzif {
    type V = RawModel;

    open spec fn view(&self) -> RawModel {
        RawModel { file: self.file@, isstd: self.isstd@, isgmt: self.isgmt@ }
    }
}

/// Where the parts of a data block begin.
pub struct Layout {
    pub times: int,
    pub idxs: int,
    pub types: int,
    pub leaps: int,
    pub stds: int,
    pub uts: int,
    pub end: int,
}

pub open spec fn layout(h: Header, pos: int, width: int) -> Layout {
    let idxs = pos + h.timecnt * width;
    let types = idxs + h.timecnt;
    let leaps = types + h.typecnt * 6 + h.charcnt;
    let stds = leaps + h.leapcnt * (width + 4);
    let uts = stds + h.isstdcnt;
    Layout { times: pos, idxs, types, leaps, stds, uts, end: uts + h.isutcnt }
}

/// The bytes up to the first NUL.
pub open spec fn until_nul(s: Seq<u8>) -> Seq<u8>
    decreases s.len(),
{
    if s.len() == 0 || s[0] == 0 {
        seq![]
    } else {
        seq![s[0]] + until_nul(s.skip(1))
    }
}

/// The footer of a file whose data block ends at `end`: a newline, a `TZ`
/// string, and one more byte.
pub open spec fn footer_at(b: Seq<u8>, end: int) -> Option<PosixTz> {
    let spec_text = until_nul(b.subrange(end + 1, b.len() - 1));
    if b[end] == 0x0a && spec_text.len() > 0 {
        Some(crate::posix_tz::tz_string(spec_text).tz)
    } else {
        None
    }
}

/// The contents of the data block at `pos`, with times of `width` bytes.
pub open spec fn block_at(b: Seq<u8>, h: Header, pos: int, width: int) -> RawModel {
    let l = layout(h, pos, width);
    RawModel {
        file: TzModel {
            transitions: Seq::new(
                h.timecnt as nat,
                |i: int| signed_at(b, l.times + i * width, width as nat) as i64,
            ),
            type_idxs: Seq::new(h.timecnt as nat, |i: int| b[l.idxs + i]),
            types: Seq::new(
                h.typecnt as nat,
                |i: int|
                    TType {
                        offset: signed_at(b, l.types + i * 6, 4) as i32,
                        isdst: b[l.types + i * 6 + 4] == 1,
                    },
            ),
            leaps: Seq::new(
                h.leapcnt as nat,
                |i: int|
                    Leap {
                        transition: signed_at(
                            b,
                            l.leaps + i * (width + 4),
                            width as nat,
                        ) as i64,
                        change: signed_at(b, l.leaps + i * (width + 4) + width, 4) as i64,
                    },
            ),
            footer: if width == 8 {
                footer_at(b, l.end)
            } else {
                None
            },
        },
        isstd: Seq::new(h.typecnt as nat, |i: int| i < h.isstdcnt && b[l.stds + i] != 0),
        isgmt: Seq::new(h.typecnt as nat, |i: int| i < h.isutcnt && b[l.uts + i] != 0),
    }
}

/// Does the `i`-th type have a valid flag and abbreviation?
pub open spec fn type_ok(b: Seq<u8>, from: int, charcnt: u32, i: int) -> bool {
    b[from + i * 6 + 4] <= 1 && b[from + i * 6 + 5] <= charcnt
}

/// Is the data block whole and consistent? A file with 8-byte times also
/// needs room for a footer of at least two bytes.
pub open spec fn block_ok(b: Seq<u8>, h: Header, pos: int, width: int) -> bool {
    let l = layout(h, pos, width);
    &&& h.typecnt > 0
    &&& l.end + (if width == 8 {
        2int
    } else {
        0
    }) <= b.len()
    &&& forall|i: int| 0 <= i < h.timecnt ==> (#[trigger] b[l.idxs + i]) < h.typecnt
    &&& forall|i: int| 0 <= i < h.typecnt ==> #[trigger] type_ok(b, l.types, h.charcnt, i)
}

/// The position, time width and header of the data block that counts: the
/// second one unless the version is 0.
pub open spec fn main_block(b: Seq<u8>) -> Option<(Header, int, int)> {
    match header_at(b, 0) {
        None => None,
        Some(first) => if first.version == 0 {
            Some((first, 44, 4))
        } else {
            let second = first.block_len(4) + 44;
            match header_at(b, second) {
                None => None,
                Some(h) => Some((h, second + 44, 8)),
            }
        },
    }
}

/// What a zone file with the given bytes holds.
pub open spec fn tzif(b: Seq<u8>) -> Option<RawModel> {
    match main_block(b) {
        None => None,
        Some((h, pos, width)) => if block_ok(b, h, pos, width) {
            Some(block_at(b, h, pos, width))
        } else {
            None
        },
    }
}

pub proof fn lemma_tzif_wf(b: Seq<u8>)
    ensures
        tzif(b) matches Some(raw) ==> raw.wf(),
{
    if let Some((h, pos, width)) = main_block(b) {
        if block_ok(b, h, pos, width) {
            let l = layout(h, pos, width);
            let raw = block_at(b, h, pos, width);
            assert forall|i: int| 0 <= i < raw.file.type_idxs.len() implies (
            #[trigger] raw.file.type_idxs[i]) < raw.file.types.len() by {
                assert(b[l.idxs + i] < h.typecnt);
            }
        }
    }
}

proof fn lemma_layout(h: Header, pos: int, width: int)
    requires
        width == 4 || width == 8,
    ensures
        ({
            let l = layout(h, pos, width);
            &&& pos <= l.idxs <= l.types <= l.leaps <= l.stds <= l.uts <= l.end
            &&& l.end == pos + h.block_len(width)
            &&& l.types + h.typecnt * 6 <= l.leaps
        }),
{
    if width == 4 {
    } else {
    }
}

pub(crate) fn until_zero(s: &[u8]) -> (r: usize)
    ensures
        r <= s@.len(),
        s@.take(r as int) == until_nul(s@),
{
    let mut n: usize = 0;
    assert(s@.skip(0) =~= s@);
    assert(s@.take(0) + until_nul(s@) =~= until_nul(s@));
    while n < s.len() && s[n] != 0
        invariant
            n <= s@.len(),
            s@.take(n as int) + until_nul(s@.skip(n as int)) == until_nul(s@),
        decreases s@.len() - n,
    {
        proof {
            let rest = s@.skip(n as int);
            assert(rest.skip(1) =~= s@.skip(n + 1));
            assert(s@.take(n + 1) =~= s@.take(n as int) + seq![s@[n as int]]);
            assert(s@.take(n as int) + (seq![rest[0]] + until_nul(rest.skip(1))) =~= (s@.take(
                n as int,
            ) + seq![rest[0]]) + until_nul(rest.skip(1)));
        }
        n += 1;
    }
    assert(s@.take(n as int) + Seq::<u8>::empty() =~= s@.take(n as int));
    n
}

fn read_footer(b: &[u8], end: usize) -> (r: Option<PosixTz>)
    requires
        end + 2 <= b@.len(),
    ensures
        r == footer_at(b@, end as int),
{
    if b[end] != 0x0a {
        return None;
    }
    let text = &b[end + 1..b.len() - 1];
    let n = until_zero(text);
    if n == 0 {
        return None;
    }
    let spec_text = &text[0..n];
    assert(spec_text@ =~= text@.take(n as int));
    Some(parse_tz_string(spec_text).tz)
}

fn read_times(b: &[u8], from: usize, n: usize, width: usize) -> (r: Vec<i64>)
    requires
        width == 4 || width == 8,
        from + n * width <= b@.len(),
    ensures
        r@ == Seq::new(
            n as nat,
            |i: int| signed_at(b@, from + i * width, width as nat) as i64,
        ),
{
    let len: usize = b.len();
    let mut out: Vec<i64> = Vec::new();
    let mut i: usize = 0;
    let mut p: usize = from;
    while i < n
        invariant
            i <= n,
            width == 4 || width == 8,
            from + n * width <= b@.len(),
            len == b@.len(),
            p == from + i * width,
            out@.len() == i,
            forall|j: int|
                0 <= j < i ==> #[trigger] out@[j] == signed_at(
                    b@,
                    from + j * width,
                    width as nat,
                ) as i64,
        decreases n - i,
    {
        assert(p + width <= from + n * width) by (nonlinear_arith)
            requires
                p == from + i * width,
                i < n,
        ;
        assert((i + 1) * width == i * width + width) by (nonlinear_arith);
        out.push(int_of(b, p, width));
        p = p + width;
        i += 1;
    }
    out
}

fn read_types(b: &[u8], from: usize, n: usize, charcnt: u32) -> (r: Option<Vec<TType>>)
    requires
        from + n * 6 <= b@.len(),
    ensures
        match r {
            Some(v) => {
                &&& v@ == Seq::new(
                    n as nat,
                    |i: int|
                        TType {
                            offset: signed_at(b@, from + i * 6, 4) as i32,
                            isdst: b@[from + i * 6 + 4] == 1,
                        },
                )
                &&& forall|i: int| 0 <= i < n ==> #[trigger] type_ok(b@, from as int, charcnt, i)
            },
            None => exists|i: int| 0 <= i < n && !#[trigger] type_ok(b@, from as int, charcnt, i),
        },
{
    let mut out: Vec<TType> = Vec::new();
    let len: usize = b.len();
    let mut i: usize = 0;
    while i < n
        invariant
            i <= n,
            from + n * 6 <= b@.len(),
            len == b@.len(),
            out@.len() == i,
            forall|j: int|
                0 <= j < i ==> #[trigger] out@[j] == (TType {
                    offset: signed_at(b@, from + j * 6, 4) as i32,
                    isdst: b@[from + j * 6 + 4] == 1,
                }),
            forall|j: int| 0 <= j < i ==> #[trigger] type_ok(b@, from as int, charcnt, j),
        decreases n - i,
    {
        let p: usize = from + i * 6;
        let offset = int32(b, p);
        let dst: u8 = b[p + 4];
        if dst > 1 || b[p + 5] as u32 > charcnt {
            assert(!type_ok(b@, from as int, charcnt, i as int));
            return None;
        }
        out.push(TType { offset, isdst: dst == 1 });
        i += 1;
    }
    Some(out)
}

fn read_leaps(b: &[u8], from: usize, n: usize, width: usize) -> (r: Vec<Leap>)
    requires
        width == 4 || width == 8,
        from + n * (width + 4) <= b@.len(),
    ensures
        r@ == Seq::new(
            n as nat,
            |i: int|
                Leap {
                    transition: signed_at(b@, from + i * (width + 4), width as nat) as i64,
                    change: signed_at(b@, from + i * (width + 4) + width, 4) as i64,
                },
        ),
{
    let len: usize = b.len();
    let mut out: Vec<Leap> = Vec::new();
    let mut i: usize = 0;
    let mut p: usize = from;
    while i < n
        invariant
            i <= n,
            width == 4 || width == 8,
            from + n * (width + 4) <= b@.len(),
            len == b@.len(),
            p == from + i * (width + 4),
            out@.len() == i,
            forall|j: int|
                0 <= j < i ==> #[trigger] out@[j] == (Leap {
                    transition: signed_at(b@, from + j * (width + 4), width as nat) as i64,
                    change: signed_at(b@, from + j * (width + 4) + width, 4) as i64,
                }),
        decreases n - i,
    {
        assert(p + width + 4 <= from + n * (width + 4)) by (nonlinear_arith)
            requires
                p == from + i * (width + 4),
                i < n,
        ;
        assert((i + 1) * (width + 4) == i * (width + 4) + width + 4) by (nonlinear_arith);
        let transition = int_of(b, p, width);
        let change: i64 = int32(b, p + width) as i64;
        out.push(Leap { transition, change });
        p = p + width + 4;
        i += 1;
    }
    out
}

fn read_flags(b: &[u8], from: usize, given: usize, n: usize) -> (r: Vec<bool>)
    requires
        given <= n,
        from + given <= b@.len(),
    ensures
        r@ == Seq::new(n as nat, |i: int| i < given && b@[from + i] != 0),
{
    let len: usize = b.len();
    let mut out: Vec<bool> = Vec::new();
    let mut i: usize = 0;
    while i < n
        invariant
            i <= n,
            given <= n,
            from + given <= b@.len(),
            len == b@.len(),
            out@.len() == i,
            forall|j: int| 0 <= j < i ==> #[trigger] out@[j] == (j < given && b@[from + j] != 0),
        decreases n - i,
    {
        out.push(i < given && b[from + i] != 0);
        i += 1;
    }
    out
}

fn read_indexes(b: &[u8], from: usize, n: usize, limit: u32) -> (r: Option<Vec<u8>>)
    requires
        from + n <= b@.len(),
    ensures
        match r {
            Some(v) => {
                &&& v@ == Seq::new(n as nat, |i: int| b@[from + i])
                &&& forall|i: int| 0 <= i < n ==> (#[trigger] b@[from + i]) < limit
            },
            None => exists|i: int| 0 <= i < n && (#[trigger] b@[from + i]) >= limit,
        },
{
    let len: usize = b.len();
    let mut out: Vec<u8> = Vec::new();
    let mut i: usize = 0;
    while i < n
        invariant
            i <= n,
            from + n <= b@.len(),
            len == b@.len(),
            out@.len() == i,
            forall|j: int| 0 <= j < i ==> #[trigger] out@[j] == b@[from + j],
            forall|j: int| 0 <= j < i ==> (#[trigger] b@[from + j]) < limit,
        decreases n - i,
    {
        let idx: u8 = b[from + i];
        if idx as u32 >= limit {
            assert(b@[from + i] >= limit);
            return None;
        }
        out.push(idx);
        i += 1;
    }
    Some(out)
}

fn find_block(b: &[u8]) -> (r: Option<(Header, usize, usize)>)
    ensures
        match main_block(b@) {
            Some((h, pos, width)) => r matches Some((g, p, w)) && g == h && p == pos && w == width
                && (w == 4 || w == 8) && p <= b@.len() && h.typecnt <= 0x7fff_ffff && h.isstdcnt
                <= h.typecnt && h.isutcnt <= h.typecnt,
            None => r is None,
        },
{
    let first = match read_header(b, 0) {
        Some(h) => h,
        None => return None,
    };
    if first.version == 0 {
        return Some((first, 44, 4));
    }
    let second: u64 = data_block_len(&first, 4) + 44;
    if second > b.len() as u64 {
        return None;
    }
    match read_header(b, second as usize) {
        Some(h) => Some((h, second as usize + 44, 8)),
        None => None,
    }
}

/// Reads a zone file.
pub fn parse_tzif(b: &[u8]) -> (r: Option<RawTzif>)
    ensures
        match tzif(b@) {
            Some(raw) => r matches Some(x) && x@ == raw && x@.wf(),
            None => r is None,
        },
{
    proof {
        lemma_tzif_wf(b@);
    }
    let (h, pos, width) = match find_block(b) {
        Some(v) => v,
        None => return None,
    };
    if h.typecnt == 0 {
        return None;
    }
    let block = data_block_len(&h, width);
    let rem: u64 = (b.len() - pos) as u64;
    let need: u64 = if width == 8 {
        block + 2
    } else {
        block
    };
    let ghost l = layout(h, pos as int, width as int);
    proof {
        lemma_layout(h, pos as int, width as int);
    }
    if need > rem {
        return None;
    }
    let timecnt: usize = h.timecnt as usize;
    let typecnt: usize = h.typecnt as usize;
    let idxs: usize = if width == 8 {
        pos + timecnt * 8
    } else {
        pos + timecnt * 4
    };
    let types_at: usize = idxs + timecnt;
    let leaps_at: usize = types_at + typecnt * 6 + h.charcnt as usize;
    let leapcnt: usize = h.leapcnt as usize;
    let stds: usize = if width == 8 {
        leaps_at + leapcnt * 12
    } else {
        leaps_at + leapcnt * 8
    };
    let uts: usize = stds + h.isstdcnt as usize;
    let end: usize = uts + h.isutcnt as usize;
    assert(idxs == l.idxs && types_at == l.types && leaps_at == l.leaps && stds == l.stds && uts
        == l.uts && end == l.end);
    let transitions = read_times(b, pos, timecnt, width);
    let type_idxs = match read_indexes(b, idxs, timecnt, h.typecnt) {
        Some(v) => v,
        None => return None,
    };
    let types = match read_types(b, types_at, typecnt, h.charcnt) {
        Some(v) => v,
        None => return None,
    };
    let leaps = read_leaps(b, leaps_at, leapcnt, width);
    let isstd = read_flags(b, stds, h.isstdcnt as usize, typecnt);
    let isgmt = read_flags(b, uts, h.isutcnt as usize, typecnt);
    let footer = if width == 8 {
        read_footer(b, end)
    } else {
        None
    };
    let raw = RawTzif {
        file: TzFile { transitions, type_idxs, types, leaps, footer },
        isstd,
        isgmt,
    };
    assert(raw@ =~~= block_at(b@, h, pos as int, width as int));
    Some(raw)
}

// ---------------------------------------------------------------------------
// The default rules
// ---------------------------------------------------------------------------

/// Offset of the last transition to standard time, 0 if there is none.
pub open spec fn last_standard(types: Seq<TType>, idxs: Seq<u8>) -> i32
    decreases idxs.len(),
{
    if idxs.len() == 0 {
        0
    } else if !types[idxs.last() as int].isdst {
        types[idxs.last() as int].offset
    } else {
        last_standard(types, idxs.drop_last())
    }
}

/// The transitions of `posixrules` moved to other offsets: those given in
/// universal time stay, those given in wall time during daylight saving move
/// by the daylight offset, the others by the change of the standard offset.
/// After the last transition the footer of `posixrules` itself applies.
pub open spec fn shifted(raw: RawModel, stdoff: i32, dstoff: i32) -> Option<TzModel> {
    let f = raw.file;
    if f.types.len() < 2 {
        None
    } else {
        Some(
            TzModel {
                transitions: Seq::new(
                    f.transitions.len(),
                    |i: int|
                        {
                            let ty = f.type_idxs[i] as int;
                            let was_dst = i > 0 && f.types[f.type_idxs[i - 1] as int].isdst;
                            if raw.isgmt[ty] {
                                f.transitions[i]
                            } else if was_dst && !raw.isstd[ty] {
                                f.transitions[i].wrapping_add(dstoff as i64)
                            } else {
                                f.transitions[i].wrapping_add(
                                    (stdoff - last_standard(f.types, f.type_idxs)) as i64,
                                )
                            }
                        },
                ),
                type_idxs: Seq::new(
                    f.type_idxs.len(),
                    |i: int|
                        if f.types[f.type_idxs[i] as int].isdst {
                            1u8
                        } else {
                            0u8
                        },
                ),
                types: seq![
                    TType { offset: stdoff, isdst: false },
                    TType { offset: dstoff, isdst: true },
                ],
                leaps: f.leaps,
                footer: f.footer,
            },
        )
    }
}

fn find_last_standard(types: &Vec<TType>, idxs: &Vec<u8>) -> (r: i32)
    requires
        forall|i: int| 0 <= i < idxs@.len() ==> (#[trigger] idxs@[i]) < types@.len(),
    ensures
        r == last_standard(types@, idxs@),
{
    let mut n: usize = idxs.len();
    assert(idxs@.take(n as int) =~= idxs@);
    while n > 0
        invariant
            n <= idxs@.len(),
            forall|i: int| 0 <= i < idxs@.len() ==> (#[trigger] idxs@[i]) < types@.len(),
            last_standard(types@, idxs@.take(n as int)) == last_standard(types@, idxs@),
        decreases n,
    {
        assert(idxs@.take(n as int).last() == idxs@[n - 1]);
        assert(idxs@.take(n as int).drop_last() =~= idxs@.take(n - 1));
        let t = types[idxs[n - 1] as usize];
        if !t.isdst {
            return t.offset;
        }
        n -= 1;
    }
    0
}

/// Applies the offsets of a `TZ` string to the transitions of `posixrules`.
pub fn posixrules_default(raw: &RawTzif, stdoff: i32, dstoff: i32) -> (r: Option<TzFile>)
    requires
        raw@.wf(),
    ensures
        match shifted(raw@, stdoff, dstoff) {
            Some(f) => r matches Some(x) && x@ == f && x@.wf(),
            None => r is None,
        },
{
    let file = &raw.file;
    if file.types.len() < 2 {
        return None;
    }
    let ghost f = raw@.file;
    let rule_stdoff = find_last_standard(&file.types, &file.type_idxs);
    let std_shift: i64 = stdoff as i64 - rule_stdoff as i64;
    let dst_shift: i64 = dstoff as i64;
    let mut transitions: Vec<i64> = Vec::new();
    let mut type_idxs: Vec<u8> = Vec::new();
    let mut isdst = false;
    let mut i: usize = 0;
    let ghost want = shifted(raw@, stdoff, dstoff).unwrap();
    while i < file.transitions.len()
        invariant
            i <= file.transitions@.len(),
            f == raw@.file,
            file@ == f,
            f.types.len() >= 2,
            raw@.wf(),
            want == shifted(raw@, stdoff, dstoff).unwrap(),
            std_shift == stdoff - last_standard(f.types, f.type_idxs),
            dst_shift == dstoff,
            isdst == (i > 0 && f.types[f.type_idxs[i - 1] as int].isdst),
            transitions@.len() == i,
            type_idxs@.len() == i,
            forall|j: int| 0 <= j < i ==> #[trigger] transitions@[j] == want.transitions[j],
            forall|j: int| 0 <= j < i ==> #[trigger] type_idxs@[j] == want.type_idxs[j],
        decreases file.transitions@.len() - i,
    {
        assert(f.type_idxs[i as int] < f.types.len());
        let ty: usize = file.type_idxs[i] as usize;
        let tt = file.types[ty];
        let at: i64 = file.transitions[i];
        type_idxs.push(
            if tt.isdst {
                1
            } else {
                0
            },
        );
        if raw.isgmt[ty] {
            transitions.push(at);
        } else if isdst && !raw.isstd[ty] {
            transitions.push(at.wrapping_add(dst_shift));
        } else {
            transitions.push(at.wrapping_add(std_shift));
        }
        isdst = tt.isdst;
        i += 1;
    }
    let types: Vec<TType> = vec![
        TType { offset: stdoff, isdst: false },
        TType { offset: dstoff, isdst: true },
    ];
    let mut leaps: Vec<Leap> = Vec::new();
    let mut k: usize = 0;
    while k < file.leaps.len()
        invariant
            k <= file.leaps@.len(),
            leaps@ == file.leaps@.take(k as int),
        decreases file.leaps@.len() - k,
    {
        leaps.push(file.leaps[k]);
        assert(file.leaps@.take(k + 1) =~= file.leaps@.take(k as int).push(file.leaps@[k as int]));
        k += 1;
    }
    let out = TzFile { transitions, type_idxs, types, leaps, footer: file.footer };
    assert(out@.transitions =~= want.transitions);
    assert(out@.type_idxs =~= want.type_idxs);
    assert(out@.types =~= want.types);
    assert(out@.leaps =~= want.leaps);
    Some(out)
}

// ---------------------------------------------------------------------------
// Looking up a time
// ---------------------------------------------------------------------------

/// Going down from `i` to the first transition that `t` has reached; the
/// index after it.
pub open spec fn walk_down(tr: Seq<i64>, t: int, i: int) -> int
    decreases i,
{
    if i > 1 && t < tr[i - 1] {
        walk_down(tr, t, i - 1)
    } else {
        i
    }
}

/// Going up from `i` to the first transition after `t`.
pub open spec fn walk_up(tr: Seq<i64>, t: int, i: int) -> int
    decreases tr.len() - i,
{
    if i < tr.len() - 1 && t >= tr[i] {
        walk_up(tr, t, i + 1)
    } else {
        i
    }
}

/// Halving the interval between a transition that `t` has reached and one
/// that it has not.
pub open spec fn halve(tr: Seq<i64>, t: int, lo: int, hi: int) -> int
    decreases hi - lo,
{
    if lo + 1 < hi {
        let mid = (lo + hi) / 2;
        if t < tr[mid] {
            halve(tr, t, lo, mid)
        } else {
            halve(tr, t, mid, hi)
        }
    } else {
        hi
    }
}

/// Index of the first transition after `t`: near a guess of two transitions a
/// year if that is close, else by halving. Only a table that is out of order
/// can hold more than one candidate.
pub open spec fn next_transition(tr: Seq<i64>, t: int) -> int {
    let n = tr.len() as int;
    let guess = (tr[n - 1] - t) / 15_778_476;
    let i = n - 1 - guess;
    if guess >= n {
        halve(tr, t, 0, n - 1)
    } else if t < tr[i] {
        if i < 10 || t >= tr[i - 10] {
            walk_down(tr, t, i)
        } else {
            halve(tr, t, 0, i - 10)
        }
    } else if i + 10 >= n || t < tr[i + 10] {
        walk_up(tr, t, i)
    } else {
        halve(tr, t, i + 10, n - 1)
    }
}

/// `r` is the index of a transition after `t` that follows one not after `t`.
pub open spec fn brackets(tr: Seq<i64>, t: int, r: int) -> bool {
    1 <= r < tr.len() && tr[r - 1] <= t < tr[r]
}

proof fn lemma_walk_down(tr: Seq<i64>, t: int, i: int)
    requires
        1 <= i < tr.len(),
        tr[0] <= t < tr[i],
    ensures
        brackets(tr, t, walk_down(tr, t, i)),
    decreases i,
{
    if i > 1 && t < tr[i - 1] {
        lemma_walk_down(tr, t, i - 1);
    }
}

proof fn lemma_walk_up(tr: Seq<i64>, t: int, i: int)
    requires
        1 <= i < tr.len(),
        tr[i - 1] <= t,
        t < tr[tr.len() - 1],
    ensures
        brackets(tr, t, walk_up(tr, t, i)),
    decreases tr.len() - i,
{
    if i < tr.len() - 1 && t >= tr[i] {
        lemma_walk_up(tr, t, i + 1);
    }
}

proof fn lemma_halve(tr: Seq<i64>, t: int, lo: int, hi: int)
    requires
        0 <= lo < hi < tr.len(),
        tr[lo] <= t < tr[hi],
    ensures
        brackets(tr, t, halve(tr, t, lo, hi)),
    decreases hi - lo,
{
    if lo + 1 < hi {
        let mid = (lo + hi) / 2;
        if t < tr[mid] {
            lemma_halve(tr, t, lo, mid);
        } else {
            lemma_halve(tr, t, mid, hi);
        }
    }
}

/// The search always ends between a transition that has happened and the
/// next one; in an ordered table there is only one such place.
pub proof fn law_next_transition(tr: Seq<i64>, t: int)
    requires
        tr.len() > 0,
        tr[0] <= t < tr[tr.len() - 1],
    ensures
        brackets(tr, t, next_transition(tr, t)),
        (forall|i: int, j: int| 0 <= i < j < tr.len() ==> tr[i] <= tr[j]) ==> forall|r: int|
            #[trigger] brackets(tr, t, r) ==> r == next_transition(tr, t),
{
    let n = tr.len() as int;
    let guess = (tr[n - 1] - t) / 15_778_476;
    let i = n - 1 - guess;
    if guess >= n {
        lemma_halve(tr, t, 0, n - 1);
    } else if t < tr[i] {
        if i < 10 || t >= tr[i - 10] {
            lemma_walk_down(tr, t, i);
        } else {
            lemma_halve(tr, t, 0, i - 10);
        }
    } else if i + 10 >= n || t < tr[i + 10] {
        assert(walk_up(tr, t, i) == walk_up(tr, t, i + 1));
        lemma_walk_up(tr, t, i + 1);
    } else {
        lemma_halve(tr, t, i + 10, n - 1);
    }
    let found = next_transition(tr, t);
    if forall|i: int, j: int| 0 <= i < j < tr.len() ==> tr[i] <= tr[j] {
        assert forall|r: int| #[trigger] brackets(tr, t, r) implies r == found by {
            if r < found {
                assert(tr[r] <= tr[found - 1]);
            } else if found < r {
                assert(tr[found] <= tr[r - 1]);
            }
        }
    }
}

/// The first type that is not daylight saving time, or the first one.
pub open spec fn first_standard(types: Seq<TType>) -> int
    decreases types.len(),
{
    if types.len() == 0 || !types[0].isdst {
        0
    } else {
        let rest = first_standard(types.skip(1));
        if rest < types.len() - 1 && !types[rest + 1].isdst {
            rest + 1
        } else {
            0
        }
    }
}

proof fn lemma_first_standard(types: Seq<TType>, k: int)
    requires
        0 <= k <= types.len(),
        forall|i: int| 0 <= i < k ==> (#[trigger] types[i]).isdst,
        k < types.len() ==> !types[k].isdst,
    ensures
        first_standard(types) == if k < types.len() {
            k
        } else {
            0
        },
    decreases types.len(),
{
    if types.len() > 0 && types[0].isdst {
        let t = types.skip(1);
        assert forall|i: int| 0 <= i < k - 1 implies (#[trigger] t[i]).isdst by {
            assert(t[i] == types[i + 1]);
        }
        lemma_first_standard(t, k - 1);
        if k == types.len() && t.len() > 0 {
            assert(types[1].isdst);
        }
    }
}

/// The leap-second correction in effect at `t`: that of the last leap second
/// listed whose time `t` has reached.
pub open spec fn correction(leaps: Seq<Leap>, t: int) -> i64
    decreases leaps.len(),
{
    if leaps.len() == 0 {
        0
    } else if t >= leaps.last().transition {
        leaps.last().change
    } else {
        correction(leaps.drop_last(), t)
    }
}

impl TzModel {
    /// The offset from UTC, in seconds east, that applies at `t`.
    pub open spec fn offset(self, t: int) -> i32 {
        let tr = self.transitions;
        let n = tr.len() as int;
        if n == 0 || t < tr[0] {
            self.types[first_standard(self.types)].offset
        } else if t >= tr[n - 1] {
            match self.footer {
                Some(p) => p.offset(t),
                None => self.types[self.type_idxs[n - 1] as int].offset,
            }
        } else {
            self.types[self.type_idxs[next_transition(tr, t) - 1] as int].offset
        }
    }
}

impl TzFile {
    /// Index of the first transition after `t`.
    pub fn search(&self, t: i64) -> (r: usize)
        requires
            self.transitions@.len() > 0,
            self.transitions@[0] <= t < self.transitions@[self.transitions@.len() - 1],
        ensures
            r == next_transition(self.transitions@, t as int),
            brackets(self.transitions@, t as int, r as int),
    {
        let tr = &self.transitions;
        let n: usize = tr.len();
        proof {
            law_next_transition(tr@, t as int);
        }
        let ghost found = next_transition(tr@, t as int);
        let mut lo: usize = 0;
        let mut hi: usize = n - 1;
        let guess: i128 = (tr[n - 1] as i128 - t as i128) / 15_778_476;
        if guess < n as i128 {
            let mut i: usize = n - 1 - guess as usize;
            if t < tr[i] {
                if i < 10 || t >= tr[i - 10] {
                    while i > 1 && t < tr[i - 1]
                        invariant
                            i < tr@.len(),
                            walk_down(tr@, t as int, i as int) == found,
                        decreases i,
                    {
                        i -= 1;
                    }
                    return i;
                }
                hi = i - 10;
            } else {
                if n <= 10 || i >= n - 10 || t < tr[i + 10] {
                    while i < n - 1 && t >= tr[i]
                        invariant
                            i < n == tr@.len(),
                            walk_up(tr@, t as int, i as int) == found,
                        decreases n - i,
                    {
                        i += 1;
                    }
                    return i;
                }
                lo = i + 10;
            }
        }
        while hi - lo > 1
            invariant
                lo <= hi < tr@.len(),
                halve(tr@, t as int, lo as int, hi as int) == found,
            decreases hi - lo,
        {
            let mid: usize = lo + (hi - lo) / 2;
            assert(mid == (lo + hi) / 2);
            if t < tr[mid] {
                hi = mid;
            } else {
                lo = mid;
            }
        }
        hi
    }

    /// The offset from UTC and the leap-second correction in effect at `t`.
    pub fn local(&self, t: i64) -> (r: (i32, i64))
        requires
            self@.wf(),
        ensures
            r.0 == self@.offset(t as int),
            r.1 == correction(self@.leaps, t as int),
    {
        let tr = &self.transitions;
        let n: usize = tr.len();
        let offset: i32 = if n == 0 || t < tr[0] {
            let mut i: usize = 0;
            while i < self.types.len() && self.types[i].isdst
                invariant
                    i <= self.types@.len(),
                    forall|j: int| 0 <= j < i ==> (#[trigger] self.types@[j]).isdst,
                decreases self.types@.len() - i,
            {
                i += 1;
            }
            proof {
                lemma_first_standard(self.types@, i as int);
            }
            if i < self.types.len() {
                self.types[i].offset
            } else {
                self.types[0].offset
            }
        } else if t >= tr[n - 1] {
            match &self.footer {
                Some(p) => p.offset_at(t),
                None => {
                    assert(self@.type_idxs[n - 1] < self@.types.len());
                    self.types[self.type_idxs[n - 1] as usize].offset
                },
            }
        } else {
            let i = self.search(t);
            assert(self@.type_idxs[i - 1] < self@.types.len());
            self.types[self.type_idxs[i - 1] as usize].offset
        };
        let mut k: usize = self.leaps.len();
        assert(self.leaps@.take(k as int) =~= self.leaps@);
        while k > 0 && t < self.leaps[k - 1].transition
            invariant
                k <= self.leaps@.len(),
                correction(self.leaps@.take(k as int), t as int) == correction(
                    self.leaps@,
                    t as int,
                ),
            decreases k,
        {
            assert(self.leaps@.take(k as int).last() == self.leaps@[k - 1]);
            assert(self.leaps@.take(k as int).drop_last() =~= self.leaps@.take(k - 1));
            k -= 1;
        }
        let change: i64 = if k > 0 {
            assert(self.leaps@.take(k as int).last() == self.leaps@[k - 1]);
            self.leaps[k - 1].change
        } else {
            0
        };
        (offset, change)
    }
}

/// Between two transitions the offset does not change.
pub proof fn law_constant_between_transitions(f: TzModel, t: int, u: int, r: int)
    requires
        f.wf(),
        forall|i: int, j: int|
            0 <= i < j < f.transitions.len() ==> f.transitions[i] <= f.transitions[j],
        brackets(f.transitions, t, r),
        brackets(f.transitions, u, r),
    ensures
        f.offset(t) == f.offset(u),
        f.offset(t) == f.types[f.type_idxs[r - 1] as int].offset,
{
    let tr = f.transitions;
    assert(tr[0] <= tr[r - 1]) by {
        if r > 1 {
            assert(tr[0] <= tr[r - 1]);
        }
    }
    assert(tr[r] <= tr[tr.len() - 1]) by {
        if r < tr.len() - 1 {
            assert(tr[r] <= tr[tr.len() - 1]);
        }
    }
    law_next_transition(tr, t);
    law_next_transition(tr, u);
}

/// Before the first transition the first type that is not daylight saving time
/// counts, and the very first one if all are.
pub proof fn law_before_the_first_transition(f: TzModel, t: int, k: int)
    requires
        f.types.len() > 0,
        f.transitions.len() == 0 || t < f.transitions[0],
        0 <= k < f.types.len(),
        ({
            ||| !f.types[k].isdst && forall|i: int| 0 <= i < k ==> (#[trigger] f.types[i]).isdst
            ||| k == 0 && forall|i: int| 0 <= i < f.types.len() ==> (#[trigger] f.types[i]).isdst
        }),
    ensures
        f.offset(t) == f.types[k].offset,
{
    if f.types[k].isdst {
        lemma_first_standard(f.types, f.types.len() as int);
    } else {
        lemma_first_standard(f.types, k);
    }
}

/// From the last transition on the footer counts, and without one the type that
/// the transition leads to.
pub proof fn law_after_the_last_transition(f: TzModel, t: int)
    requires
        f.wf(),
        f.transitions.len() > 0,
        f.transitions[0] <= f.transitions.last() <= t,
    ensures
        f.footer matches Some(p) ==> f.offset(t) == p.offset(t),
        f.footer is None ==> f.offset(t) == f.types[f.type_idxs.last() as int].offset,
{
}

/// From each transition to the next, the type that it leads to counts.
pub proof fn law_from_each_transition(f: TzModel, i: int, t: int)
    requires
        f.wf(),
        forall|i: int, j: int|
            0 <= i < j < f.transitions.len() ==> f.transitions[i] <= f.transitions[j],
        0 <= i < f.transitions.len() - 1,
        f.transitions[i] <= t < f.transitions[i + 1],
    ensures
        f.offset(t) == f.types[f.type_idxs[i] as int].offset,
{
    law_constant_between_transitions(f, t, t, i + 1);
}

/// The last leap second that has come counts, and before the first one there is
/// none.
pub proof fn law_leap_seconds(leaps: Seq<Leap>, next: Leap, t: int)
    ensures
        t >= next.transition ==> correction(leaps.push(next), t) == next.change,
        t < next.transition ==> correction(leaps.push(next), t) == correction(leaps, t),
        correction(seq![], t) == 0,
{
    assert(leaps.push(next).drop_last() =~= leaps);
}

/// Numbers are stored with their highest byte first, negative ones in two's
/// complement.
pub proof fn law_big_endian(b: Seq<u8>, p: int)
    requires
        0 <= p,
        p + 4 <= b.len(),
    ensures
        unsigned_at(b, p, 4) == b[p] * 0x100_0000 + b[p + 1] * 0x1_0000 + b[p + 2] * 0x100 + b[p
            + 3],
        b[p] < 0x80 ==> signed_at(b, p, 4) == unsigned_at(b, p, 4),
        b[p] >= 0x80 ==> signed_at(b, p, 4) == unsigned_at(b, p, 4) - 0x1_0000_0000,
{
    reveal_with_fuel(unsigned_at, 5);
}

/// The same for the eight bytes of a time.
pub proof fn law_big_endian_times(b: Seq<u8>, p: int)
    requires
        0 <= p,
        p + 8 <= b.len(),
    ensures
        unsigned_at(b, p, 8) == unsigned_at(b, p, 4) * 0x1_0000_0000 + unsigned_at(b, p + 4, 4),
        b[p] < 0x80 ==> signed_at(b, p, 8) == unsigned_at(b, p, 8),
        b[p] >= 0x80 ==> signed_at(b, p, 8) == unsigned_at(b, p, 8) - 0x1_0000_0000_0000_0000,
{
    reveal_with_fuel(unsigned_at, 9);
}

/// A zone file begins with the letters `TZif`, and a header takes 44 bytes.
pub proof fn law_magic(b: Seq<u8>)
    ensures
        tzif(b) is Some ==> b.len() >= 44 && b[0] == 0x54 && b[1] == 0x5a && b[2] == 0x69 && b[3]
            == 0x66,
{
}

/// The parts of a data block follow each other without gaps, each as long as its
/// count says, and together they are as long as the block.
#[verifier::spinoff_prover]
pub proof fn law_block_layout(h: Header, pos: int, width: int)
    requires
        width == 4 || width == 8,
    ensures
        ({
            let l = layout(h, pos, width);
            &&& l.times == pos
            &&& l.idxs == l.times + width * h.timecnt
            &&& l.types == l.idxs + h.timecnt
            &&& l.leaps == l.types + 6 * h.typecnt + h.charcnt
            &&& l.stds == l.leaps + (width + 4) * h.leapcnt
            &&& l.uts == l.stds + h.isstdcnt
            &&& l.end == l.uts + h.isutcnt
            &&& l.end - pos == h.block_len(width)
        }),
{
    let times = h.timecnt as int;
    let leaps = h.leapcnt as int;
    assert(times * width == width * times) by (nonlinear_arith);
    assert(times * (width + 1) == width * times + times) by (nonlinear_arith);
    assert(leaps * (width + 4) == (width + 4) * leaps) by (nonlinear_arith);
}

/// Of a file with a version the second block counts, whose times have eight bytes;
/// it follows the first one. Without a version there is only one, whose times have
/// four.
pub proof fn law_main_block(b: Seq<u8>)
    ensures
        header_at(b, 0) matches Some(h) ==> {
            &&& h.version == 0 ==> main_block(b) == Some((h, 44int, 4int))
            &&& h.version != 0 ==> match header_at(b, 44 + h.block_len(4)) {
                Some(second) => main_block(b) == Some((second, 88 + h.block_len(4), 8int)),
                None => main_block(b) is None,
            }
        },
        header_at(b, 0) is None ==> main_block(b) is None,
{
}

/// What a file holds is what stands in its main block: times, the types that they
/// lead to, and for every type its offset and whether it is daylight saving time.
/// Behind the abbreviations come the leap seconds, then for every type whether its
/// transitions were given in standard time, and whether they were in UTC.
pub proof fn law_file_contents(b: Seq<u8>, i: int)
    requires
        tzif(b) is Some,
    ensures
        ({
            let (h, pos, width) = main_block(b)->0;
            let f = (tzif(b)->0).file;
            let idxs = pos + width * h.timecnt;
            let types = idxs + h.timecnt;
            &&& f.transitions.len() == h.timecnt
            &&& f.type_idxs.len() == h.timecnt
            &&& f.types.len() == h.typecnt
            &&& f.leaps.len() == h.leapcnt
            &&& 0 <= i < h.timecnt ==> f.transitions[i] == signed_at(
                b,
                pos + i * width,
                width as nat,
            ) as i64 && f.type_idxs[i] == b[idxs + i]
            &&& 0 <= i < h.typecnt ==> f.types[i].offset == signed_at(b, types + 6 * i, 4) as i32 && (
            f.types[i].isdst <==> b[types + 6 * i + 4] == 1)
        }),
        ({
            let (h, pos, width) = main_block(b)->0;
            let raw = tzif(b)->0;
            let leaps = pos + width * h.timecnt + h.timecnt + 6 * h.typecnt + h.charcnt;
            let stds = leaps + (width + 4) * h.leapcnt;
            let uts = stds + h.isstdcnt;
            &&& 0 <= i < h.leapcnt ==> raw.file.leaps[i].transition == signed_at(
                b,
                leaps + i * (width + 4),
                width as nat,
            ) as i64 && raw.file.leaps[i].change == signed_at(
                b,
                leaps + i * (width + 4) + width,
                4,
            ) as i64
            &&& raw.isstd.len() == h.typecnt && raw.isgmt.len() == h.typecnt
            &&& 0 <= i < h.typecnt ==> (raw.isstd[i] <==> i < h.isstdcnt && b[stds + i] != 0)
            &&& 0 <= i < h.typecnt ==> (raw.isgmt[i] <==> i < h.isutcnt && b[uts + i] != 0)
        }),
{
    let (h, pos, width) = main_block(b)->0;
    law_block_layout(h, pos, width);
}

/// Where the rules of another zone are taken over, its two kinds of time get the
/// offsets that were asked for, and each transition leads to the kind it led to.
/// Transitions given in UTC stay. One out of daylight saving time that was given in
/// wall-clock time moves by the new daylight offset, any other by the difference
/// between the new standard offset and that of the last standard time.
pub proof fn law_default_rules(raw: RawModel, stdoff: i32, dstoff: i32, i: int)
    requires
        raw.file.type_idxs.len() == raw.file.transitions.len(),
        0 <= i < raw.file.transitions.len(),
    ensures
        raw.file.types.len() >= 2 ==> ({
            let f = raw.file;
            let r = shifted(raw, stdoff, dstoff);
            &&& r matches Some(g) && g.transitions.len() == f.transitions.len() && g.type_idxs.len()
                == f.type_idxs.len() && g.types[g.type_idxs[i] as int].offset == (if f.types[
            f.type_idxs[i] as int].isdst {
                dstoff
            } else {
                stdoff
            }) && g.leaps == f.leaps && g.footer == f.footer
            &&& raw.isgmt[f.type_idxs[i] as int] ==> (r->0).transitions[i] == f.transitions[i]
            &&& !raw.isgmt[f.type_idxs[i] as int] ==> (r->0).transitions[i]
                == f.transitions[i].wrapping_add(
                if i > 0 && f.types[f.type_idxs[i - 1] as int].isdst
                    && !raw.isstd[f.type_idxs[i] as int] {
                    dstoff as i64
                } else {
                    (stdoff - last_standard(f.types, f.type_idxs)) as i64
                },
            )
        }),
        raw.file.types.len() < 2 ==> shifted(raw, stdoff, dstoff) is None,
        forall|k: int|
            0 <= k < raw.file.type_idxs.len() && !raw.file.types[#[trigger] raw.file.type_idxs[k] as int].isdst
                && (forall|j: int|
                k < j < raw.file.type_idxs.len()
                    ==> raw.file.types[#[trigger] raw.file.type_idxs[j] as int].isdst)
                ==> last_standard(raw.file.types, raw.file.type_idxs)
                == raw.file.types[raw.file.type_idxs[k] as int].offset,
{
    let f = raw.file;
    assert forall|k: int|
        0 <= k < f.type_idxs.len() && !f.types[#[trigger] f.type_idxs[k] as int].isdst && (forall|
            j: int,
        |
            k < j < f.type_idxs.len() ==> f.types[#[trigger] f.type_idxs[j] as int].isdst) implies last_standard(
        f.types,
        f.type_idxs,
    ) == f.types[f.type_idxs[k] as int].offset by {
        lemma_last_standard(f.types, f.type_idxs, k);
    }
}

proof fn lemma_last_standard(types: Seq<TType>, idxs: Seq<u8>, k: int)
    requires
        0 <= k < idxs.len(),
        !types[idxs[k] as int].isdst,
        forall|j: int| k < j < idxs.len() ==> types[#[trigger] idxs[j] as int].isdst,
    ensures
        last_standard(types, idxs) == types[idxs[k] as int].offset,
    decreases idxs.len(),
{
    if k < idxs.len() - 1 {
        let rest = idxs.drop_last();
        assert(types[idxs[idxs.len() - 1] as int].isdst);
        assert(rest[k] == idxs[k]);
        assert forall|j: int| k < j < rest.len() implies types[#[trigger] rest[j] as int].isdst by {
            assert(rest[j] == idxs[j]);
        }
        lemma_last_standard(types, rest, k);
    }
}

/// A file is usable if and only if its main block is whole and has a type, every
/// transition leads to one of its types, and every type says by 0 or 1 whether it is
/// daylight saving time and names an abbreviation that is there. With eight-byte
/// times two more bytes must follow.
pub proof fn law_usable_files(b: Seq<u8>)
    ensures
        tzif(b) is Some <==> (main_block(b) matches Some((h, pos, width)) && {
            let idxs = pos + width * h.timecnt;
            let types = idxs + h.timecnt;
            &&& h.typecnt > 0
            &&& pos + h.block_len(width) + (if width == 8 {
                2int
            } else {
                0
            }) <= b.len()
            &&& forall|i: int| 0 <= i < h.timecnt ==> (#[trigger] b[idxs + i]) < h.typecnt
            &&& forall|i: int|
                0 <= i < h.typecnt ==> #[trigger] type_ok(b, types, h.charcnt, i)
        }),
        forall|from: int, charcnt: u32, i: int| #[trigger]
            type_ok(b, from, charcnt, i) <==> b[from + 6 * i + 4] <= 1 && b[from + 6 * i + 5]
                <= charcnt,
{
    if let Some((h, pos, width)) = main_block(b) {
        law_block_layout(h, pos, width);
    }
}

/// The footer is the text between the newline behind the block and the last byte of
/// the file, and says which rules apply after the last transition.
pub proof fn law_footer(before: Seq<u8>, text: Seq<u8>, last: u8)
    requires
        !text.contains(0),
    ensures
        text.len() > 0 ==> footer_at(before + seq![0x0au8] + text + seq![last], before.len() as int)
            == Some(crate::posix_tz::tz_string(text).tz),
        footer_at(before + seq![0x0au8] + seq![last], before.len() as int) is None,
{
    let b = before + seq![0x0au8] + text + seq![last];
    let end = before.len() as int;
    assert(b[end] == 0x0a);
    assert(b.subrange(end + 1, b.len() - 1) =~= text);
    lemma_whole_text(text);
    let c = before + seq![0x0au8] + seq![last];
    assert(c.subrange(end + 1, c.len() - 1) =~= seq![]);
}

proof fn lemma_whole_text(s: Seq<u8>)
    requires
        !s.contains(0),
    ensures
        until_nul(s) == s,
    decreases s.len(),
{
    if s.len() > 0 {
        let t = s.skip(1);
        assert(s.contains(s[0]));
        assert(!t.contains(0)) by {
            if t.contains(0) {
                let i = choose|i: int| 0 <= i < t.len() && t[i] == 0;
                assert(s[i + 1] == 0);
            }
        }
        lemma_whole_text(t);
        assert(seq![s[0]] + t =~= s);
    } else {
        assert(s =~= seq![]);
    }
}

} // verus!
