//! Cron time specifications: parsing and matching with Vixie/cronie
//! semantics.
//!
//! A schedule has five fields (minute, hour, day of month, month, day of
//! week) or is one of the shortcuts `@reboot`, `@yearly`, `@annually`,
//! `@monthly`, `@weekly`, `@daily`, `@midnight`, `@hourly`.
//!
//! Each field is a comma-separated list of parts:
//!
//! ```text
//! part   := '*' | value | value '-' value | [value] '~' [value]
//!           followed optionally by '/' step
//! value  := number | name (months and weekdays, at least 3 letters)
//! ```
//!
//! `~` picks a random value in the range once, at parse time; its bounds may lie
//! outside the field. `value/step` is treated as `value-max/step`. If neither the day of month nor the day of
//! week begins with `*`, a day matches when either field matches; otherwise
//! both must match.

use vstd::prelude::*;

use crate::bits::{has_bit, with_bit};
use crate::calendar::{plus_minutes, plus_months, weekday_of, WallTime, MAX_YEAR};
use crate::text::{
    chars_of, find_char, find_white, is_digit, is_letter, lower_chars, number_text, same,
    skip_white, starts_with,
};

verus! {

/// Error produced while parsing a time specification.
#[derive(Debug, Clone, Copy, PartialEq, Eq, Structural)]
pub enum ScheduleError {
    BadMinute,
    BadHour,
    BadDayOfMonth,
    BadMonth,
    BadDayOfWeek,
    BadTimeSpecifier,
}

impl ScheduleError {
    pub open spec fn text(self) -> Seq<char> {
        match self {
            ScheduleError::BadMinute => "bad minute"@,
            ScheduleError::BadHour => "bad hour"@,
            ScheduleError::BadDayOfMonth => "bad day-of-month"@,
            ScheduleError::BadMonth => "bad month"@,
            ScheduleError::BadDayOfWeek => "bad day-of-week"@,
            ScheduleError::BadTimeSpecifier => "bad time specifier"@,
        }
    }

    /// The message shown to users.
    pub fn message(&self) -> (r: String)
        ensures
            r@ == self.text(),
    {
        let s = match self {
            ScheduleError::BadMinute => "bad minute",
            ScheduleError::BadHour => "bad hour",
            ScheduleError::BadDayOfMonth => "bad day-of-month",
            ScheduleError::BadMonth => "bad month",
            ScheduleError::BadDayOfWeek => "bad day-of-week",
            ScheduleError::BadTimeSpecifier => "bad time specifier",
        };
        s.to_owned()
    }
}

/// The five time fields, in the order they are written.
#[derive(Debug, Clone, Copy, PartialEq, Eq, Structural)]
pub enum Field {
    Minute,
    Hour,
    DayOfMonth,
    Month,
    DayOfWeek,
}

impl Field {
    pub open spec fn min(self) -> u32 {
        match self {
            Field::Minute => 0,
            Field::Hour => 0,
            Field::DayOfMonth => 1,
            Field::Month => 1,
            Field::DayOfWeek => 0,
        }
    }

    pub open spec fn max(self) -> u32 {
        match self {
            Field::Minute => 59,
            Field::Hour => 23,
            Field::DayOfMonth => 31,
            Field::Month => 12,
            Field::DayOfWeek => 7,
        }
    }

    /// Smallest and largest value; 7 is a second name for Sunday.
    pub fn bounds(self) -> (r: (u32, u32))
        ensures
            r == (self.min(), self.max()),
    {
        match self {
            Field::Minute => (0, 59),
            Field::Hour => (0, 23),
            Field::DayOfMonth => (1, 31),
            Field::Month => (1, 12),
            Field::DayOfWeek => (0, 7),
        }
    }

    /// The names of the values from the smallest one on; none for numeric
    /// fields.
    pub open spec fn name_list(self) -> Seq<Seq<char>> {
        match self {
            Field::Month => seq![
                "january"@,
                "february"@,
                "march"@,
                "april"@,
                "may"@,
                "june"@,
                "july"@,
                "august"@,
                "september"@,
                "october"@,
                "november"@,
                "december"@,
            ],
            Field::DayOfWeek => seq![
                "sunday"@,
                "monday"@,
                "tuesday"@,
                "wednesday"@,
                "thursday"@,
                "friday"@,
                "saturday"@,
            ],
            _ => seq![],
        }
    }

    pub fn names(self) -> (r: Vec<&'static str>)
        ensures
            r@.len() == self.name_list().len(),
            forall|i: int| 0 <= i < r@.len() ==> (#[trigger] r@[i])@ == self.name_list()[i],
    {
        match self {
            Field::Month => vec![
                "january",
                "february",
                "march",
                "april",
                "may",
                "june",
                "july",
                "august",
                "september",
                "october",
                "november",
                "december",
            ],
            Field::DayOfWeek => vec![
                "sunday",
                "monday",
                "tuesday",
                "wednesday",
                "thursday",
                "friday",
                "saturday",
            ],
            _ => Vec::new(),
        }
    }

    pub open spec fn err(self) -> ScheduleError {
        match self {
            Field::Minute => ScheduleError::BadMinute,
            Field::Hour => ScheduleError::BadHour,
            Field::DayOfMonth => ScheduleError::BadDayOfMonth,
            Field::Month => ScheduleError::BadMonth,
            Field::DayOfWeek => ScheduleError::BadDayOfWeek,
        }
    }

    pub fn error(self) -> (r: ScheduleError)
        ensures
            r == self.err(),
    {
        match self {
            Field::Minute => ScheduleError::BadMinute,
            Field::Hour => ScheduleError::BadHour,
            Field::DayOfMonth => ScheduleError::BadDayOfMonth,
            Field::Month => ScheduleError::BadMonth,
            Field::DayOfWeek => ScheduleError::BadDayOfWeek,
        }
    }

    /// The field at position `k` of a specification.
    pub open spec fn at(k: int) -> Field {
        if k == 0 {
            Field::Minute
        } else if k == 1 {
            Field::Hour
        } else if k == 2 {
            Field::DayOfMonth
        } else if k == 3 {
            Field::Month
        } else {
            Field::DayOfWeek
        }
    }

    fn nth(k: usize) -> (r: Field)
        ensures
            r == Field::at(k as int),
    {
        if k == 0 {
            Field::Minute
        } else if k == 1 {
            Field::Hour
        } else if k == 2 {
            Field::DayOfMonth
        } else if k == 3 {
            Field::Month
        } else {
            Field::DayOfWeek
        }
    }
}

// ---------------------------------------------------------------------------
// Numbers and names
// ---------------------------------------------------------------------------

pub open spec fn digit_value(c: char) -> int {
    c as u32 - '0' as u32
}

/// The number a string of decimal digits denotes.
pub open spec fn decimal(s: Seq<char>) -> int
    decreases s.len(),
{
    if s.len() == 0 {
        0
    } else {
        decimal(s.drop_last()) * 10 + digit_value(s.last())
    }
}

pub open spec fn all_digits(s: Seq<char>) -> bool {
    forall|i: int| 0 <= i < s.len() ==> crate::text::digit(#[trigger] s[i])
}

/// A number held to the range of a signed 64-bit integer.
pub open spec fn held(n: int) -> int {
    if n > i64::MAX {
        i64::MAX as int
    } else {
        n
    }
}

/// What C makes of a number read into an `int`: it is held to the range of a
/// `long` of 64 bits, of which the lower 32 are kept.
pub open spec fn c_int(n: int) -> int {
    let low = held(n) % 0x1_0000_0000;
    if low >= 0x8000_0000 {
        low - 0x1_0000_0000
    } else {
        low
    }
}

/// The value of a plain decimal number.
pub open spec fn number(s: Seq<char>) -> Option<i32> {
    if s.len() > 0 && all_digits(s) {
        Some(c_int(decimal(s)) as i32)
    } else {
        None
    }
}

/// The value of a string of decimal digits, at most that of the largest signed
/// 64-bit integer.
pub(crate) fn read_decimal(s: &[char]) -> (r: Option<u64>)
    ensures
        if s@.len() > 0 && all_digits(s@) {
            r matches Some(n) && n == held(decimal(s@))
        } else {
            r is None
        },
        r matches Some(n) ==> decimal(s@) >= 0,
{
    if s.len() == 0 {
        return None;
    }
    let limit: u64 = 0x7fff_ffff_ffff_ffff;
    let mut value: u64 = 0;
    let mut i: usize = 0;
    while i < s.len()
        invariant
            i <= s.len(),
            limit == i64::MAX,
            forall|j: int| 0 <= j < i ==> crate::text::digit(#[trigger] s@[j]),
            decimal(s@.take(i as int)) >= 0,
            value == held(decimal(s@.take(i as int))),
        decreases s.len() - i,
    {
        if !is_digit(s[i]) {
            return None;
        }
        proof {
            assert(s@.take(i + 1).drop_last() =~= s@.take(i as int));
            assert(s@.take(i + 1).last() == s@[i as int]);
        }
        let digit: u64 = s[i] as u64 - '0' as u64;
        if value > (limit - digit) / 10 {
            value = limit;
        } else {
            value = value * 10 + digit;
        }
        i += 1;
    }
    assert(s@.take(s@.len() as int) =~= s@);
    Some(value)
}

pub fn parse_plain_number(s: &[char]) -> (r: Option<i32>)
    ensures
        r == number(s@),
{
    match read_decimal(s) {
        Some(n) => {
            let low: i64 = (n % 0x1_0000_0000) as i64;
            let value: i64 = if low >= 0x8000_0000 {
                low - 0x1_0000_0000
            } else {
                low
            };
            Some(value as i32)
        },
        None => None,
    }
}

/// Index of the first name in `list` that begins with `p`, or the length.
pub open spec fn first_named(list: Seq<Seq<char>>, p: Seq<char>) -> int
    decreases list.len(),
{
    if list.len() == 0 || crate::text::has_prefix(list[0], p) {
        0
    } else {
        1 + first_named(list.skip(1), p)
    }
}

pub proof fn lemma_first_named(list: Seq<Seq<char>>, p: Seq<char>, n: int)
    requires
        0 <= n <= list.len(),
        forall|i: int| 0 <= i < n ==> !crate::text::has_prefix(#[trigger] list[i], p),
        n < list.len() ==> crate::text::has_prefix(list[n], p),
    ensures
        first_named(list, p) == n,
    decreases list.len(),
{
    if n > 0 {
        assert(!crate::text::has_prefix(list[0], p));
        let t = list.skip(1);
        assert forall|i: int| 0 <= i < n - 1 implies !crate::text::has_prefix(
            #[trigger] t[i],
            p,
        ) by {
            assert(t[i] == list[i + 1]);
        }
        lemma_first_named(t, p, n - 1);
    }
}

pub open spec fn all_letters(s: Seq<char>) -> bool {
    forall|i: int| 0 <= i < s.len() ==> crate::text::letter(#[trigger] s[i])
}

/// The value written as `s` in a field: a number within the bounds, or a name
/// abbreviated to no less than three letters, in any case.
pub open spec fn value_of(s: Seq<char>, field: Field) -> Option<u32> {
    match number(s) {
        Some(n) => if field.min() <= n && n <= field.max() {
            Some(n as u32)
        } else {
            None
        },
        None => {
            let i = first_named(field.name_list(), crate::text::lower_seq(s));
            if s.len() >= 3 && all_letters(s) && i < field.name_list().len() {
                Some((field.min() + i) as u32)
            } else {
                None
            }
        },
    }
}

pub fn parse_value(s: &[char], field: Field) -> (r: Result<u32, ScheduleError>)
    ensures
        match value_of(s@, field) {
            Some(v) => r == Ok::<u32, ScheduleError>(v),
            None => r == Err::<u32, ScheduleError>(field.err()),
        },
{
    let (min, max) = field.bounds();
    if let Some(n) = parse_plain_number(s) {
        if n < min as i32 || n > max as i32 {
            return Err(field.error());
        }
        return Ok(n as u32);
    }
    if s.len() < 3 {
        return Err(field.error());
    }
    let mut k: usize = 0;
    while k < s.len()
        invariant
            k <= s.len(),
            forall|j: int| 0 <= j < k ==> crate::text::letter(#[trigger] s@[j]),
            number(s@) is None,
        decreases s.len() - k,
    {
        if !is_letter(s[k]) {
            return Err(field.error());
        }
        k += 1;
    }
    let names = field.names();
    let wanted = lower_chars(s);
    let ghost list = field.name_list();
    let mut i: usize = 0;
    while i < names.len()
        invariant
            i <= names.len(),
            names@.len() == list.len(),
            list == field.name_list(),
            list.len() <= 12,
            min == field.min(),
            min <= 1,
            number(s@) is None,
            s@.len() >= 3,
            all_letters(s@),
            wanted@ == crate::text::lower_seq(s@),
            forall|j: int| 0 <= j < names@.len() ==> (#[trigger] names@[j])@ == list[j],
            forall|j: int| 0 <= j < i ==> !crate::text::has_prefix(#[trigger] list[j], wanted@),
        decreases names.len() - i,
    {
        let name = chars_of(names[i]);
        if starts_with(name.as_slice(), wanted.as_slice()) {
            proof {
                lemma_first_named(list, wanted@, i as int);
            }
            return Ok(min + i as u32);
        }
        i += 1;
    }
    proof {
        lemma_first_named(list, wanted@, i as int);
    }
    Err(field.error())
}

// ---------------------------------------------------------------------------
// List parts
// ---------------------------------------------------------------------------

/// One element of a field's list.
#[derive(Debug, Clone, Copy, PartialEq, Eq, Structural)]
pub enum Part {
    /// Every `step`-th value from `low` to `high`.
    Range { low: u32, high: u32, step: u32 },
    /// One value chosen from `low` to `high`.
    Random { low: u32, high: u32 },
    /// Every `step`-th value up to `high`, from one chosen in the first step.
    RandomStep { low: u32, high: u32, step: u32 },
}

/// Text before the first `c`.
pub open spec fn before(s: Seq<char>, c: char) -> Seq<char> {
    s.take(crate::text::first_of(s, c))
}

/// Text after the first `c`.
pub open spec fn after(s: Seq<char>, c: char) -> Seq<char> {
    s.skip(crate::text::first_of(s, c) + 1)
}

/// The step written after `/`, 1 without one; it must be positive.
pub open spec fn step_of(part: Seq<char>) -> Option<u32> {
    if part.contains('/') {
        match number(after(part, '/')) {
            Some(n) => if n <= 0 {
                None
            } else {
                Some(n as u32)
            },
            None => None,
        }
    } else {
        Some(1)
    }
}

/// A bound of a random range: any number, or the value of a name, and a
/// default if nothing is written.
pub open spec fn bound_of(s: Seq<char>, field: Field, default: u32) -> Option<i32> {
    if s.len() == 0 {
        Some(default as i32)
    } else if number(s) is Some {
        number(s)
    } else {
        match value_of(s, field) {
            Some(v) => Some(v as i32),
            None => None,
        }
    }
}

/// The values of a field between two bounds. Only the value that is picked has
/// to lie in the field, so that the bounds need not.
pub open spec fn within(low: i32, high: i32, field: Field) -> Option<(u32, u32)> {
    let first = if low < field.min() {
        field.min() as int
    } else {
        low as int
    };
    let last = if high > field.max() {
        field.max() as int
    } else {
        high as int
    };
    if low <= high && first <= last {
        Some((first as u32, last as u32))
    } else {
        None
    }
}

fn parse_bound(s: &[char], field: Field, default: u32) -> (r: Result<i32, ScheduleError>)
    requires
        default <= 59,
    ensures
        match bound_of(s@, field, default) {
            Some(v) => r == Ok::<i32, ScheduleError>(v),
            None => r == Err::<i32, ScheduleError>(field.err()),
        },
{
    if s.len() == 0 {
        return Ok(default as i32);
    }
    if let Some(n) = parse_plain_number(s) {
        return Ok(n);
    }
    proof {
        lemma_value_bounds(s@, field);
    }
    match parse_value(s, field) {
        Ok(v) => Ok(v as i32),
        Err(e) => Err(e),
    }
}

fn clip(low: i32, high: i32, field: Field) -> (r: Option<(u32, u32)>)
    ensures
        r == within(low, high, field),
{
    let (min, max) = field.bounds();
    let first: i32 = if low < min as i32 {
        min as i32
    } else {
        low
    };
    let last: i32 = if high > max as i32 {
        max as i32
    } else {
        high
    };
    if low <= high && first <= last {
        Some((first as u32, last as u32))
    } else {
        None
    }
}

/// What a list element selects, if it is well formed.
pub open spec fn part_of(part: Seq<char>, field: Field) -> Option<Part> {
    let stepped = part.contains('/');
    let base = before(part, '/');
    match step_of(part) {
        None => None,
        Some(step) => if base == seq!['*'] {
            Some(Part::Range { low: field.min(), high: field.max(), step })
        } else if base.contains('~') {
            let lo = before(base, '~');
            let hi = after(base, '~');
            match (bound_of(lo, field, field.min()), bound_of(hi, field, field.max())) {
                (Some(a), Some(b)) => match within(a, b, field) {
                    None => None,
                    Some((low, high)) => if stepped {
                        Some(Part::RandomStep { low, high, step })
                    } else {
                        Some(Part::Random { low, high })
                    },
                },
                _ => None,
            }
        } else if base.contains('-') {
            match (value_of(before(base, '-'), field), value_of(after(base, '-'), field)) {
                (Some(low), Some(high)) => if low > high {
                    None
                } else {
                    Some(Part::Range { low, high, step })
                },
                _ => None,
            }
        } else {
            match value_of(base, field) {
                Some(v) => Some(
                    Part::Range {
                        low: v,
                        high: if stepped {
                            field.max()
                        } else {
                            v
                        },
                        step,
                    },
                ),
                None => None,
            }
        },
    }
}

pub fn parse_range(part: &[char], field: Field) -> (r: Result<Part, ScheduleError>)
    ensures
        match part_of(part@, field) {
            Some(p) => r == Ok::<Part, ScheduleError>(p),
            None => r == Err::<Part, ScheduleError>(field.err()),
        },
{
    let (min, max) = field.bounds();
    let slash = find_char(part, '/');
    proof {
        crate::text::lemma_first_of(part@, '/');
    }
    let stepped = slash < part.len();
    let base = &part[0..slash];
    assert(base@ =~= before(part@, '/'));
    let step: u32 = if stepped {
        let digits = &part[slash + 1..part.len()];
        assert(digits@ =~= after(part@, '/'));
        match parse_plain_number(digits) {
            Some(n) => {
                if n <= 0 {
                    return Err(field.error());
                }
                n as u32
            },
            None => return Err(field.error()),
        }
    } else {
        1
    };
    let star: [char; 1] = ['*'];
    assert(star@ =~= seq!['*']);
    if same(base, star.as_slice()) {
        return Ok(Part::Range { low: min, high: max, step });
    }
    let tilde = find_char(base, '~');
    proof {
        crate::text::lemma_first_of(base@, '~');
    }
    if tilde < base.len() {
        let lo = &base[0..tilde];
        let hi = &base[tilde + 1..base.len()];
        assert(lo@ =~= before(base@, '~'));
        assert(hi@ =~= after(base@, '~'));
        let a = match parse_bound(lo, field, min) {
            Ok(v) => v,
            Err(e) => return Err(e),
        };
        let b = match parse_bound(hi, field, max) {
            Ok(v) => v,
            Err(e) => return Err(e),
        };
        let (low, high) = match clip(a, b, field) {
            Some(v) => v,
            None => return Err(field.error()),
        };
        return if stepped {
            Ok(Part::RandomStep { low, high, step })
        } else {
            Ok(Part::Random { low, high })
        };
    }
    let dash = find_char(base, '-');
    proof {
        crate::text::lemma_first_of(base@, '-');
    }
    if dash < base.len() {
        let lo = &base[0..dash];
        let hi = &base[dash + 1..base.len()];
        assert(lo@ =~= before(base@, '-'));
        assert(hi@ =~= after(base@, '-'));
        let low: u32 = match parse_value(lo, field) {
            Ok(v) => v,
            Err(e) => return Err(e),
        };
        let high: u32 = match parse_value(hi, field) {
            Ok(v) => v,
            Err(e) => return Err(e),
        };
        if low > high {
            return Err(field.error());
        }
        return Ok(Part::Range { low, high, step });
    }
    let value: u32 = match parse_value(base, field) {
        Ok(v) => v,
        Err(e) => return Err(e),
    };
    Ok(
        Part::Range {
            low: value,
            high: if stepped {
                max
            } else {
                value
            },
            step,
        },
    )
}

// ---------------------------------------------------------------------------
// Fields
// ---------------------------------------------------------------------------

/// The elements of a comma-separated list, none of which may be empty.
pub open spec fn parts_of(token: Seq<char>, field: Field) -> Option<Seq<Part>>
    decreases token.len(),
{
    proof {
        crate::text::lemma_first_of(token, ',');
    }
    let n = crate::text::first_of(token, ',');
    let head = token.take(n);
    match part_of(head, field) {
        Some(p) => if head.len() == 0 {
            None
        } else if n >= token.len() {
            Some(seq![p])
        } else {
            match parts_of(token.skip(n + 1), field) {
                Some(rest) => Some(seq![p] + rest),
                None => None,
            }
        },
        None => None,
    }
}

/// A parsed field: its list, and whether it was written starting with `*`.
pub struct FieldModel {
    pub parts: Seq<Part>,
    pub star: bool,
}

pub open spec fn field_of(token: Seq<char>, field: Field) -> Option<FieldModel> {
    match parts_of(token, field) {
        Some(parts) => Some(FieldModel { parts, star: token.len() > 0 && token[0] == '*' }),
        None => None,
    }
}

/// A parsed field.
#[derive(Debug)]
pub struct FieldSpec {
    pub parts: Vec<Part>,
    /// Field started with `*` (with or without a step).
    pub star: bool,
}

impl View for FieldSpec {
    type V = FieldModel;

    open spec fn view(&self) -> FieldModel {
        FieldModel { parts: self.parts@, star: self.star }
    }
}

#[verifier::spinoff_prover]
#[verifier::rlimit(40)]
pub fn parse_field(token: &[char], field: Field) -> (r: Result<FieldSpec, ScheduleError>)
    ensures
        match field_of(token@, field) {
            Some(f) => r matches Ok(g) && g@ == f,
            None => r matches Err(e) && e == field.err(),
        },
{
    let star = token.len() > 0 && token[0] == '*';
    let mut parts: Vec<Part> = Vec::new();
    let mut pos: usize = 0;
    let ghost whole = parts_of(token@, field);
    assert(token@.skip(0) =~= token@);
    loop
        invariant
            pos <= token@.len(),
            whole == parts_of(token@, field),
            star == (token@.len() > 0 && token@[0] == '*'),
            match parts_of(token@.skip(pos as int), field) {
                Some(rest) => whole == Some(parts@ + rest),
                None => whole is None,
            },
        decreases token@.len() - pos,
    {
        let tail = &token[pos..token.len()];
        assert(tail@ =~= token@.skip(pos as int));
        let n = find_char(tail, ',');
        let head = &tail[0..n];
        assert(head@ =~= tail@.take(n as int));
        let part = match parse_range(head, field) {
            Ok(p) => p,
            Err(e) => return Err(e),
        };
        if n == 0 {
            return Err(field.error());
        }
        let ghost before_push = parts@;
        parts.push(part);
        assert(before_push + seq![part] =~= parts@);
        if n >= tail.len() {
            return Ok(FieldSpec { parts, star });
        }
        assert(tail@.skip(n + 1) =~= token@.skip(pos + n + 1));
        proof {
            match parts_of(tail@.skip(n + 1), field) {
                Some(rest) => {
                    assert(before_push + (seq![part] + rest) =~= parts@ + rest);
                },
                None => {},
            }
        }
        pos = pos + n + 1;
    }
}

/// The first word of `s`.
pub open spec fn first_word(s: Seq<char>) -> Seq<char> {
    s.take(crate::text::first_white(s))
}

/// What follows the first word of `s` and the white space after it.
pub open spec fn after_word(s: Seq<char>) -> Seq<char> {
    crate::text::trim_start(s.skip(crate::text::first_white(s)))
}

/// The fields from position `k` on, read from `s`, and the text after them.
pub open spec fn fields_from(s: Seq<char>, k: int) -> Result<
    (Seq<FieldModel>, Seq<char>),
    ScheduleError,
>
    decreases 5 - k,
{
    if k >= 5 {
        Ok((seq![], s))
    } else if first_word(s).len() == 0 {
        Err(Field::at(k).err())
    } else {
        match field_of(first_word(s), Field::at(k)) {
            None => Err(Field::at(k).err()),
            Some(f) => match fields_from(after_word(s), k + 1) {
                Err(e) => Err(e),
                Ok((rest, tail)) => Ok((seq![f] + rest, tail)),
            },
        }
    }
}

pub open spec fn views(fields: Seq<FieldSpec>) -> Seq<FieldModel> {
    fields.map_values(|f: FieldSpec| f@)
}

/// Reads five fields from `line[start..]`; also returns where they end.
fn read_fields(line: &[char], start: usize) -> (r: Result<(Vec<FieldSpec>, usize), ScheduleError>)
    requires
        start <= line@.len(),
    ensures
        match fields_from(line@.skip(start as int), 0) {
            Ok((fields, tail)) => r matches Ok((f, pos)) && pos <= line@.len() && views(f@)
                == fields && f@.len() == 5 && line@.skip(pos as int) == tail,
            Err(e) => r matches Err(x) && x == e,
        },
{
    let mut pos: usize = start;
    let mut fields: Vec<FieldSpec> = Vec::new();
    let mut k: usize = 0;
    let ghost whole = fields_from(line@.skip(start as int), 0);
    assert(views(fields@) =~= seq![]);
    proof {
        match whole {
            Ok((rest, tail)) => {
                assert(views(fields@) + rest =~= rest);
            },
            Err(_) => {},
        }
    }
    while k < 5
        invariant
            k <= 5,
            start <= pos <= line@.len(),
            fields@.len() == k,
            whole == fields_from(line@.skip(start as int), 0),
            match fields_from(line@.skip(pos as int), k as int) {
                Ok((rest, tail)) => whole == Ok::<(Seq<FieldModel>, Seq<char>), ScheduleError>(
                    (views(fields@) + rest, tail),
                ),
                Err(e) => whole == Err::<(Seq<FieldModel>, Seq<char>), ScheduleError>(e),
            },
        decreases 5 - k,
    {
        let field = Field::nth(k);
        let tail = &line[pos..line.len()];
        assert(tail@ =~= line@.skip(pos as int));
        let n = find_white(tail);
        let token = &tail[0..n];
        assert(token@ =~= first_word(tail@));
        if n == 0 {
            return Err(field.error());
        }
        let f = match parse_field(token, field) {
            Ok(f) => f,
            Err(e) => return Err(e),
        };
        let ghost model = f@;
        let ghost old_fields = fields@;
        let blank = skip_white(&tail[n..tail.len()]);
        assert(tail@.subrange(n as int, tail@.len() as int) =~= tail@.skip(n as int));
        assert(after_word(tail@) =~= line@.skip(pos + n + blank));
        fields.push(f);
        assert(views(fields@) =~= views(old_fields) + seq![model]);
        proof {
            match fields_from(after_word(tail@), k + 1) {
                Ok((rest, t)) => {
                    assert(views(old_fields) + (seq![model] + rest) =~= views(fields@) + rest);
                },
                Err(_) => {},
            }
        }
        pos = pos + n + blank;
        k += 1;
    }
    assert(views(fields@) + Seq::<FieldModel>::empty() =~= views(fields@));
    Ok((fields, pos))
}

/// What a shortcut name stands for: `Some(None)` for `reboot`.
pub open spec fn shortcut(name: Seq<char>) -> Option<Option<Seq<char>>> {
    let name = crate::text::lower_seq(name);
    if name == "reboot"@ {
        Some(None)
    } else if name == "yearly"@ || name == "annually"@ {
        Some(Some("0 0 1 1 *"@))
    } else if name == "monthly"@ {
        Some(Some("0 0 1 * *"@))
    } else if name == "weekly"@ {
        Some(Some("0 0 * * 0"@))
    } else if name == "daily"@ || name == "midnight"@ {
        Some(Some("0 0 * * *"@))
    } else if name == "hourly"@ {
        Some(Some("0 * * * *"@))
    } else {
        None
    }
}

fn shortcut_spec(name: &[char]) -> (r: Option<Option<&'static str>>)
    ensures
        match shortcut(name@) {
            Some(Some(s)) => r matches Some(Some(t)) && t@ == s,
            Some(None) => r matches Some(None),
            None => r is None,
        },
{
    let low = lower_chars(name);
    let name = low.as_slice();
    if same(name, chars_of("reboot").as_slice()) {
        Some(None)
    } else if same(name, chars_of("yearly").as_slice()) || same(
        name,
        chars_of("annually").as_slice(),
    ) {
        Some(Some("0 0 1 1 *"))
    } else if same(name, chars_of("monthly").as_slice()) {
        Some(Some("0 0 1 * *"))
    } else if same(name, chars_of("weekly").as_slice()) {
        Some(Some("0 0 * * 0"))
    } else if same(name, chars_of("daily").as_slice()) || same(
        name,
        chars_of("midnight").as_slice(),
    ) {
        Some(Some("0 0 * * *"))
    } else if same(name, chars_of("hourly").as_slice()) {
        Some(Some("0 * * * *"))
    } else {
        None
    }
}

/// The time specification at the start of `line` (`None` for `@reboot`), and
/// the text after it.
pub open spec fn prefix_of(line: Seq<char>) -> Result<
    (Option<Seq<FieldModel>>, Seq<char>),
    ScheduleError,
> {
    let line = crate::text::trim_start(line);
    if line.len() > 0 && line[0] == '@' {
        let name = first_word(line.skip(1));
        let rest = after_word(line.skip(1));
        match shortcut(name) {
            None => Err(ScheduleError::BadTimeSpecifier),
            Some(None) => Ok((None, rest)),
            Some(Some(text)) => match fields_from(crate::text::trim_start(text), 0) {
                Ok((fields, _)) => Ok((Some(fields), rest)),
                Err(e) => Err(e),
            },
        }
    } else {
        match fields_from(line, 0) {
            Ok((fields, rest)) => Ok((Some(fields), rest)),
            Err(e) => Err(e),
        }
    }
}

/// Reads a time specification: the fields, or `None` for `@reboot`, and the
/// position of the text after it.
fn read_prefix(line: &[char]) -> (r: Result<(Option<Vec<FieldSpec>>, usize), ScheduleError>)
    ensures
        match prefix_of(line@) {
            Ok((Some(fields), tail)) => r matches Ok((Some(f), pos)) && pos <= line@.len()
                && views(f@) == fields && f@.len() == 5 && line@.skip(pos as int) == tail,
            Ok((None, tail)) => r matches Ok((None, pos)) && pos <= line@.len() && line@.skip(
                pos as int,
            ) == tail,
            Err(e) => r matches Err(x) && x == e,
        },
{
    let start = skip_white(line);
    assert(line@.skip(start as int) == crate::text::trim_start(line@));
    if start < line.len() && line[start] == '@' {
        let rest = &line[start + 1..line.len()];
        assert(rest@ =~= crate::text::trim_start(line@).skip(1));
        let n = find_white(rest);
        let name = &rest[0..n];
        assert(name@ =~= first_word(rest@));
        let blank = skip_white(&rest[n..rest.len()]);
        assert(rest@.subrange(n as int, rest@.len() as int) =~= rest@.skip(n as int));
        let pos = start + 1 + n + blank;
        assert(line@.skip(pos as int) =~= after_word(rest@));
        match shortcut_spec(name) {
            None => Err(ScheduleError::BadTimeSpecifier),
            Some(None) => Ok((None, pos)),
            Some(Some(text)) => {
                let chars = chars_of(text);
                let from = skip_white(chars.as_slice());
                match read_fields(chars.as_slice(), from) {
                    Ok((fields, _)) => Ok((Some(fields), pos)),
                    Err(e) => Err(e),
                }
            },
        }
    } else {
        match read_fields(line, start) {
            Ok((fields, pos)) => Ok((Some(fields), pos)),
            Err(e) => Err(e),
        }
    }
}

// ---------------------------------------------------------------------------
// Warnings
// ---------------------------------------------------------------------------

/// A step that is larger than every value of its field. It is accepted, but
/// skips everything behind the first value.
#[derive(Debug, Clone, Copy, PartialEq, Eq, Structural)]
pub struct StepWarning {
    pub step: u32,
    pub max: u32,
}

impl StepWarning {
    pub open spec fn text(self) -> Seq<char> {
        "Warning: Step size "@ + crate::text::decimal_text(self.step as nat)
            + " higher than possible maximum of "@ + crate::text::decimal_text(self.max as nat)
    }

    /// The message shown to users.
    pub fn message(&self) -> (r: String)
        ensures
            r@ == self.text(),
    {
        let mut s = "Warning: Step size ".to_owned();
        s.append(number_text(self.step as u64).as_str());
        s.append(" higher than possible maximum of ");
        s.append(number_text(self.max as u64).as_str());
        s
    }
}

/// The step of a part, 1 without one.
pub open spec fn step_in(p: Part) -> u32 {
    match p {
        Part::Range { step, .. } => step,
        Part::Random { .. } => 1,
        Part::RandomStep { step, .. } => step,
    }
}

/// The warnings about the elements of a field's list.
pub open spec fn list_warnings(parts: Seq<Part>, field: Field) -> Seq<StepWarning>
    decreases parts.len(),
{
    if parts.len() == 0 {
        seq![]
    } else {
        let before = list_warnings(parts.drop_last(), field);
        let step = step_in(parts.last());
        if step > field.max() {
            before.push(StepWarning { step, max: field.max() })
        } else {
            before
        }
    }
}

/// The warnings about the first `k` fields.
pub open spec fn field_warnings(fields: Seq<FieldModel>, k: int) -> Seq<StepWarning>
    decreases k,
{
    if k <= 0 {
        seq![]
    } else {
        field_warnings(fields, k - 1) + list_warnings(fields[k - 1].parts, Field::at(k - 1))
    }
}

/// The warnings about the time specification at the start of a line; none
/// about a bad one.
pub open spec fn line_warnings(line: Seq<char>) -> Seq<StepWarning> {
    match prefix_of(line) {
        Ok((Some(fields), _)) => field_warnings(fields, 5),
        _ => seq![],
    }
}

fn push_warnings(out: &mut Vec<StepWarning>, parts: &Vec<Part>, field: Field)
    ensures
        final(out)@ == old(out)@ + list_warnings(parts@, field),
{
    let ghost before = out@;
    let (_, max) = field.bounds();
    let mut i: usize = 0;
    assert(parts@.take(0) =~= seq![]);
    assert(before + Seq::<StepWarning>::empty() =~= before);
    while i < parts.len()
        invariant
            i <= parts@.len(),
            max == field.max(),
            out@ == before + list_warnings(parts@.take(i as int), field),
        decreases parts@.len() - i,
    {
        let ghost done = list_warnings(parts@.take(i as int), field);
        assert(parts@.take(i + 1).drop_last() =~= parts@.take(i as int));
        assert(parts@.take(i + 1).last() == parts@[i as int]);
        let step: u32 = match parts[i] {
            Part::Range { step, .. } => step,
            Part::Random { .. } => 1,
            Part::RandomStep { step, .. } => step,
        };
        if step > max {
            out.push(StepWarning { step, max });
            assert((before + done).push(StepWarning { step, max }) =~= before + done.push(
                StepWarning { step, max },
            ));
        }
        i += 1;
    }
    assert(parts@.take(parts@.len() as int) =~= parts@);
}

/// The warnings about the time specification at the start of `line`.
pub fn step_warnings(line: &[char]) -> (r: Vec<StepWarning>)
    ensures
        r@ == line_warnings(line@),
{
    let mut out: Vec<StepWarning> = Vec::new();
    if let Ok((Some(fields), _)) = read_prefix(line) {
        let ghost models = views(fields@);
        let mut k: usize = 0;
        while k < 5
            invariant
                k <= 5,
                fields@.len() == 5,
                models == views(fields@),
                out@ == field_warnings(models, k as int),
            decreases 5 - k,
        {
            push_warnings(&mut out, &fields[k].parts, Field::nth(k));
            k += 1;
        }
    }
    out
}

// ---------------------------------------------------------------------------
// Random parts
// ---------------------------------------------------------------------------

/// The range a part leaves to chance; `(0, 0)` for a part that leaves none.
pub open spec fn request(p: Part) -> (u32, u32) {
    match p {
        Part::Range { .. } => (0, 0),
        Part::Random { low, high } => (low, high),
        Part::RandomStep { low, high, step } => (
            low,
            if low + step - 1 < high {
                (low + step - 1) as u32
            } else {
                high
            },
        ),
    }
}

/// The range that remains of a part once its random choice fell on `draw`.
pub open spec fn fixed(p: Part, draw: u32) -> Part {
    match p {
        Part::Range { .. } => p,
        Part::Random { .. } => Part::Range { low: draw, high: draw, step: 1 },
        Part::RandomStep { low, high, step } => Part::Range { low: draw, high, step },
    }
}

/// Does a part without a random choice select `v`?
pub open spec fn selects(p: Part, v: int) -> bool {
    match p {
        Part::Range { low, high, step } => low <= v && v <= high && (v - low) % (step as int) == 0,
        _ => false,
    }
}

pub open spec fn part_ok(p: Part, field: Field) -> bool {
    match p {
        Part::Range { low, high, step } => field.min() <= low && low <= high && high <= field.max()
            && step > 0,
        Part::Random { low, high } => field.min() <= low && low <= high && high <= field.max(),
        Part::RandomStep { low, high, step } => field.min() <= low && low <= high && high
            <= field.max() && step > 0,
    }
}

pub open spec fn parts_ok(parts: Seq<Part>, field: Field) -> bool {
    forall|i: int| 0 <= i < parts.len() ==> part_ok(#[trigger] parts[i], field)
}

pub open spec fn fields_ok(fields: Seq<FieldModel>) -> bool {
    &&& fields.len() == 5
    &&& forall|k: int|
        0 <= k < 5 ==> parts_ok((#[trigger] fields[k]).parts, Field::at(k))
}

proof fn lemma_first_named_bounds(list: Seq<Seq<char>>, p: Seq<char>)
    ensures
        0 <= first_named(list, p) <= list.len(),
    decreases list.len(),
{
    if list.len() > 0 && !crate::text::has_prefix(list[0], p) {
        lemma_first_named_bounds(list.skip(1), p);
    }
}

/// Values read from a field lie within its bounds.
pub proof fn lemma_value_bounds(s: Seq<char>, field: Field)
    ensures
        value_of(s, field) matches Some(v) ==> field.min() <= v <= field.max(),
{
    lemma_first_named_bounds(field.name_list(), crate::text::lower_seq(s));
}

pub proof fn lemma_part_ok(part: Seq<char>, field: Field)
    ensures
        part_of(part, field) matches Some(p) ==> part_ok(p, field),
{
    let base = before(part, '/');
    lemma_value_bounds(base, field);
    lemma_value_bounds(before(base, '~'), field);
    lemma_value_bounds(after(base, '~'), field);
    lemma_value_bounds(before(base, '-'), field);
    lemma_value_bounds(after(base, '-'), field);
}

pub proof fn lemma_parts_ok(token: Seq<char>, field: Field)
    ensures
        parts_of(token, field) matches Some(ps) ==> parts_ok(ps, field),
    decreases token.len(),
{
    crate::text::lemma_first_of(token, ',');
    let n = crate::text::first_of(token, ',');
    lemma_part_ok(token.take(n), field);
    if n < token.len() {
        lemma_parts_ok(token.skip(n + 1), field);
    }
}

pub proof fn lemma_fields_ok(s: Seq<char>, k: int)
    requires
        0 <= k <= 5,
    ensures
        fields_from(s, k) matches Ok((fs, _)) ==> {
            &&& fs.len() == 5 - k
            &&& forall|i: int|
                0 <= i < 5 - k ==> parts_ok((#[trigger] fs[i]).parts, Field::at(k + i))
        },
    decreases 5 - k,
{
    if k < 5 {
        lemma_parts_ok(first_word(s), Field::at(k));
        lemma_fields_ok(after_word(s), k + 1);
        if let Ok((fs, _)) = fields_from(s, k) {
            let rest = fields_from(after_word(s), k + 1)->Ok_0.0;
            assert forall|i: int| 0 <= i < 5 - k implies parts_ok(
                (#[trigger] fs[i]).parts,
                Field::at(k + i),
            ) by {
                if i > 0 {
                    assert(fs[i] == rest[i - 1]);
                }
            }
        }
    }
}

/// One random choice for every part of every field, each within the range
/// that its part asks for.
pub open spec fn admissible(fields: Seq<FieldModel>, draws: Seq<Seq<u32>>) -> bool {
    &&& draws.len() == fields.len()
    &&& forall|k: int|
        0 <= k < fields.len() ==> (#[trigger] draws[k]).len() == fields[k].parts.len()
    &&& forall|k: int, i: int|
        0 <= k < fields.len() && 0 <= i < fields[k].parts.len() ==> request(
            fields[k].parts[i],
        ).0 <= #[trigger] draws[k][i] <= request(fields[k].parts[i]).1
}

pub open spec fn draw_views(draws: Seq<Vec<u32>>) -> Seq<Seq<u32>> {
    draws.map_values(|d: Vec<u32>| d@)
}

/// Is `v` selected by one of the parts, given the random choices?
pub open spec fn chosen(parts: Seq<Part>, draws: Seq<u32>, v: int) -> bool {
    exists|i: int|
        0 <= i < parts.len() && selects(fixed(#[trigger] parts[i], draws[i]), v)
}

/// `rand::Rng::random_range` of the thread's generator: some number from
/// `low` to `high`.
#[verifier::external_body]
fn random_range(low: u32, high: u32) -> (r: u32)
    requires
        low <= high,
    ensures
        low <= r <= high,
{
    rand::Rng::random_range(&mut rand::rng(), low..=high)
}

fn request_of(p: Part) -> (r: (u32, u32))
    requires
        exists|field: Field| part_ok(p, field),
    ensures
        r == request(p),
{
    match p {
        Part::Range { .. } => (0, 0),
        Part::Random { low, high } => (low, high),
        Part::RandomStep { low, high, step } => {
            if step - 1 < high - low {
                (low, low + (step - 1))
            } else {
                (low, high)
            }
        },
    }
}

/// The bits of every `step`-th value from `low` to `high`.
pub fn bits_between(low: u32, high: u32, step: u32) -> (r: u64)
    requires
        high < 64,
        step > 0,
    ensures
        forall|v: int| #[trigger]
            crate::bits::bit(r, v) == selects(Part::Range { low, high, step }, v),
{
    let mut bits: u64 = 0;
    proof {
        assert forall|w: int| !#[trigger] crate::bits::bit(bits, w) by {
            crate::bits::lemma_bit_none(w);
        }
    }
    if low > high {
        return bits;
    }
    let ghost part = Part::Range { low, high, step };
    let mut v: u32 = low;
    let ghost mut k: int = 0;
    assert(0 * (step as int) == 0);
    loop
        invariant
            part == (Part::Range { low, high, step }),
            low <= v <= high < 64,
            step > 0,
            v - low == k * (step as int),
            forall|w: int| #[trigger]
                crate::bits::bit(bits, w) == (w < v && selects(part, w)),
        decreases high - v,
    {
        let ghost prior = bits;
        bits = with_bit(bits, v);
        proof {
            let st = step as int;
            assert forall|w: int| #[trigger]
                crate::bits::bit(bits, w) == (w < v + st && selects(part, w)) by {
                assert(crate::bits::bit(prior, w) == (w < v && selects(part, w)));
                if v <= w < v + st {
                    vstd::arithmetic::div_mod::lemma_fundamental_div_mod_converse(
                        w - low,
                        st,
                        k,
                        w - v,
                    );
                }
            }
        }
        if high - v < step {
            return bits;
        }
        proof {
            assert((k + 1) * (step as int) == k * (step as int) + step) by (nonlinear_arith);
            k = k + 1;
        }
        v = v + step;
    }
}

/// The bits a field selects, given the random choices of its parts.
fn field_bits(parts: &Vec<Part>, draws: &Vec<u32>, field: Field) -> (r: u64)
    requires
        parts_ok(parts@, field),
        draws@.len() == parts@.len(),
        forall|i: int|
            0 <= i < parts@.len() ==> request(parts@[i]).0 <= #[trigger] draws@[i] <= request(
                parts@[i],
            ).1,
    ensures
        forall|v: int| #[trigger]
            crate::bits::bit(r, v) == chosen(parts@, draws@, v),
        forall|v: int| #[trigger]
            crate::bits::bit(r, v) ==> field.min() <= v <= field.max(),
{
    let mut bits: u64 = 0;
    proof {
        assert forall|w: int| !#[trigger] crate::bits::bit(bits, w) by {
            crate::bits::lemma_bit_none(w);
        }
    }
    let mut n: usize = 0;
    while n < parts.len()
        invariant
            n <= parts@.len(),
            parts_ok(parts@, field),
            draws@.len() == parts@.len(),
            forall|i: int|
                0 <= i < parts@.len() ==> request(parts@[i]).0 <= #[trigger] draws@[i] <= request(
                    parts@[i],
                ).1,
            forall|v: int| #[trigger]
                crate::bits::bit(bits, v) <==> exists|i: int|
                    0 <= i < n && selects(fixed(#[trigger] parts@[i], draws@[i]), v),
            forall|v: int| #[trigger]
                crate::bits::bit(bits, v) ==> field.min() <= v <= field.max(),
        decreases parts@.len() - n,
    {
        let draw: u32 = draws[n];
        let ghost part = parts@[n as int];
        assert(part_ok(part, field));
        let more: u64 = match parts[n] {
            Part::Range { low, high, step } => bits_between(low, high, step),
            Part::Random { .. } => bits_between(draw, draw, 1),
            Part::RandomStep { high, step, .. } => bits_between(draw, high, step),
        };
        let ghost prior = bits;
        bits = bits | more;
        proof {
            assert forall|v: int| #[trigger]
                crate::bits::bit(bits, v) <==> exists|i: int|
                    0 <= i < n + 1 && selects(fixed(#[trigger] parts@[i], draws@[i]), v) by {
                crate::bits::lemma_bit_union(prior, more, v);
                assert(crate::bits::bit(more, v) == selects(fixed(part, draw), v));
                if crate::bits::bit(prior, v) {
                    let i = choose|i: int|
                        0 <= i < n && selects(fixed(#[trigger] parts@[i], draws@[i]), v);
                    assert(selects(fixed(parts@[i], draws@[i]), v));
                }
            }
            assert forall|v: int| #[trigger] crate::bits::bit(bits, v) implies field.min() <= v
                <= field.max() by {
                crate::bits::lemma_bit_union(prior, more, v);
                assert(crate::bits::bit(more, v) == selects(fixed(part, draw), v));
            }
        }
        n += 1;
    }
    bits
}

// ---------------------------------------------------------------------------
// Schedules
// ---------------------------------------------------------------------------

/// A parsed cron time specification.
#[derive(Debug, Clone, Copy, PartialEq, Eq, Structural)]
pub struct Schedule {
    minutes: u64,
    hours: u64,
    days_of_month: u64,
    months: u64,
    days_of_week: u64,
    /// Field started with `*` (with or without a step).
    minute_star: bool,
    hour_star: bool,
    dom_star: bool,
    dow_star: bool,
    /// `@reboot`: run once when the daemon starts.
    reboot: bool,
}

impl Schedule {
    /// Does the field at position `k` admit the value `v`? Sunday is 0 only.
    pub closed spec fn has(self, k: int, v: int) -> bool {
        crate::bits::bit(
            if k == 0 {
                self.minutes
            } else if k == 1 {
                self.hours
            } else if k == 2 {
                self.days_of_month
            } else if k == 3 {
                self.months
            } else {
                self.days_of_week
            },
            v,
        )
    }

    /// Was the field at position `k` written starting with `*`? Not kept for
    /// the month.
    pub closed spec fn star(self, k: int) -> bool {
        if k == 0 {
            self.minute_star
        } else if k == 1 {
            self.hour_star
        } else if k == 2 {
            self.dom_star
        } else {
            self.dow_star
        }
    }

    pub closed spec fn rebooting(self) -> bool {
        self.reboot
    }

    /// Is this the `@reboot` schedule, which admits no time?
    pub open spec fn boots(self) -> bool {
        &&& self.rebooting()
        &&& forall|k: int, v: int| !#[trigger] self.has(k, v)
        &&& forall|k: int| !#[trigger] self.star(k)
    }

    /// Does the date of `t` satisfy the two day fields? Either one does if
    /// both are restricted, both must otherwise.
    pub open spec fn day_fits(self, t: WallTime) -> bool {
        if self.star(2) || self.star(4) {
            self.has(2, t.day as int) && self.has(4, t.weekday())
        } else {
            self.has(2, t.day as int) || self.has(4, t.weekday())
        }
    }

    pub open spec fn fires(self, t: WallTime) -> bool {
        &&& !self.rebooting()
        &&& self.has(0, t.minute as int)
        &&& self.has(1, t.hour as int)
        &&& self.has(3, t.month as int)
        &&& self.day_fits(t)
    }

    /// Is this the schedule of the given fields and random choices?
    pub open spec fn described_by(self, fields: Seq<FieldModel>, draws: Seq<Seq<u32>>) -> bool {
        &&& !self.rebooting()
        &&& self.star(0) == fields[0].star
        &&& self.star(1) == fields[1].star
        &&& self.star(2) == fields[2].star
        &&& self.star(4) == fields[4].star
        &&& forall|k: int, v: int|
            0 <= k < 4 ==> #[trigger] self.has(k, v) == chosen(fields[k].parts, draws[k], v)
        &&& forall|v: int| #[trigger]
            self.has(4, v) == (v != 7 && chosen(fields[4].parts, draws[4], v) || v == 0 && chosen(
                fields[4].parts,
                draws[4],
                7,
            ))
    }

    fn from_fields(fields: &Vec<FieldSpec>, draws: &Vec<Vec<u32>>) -> (r: Schedule)
        requires
            fields_ok(views(fields@)),
            admissible(views(fields@), draw_views(draws@)),
        ensures
            r.described_by(views(fields@), draw_views(draws@)),
    {
        let ghost f = views(fields@);
        let ghost d = draw_views(draws@);
        proof {
            assert forall|k: int| 0 <= k < 5 implies {
                &&& f[k].parts == #[trigger] fields@[k].parts@
                &&& parts_ok(fields@[k].parts@, Field::at(k))
                &&& d[k] == draws@[k]@
                &&& d[k].len() == f[k].parts.len()
                &&& forall|i: int|
                    0 <= i < f[k].parts.len() ==> request(f[k].parts[i]).0 <= #[trigger] d[k][i]
                        <= request(f[k].parts[i]).1
            } by {
                assert(parts_ok(f[k].parts, Field::at(k)));
                assert(d[k].len() == f[k].parts.len());
            }
            assert(fields@[0].parts@ == f[0].parts);
            assert(fields@[1].parts@ == f[1].parts);
            assert(fields@[2].parts@ == f[2].parts);
            assert(fields@[3].parts@ == f[3].parts);
            assert(fields@[4].parts@ == f[4].parts);
        }
        let minutes = field_bits(&fields[0].parts, &draws[0], Field::Minute);
        let hours = field_bits(&fields[1].parts, &draws[1], Field::Hour);
        let days_of_month = field_bits(&fields[2].parts, &draws[2], Field::DayOfMonth);
        let months = field_bits(&fields[3].parts, &draws[3], Field::Month);
        let week = field_bits(&fields[4].parts, &draws[4], Field::DayOfWeek);
        // Fold Sunday-as-7 onto bit 0.
        let low: u64 = week & 0x7f;
        let days_of_week: u64 = if has_bit(week, 7) {
            low | 1
        } else {
            low
        };
        let r = Schedule {
            minutes,
            hours,
            days_of_month,
            months,
            days_of_week,
            minute_star: fields[0].star,
            hour_star: fields[1].star,
            dom_star: fields[2].star,
            dow_star: fields[4].star,
            reboot: false,
        };
        proof {
            assert forall|k: int, v: int| 0 <= k < 4 implies #[trigger] r.has(k, v) == chosen(
                f[k].parts,
                d[k],
                v,
            ) by {
                assert(r.has(0, v) == crate::bits::bit(minutes, v));
                assert(r.has(1, v) == crate::bits::bit(hours, v));
                assert(r.has(2, v) == crate::bits::bit(days_of_month, v));
                assert(r.has(3, v) == crate::bits::bit(months, v));
            }
            assert forall|v: int| #[trigger]
                r.has(4, v) == (v != 7 && chosen(f[4].parts, d[4], v) || v == 0 && chosen(
                    f[4].parts,
                    d[4],
                    7,
                )) by {
                assert(crate::bits::bit(week, v) == chosen(f[4].parts, d[4], v));
                assert(crate::bits::bit(week, 7) == chosen(f[4].parts, d[4], 7));
                if 0 <= v < 64 {
                    let w = v as u64;
                    assert((week & 0x7f) & (1u64 << w) != 0 <==> (w < 7 && week & (1u64 << w) != 0))
                        by (bit_vector)
                        requires
                            w < 64,
                    ;
                    assert(((week & 0x7f) | 1) & (1u64 << w) != 0 <==> (w == 0 || w < 7 && week & (
                    1u64 << w) != 0)) by (bit_vector)
                        requires
                            w < 64,
                    ;
                }
            }
        }
        r
    }

    /// The `@reboot` schedule.
    pub fn reboot() -> (r: Schedule)
        ensures
            r.boots(),
    {
        proof {
            assert forall|v: int| !#[trigger] crate::bits::bit(0, v) by {
                crate::bits::lemma_bit_none(v);
            }
        }
        Schedule {
            minutes: 0,
            hours: 0,
            days_of_month: 0,
            months: 0,
            days_of_week: 0,
            minute_star: false,
            hour_star: false,
            dom_star: false,
            dow_star: false,
            reboot: true,
        }
    }

    /// True for `@reboot` entries.
    pub fn is_reboot(&self) -> (r: bool)
        ensures
            r == self.rebooting(),
    {
        self.reboot
    }

    /// A "wildcard" job has `*` in its minute or hour field. This decides
    /// which jobs run when the clock jumps.
    pub open spec fn wild(self) -> bool {
        self.star(0) || self.star(1)
    }

    pub fn is_wild(&self) -> (r: bool)
        ensures
            r == self.wild(),
    {
        self.minute_star || self.hour_star
    }

    fn day_ok(&self, t: &WallTime) -> (r: bool)
        requires
            t.valid(),
        ensures
            r == self.day_fits(*t),
    {
        let dom_ok = has_bit(self.days_of_month, t.day);
        let dow_ok = has_bit(self.days_of_week, weekday_of(t));
        if self.dom_star || self.dow_star {
            dom_ok && dow_ok
        } else {
            dom_ok || dow_ok
        }
    }

    /// Does this schedule fire at the given wall-clock time? Seconds are
    /// ignored.
    pub fn matches(&self, t: &WallTime) -> (r: bool)
        requires
            t.valid(),
        ensures
            r == self.fires(*t),
    {
        if self.reboot {
            return false;
        }
        has_bit(self.minutes, t.minute) && has_bit(self.hours, t.hour) && has_bit(
            self.months,
            t.month,
        ) && self.day_ok(t)
    }
}

// ---------------------------------------------------------------------------
// Parsing
// ---------------------------------------------------------------------------

/// The random choices a list of fields asks for.
pub open spec fn asks(fields: Seq<FieldModel>, requests: Seq<Vec<(u32, u32)>>) -> bool {
    &&& requests.len() == fields.len()
    &&& forall|k: int|
        0 <= k < fields.len() ==> (#[trigger] requests[k])@.len() == fields[k].parts.len()
    &&& forall|k: int, i: int|
        0 <= k < fields.len() && 0 <= i < fields[k].parts.len() ==> #[trigger] requests[k]@[i]
            == request(fields[k].parts[i])
}

fn requests_of(fields: &Vec<FieldSpec>) -> (r: Vec<Vec<(u32, u32)>>)
    requires
        fields_ok(views(fields@)),
    ensures
        asks(views(fields@), r@),
        forall|k: int, i: int|
            0 <= k < r@.len() && 0 <= i < r@[k]@.len() ==> (#[trigger] r@[k]@[i]).0 <= r@[k]@[i].1,
{
    let ghost f = views(fields@);
    let mut out: Vec<Vec<(u32, u32)>> = Vec::new();
    let mut k: usize = 0;
    while k < fields.len()
        invariant
            f == views(fields@),
            fields_ok(f),
            k <= fields@.len(),
            out@.len() == k,
            forall|j: int| 0 <= j < k ==> (#[trigger] out@[j])@.len() == f[j].parts.len(),
            forall|j: int, i: int|
                0 <= j < k && 0 <= i < f[j].parts.len() ==> #[trigger] out@[j]@[i] == request(
                    f[j].parts[i],
                ),
            forall|j: int, i: int|
                0 <= j < k && 0 <= i < out@[j]@.len() ==> (#[trigger] out@[j]@[i]).0
                    <= out@[j]@[i].1,
        decreases fields@.len() - k,
    {
        let parts = &fields[k].parts;
        assert(f[k as int].parts == parts@);
        assert(parts_ok(parts@, Field::at(k as int)));
        let mut row: Vec<(u32, u32)> = Vec::new();
        let mut i: usize = 0;
        while i < parts.len()
            invariant
                i <= parts@.len(),
                parts_ok(parts@, Field::at(k as int)),
                row@.len() == i,
                forall|j: int| 0 <= j < i ==> #[trigger] row@[j] == request(parts@[j]),
                forall|j: int| 0 <= j < i ==> (#[trigger] row@[j]).0 <= row@[j].1,
            decreases parts@.len() - i,
        {
            assert(part_ok(parts@[i as int], Field::at(k as int)));
            row.push(request_of(parts[i]));
            i += 1;
        }
        out.push(row);
        k += 1;
    }
    out
}

/// Makes the random choices.
fn draw(requests: &Vec<Vec<(u32, u32)>>) -> (r: Vec<Vec<u32>>)
    requires
        forall|k: int, i: int|
            0 <= k < requests@.len() && 0 <= i < requests@[k]@.len() ==> (
            #[trigger] requests@[k]@[i]).0 <= requests@[k]@[i].1,
    ensures
        r@.len() == requests@.len(),
        forall|k: int| 0 <= k < r@.len() ==> (#[trigger] r@[k])@.len() == requests@[k]@.len(),
        forall|k: int, i: int|
            0 <= k < r@.len() && 0 <= i < requests@[k]@.len() ==> requests@[k]@[i].0
                <= #[trigger] r@[k]@[i] <= requests@[k]@[i].1,
{
    let mut out: Vec<Vec<u32>> = Vec::new();
    let mut k: usize = 0;
    while k < requests.len()
        invariant
            k <= requests@.len(),
            forall|k: int, i: int|
                0 <= k < requests@.len() && 0 <= i < requests@[k]@.len() ==> (
                #[trigger] requests@[k]@[i]).0 <= requests@[k]@[i].1,
            out@.len() == k,
            forall|j: int| 0 <= j < k ==> (#[trigger] out@[j])@.len() == requests@[j]@.len(),
            forall|j: int, i: int|
                0 <= j < k && 0 <= i < requests@[j]@.len() ==> requests@[j]@[i].0
                    <= #[trigger] out@[j]@[i] <= requests@[j]@[i].1,
        decreases requests@.len() - k,
    {
        let row = &requests[k];
        let mut picks: Vec<u32> = Vec::new();
        let mut i: usize = 0;
        while i < row.len()
            invariant
                i <= row@.len(),
                forall|j: int| 0 <= j < row@.len() ==> (#[trigger] row@[j]).0 <= row@[j].1,
                picks@.len() == i,
                forall|j: int| 0 <= j < i ==> row@[j].0 <= #[trigger] picks@[j] <= row@[j].1,
            decreases row@.len() - i,
        {
            let (low, high) = row[i];
            assert(row@[i as int].0 <= row@[i as int].1);
            picks.push(random_range(low, high));
            i += 1;
        }
        out.push(picks);
        k += 1;
    }
    out
}

proof fn lemma_prefix_ok(line: Seq<char>)
    ensures
        prefix_of(line) matches Ok((Some(fields), _)) ==> fields_ok(fields),
{
    let t = crate::text::trim_start(line);
    lemma_fields_ok(t, 0);
    if let Some(Some(text)) = shortcut(first_word(t.skip(1))) {
        lemma_fields_ok(crate::text::trim_start(text), 0);
    }
    if let Ok((Some(fields), _)) = prefix_of(line) {
        assert forall|k: int| 0 <= k < 5 implies parts_ok(
            (#[trigger] fields[k]).parts,
            Field::at(k),
        ) by {
            assert(Field::at(0 + k) == Field::at(k));
        }
    }
}

/// An empty line holds no time specification.
pub proof fn lemma_prefix_nonempty(line: Seq<char>)
    ensures
        prefix_of(line) is Ok ==> line.len() > 0,
{
    if line.len() == 0 {
        let t = crate::text::trim_start(line);
        assert(t =~= seq![]);
        assert(first_word(t) =~= seq![]);
        assert(fields_from(t, 0) is Err);
    }
}

fn rest_from(line: &str, pos: usize) -> (r: &str)
    requires
        pos <= line@.len(),
    ensures
        r@ == line@.skip(pos as int),
{
    let n = line.unicode_len();
    let r = line.substring_char(pos, n);
    assert(r@ =~= line@.skip(pos as int));
    r
}

impl Schedule {
    /// The random choices that the time specification at the start of `line`
    /// leaves open: for every part of every field the smallest and the
    /// largest number to choose from, `(0, 0)` for a part without `~`.
    pub fn random_requests(line: &str) -> (r: Result<Vec<Vec<(u32, u32)>>, ScheduleError>)
        ensures
            match prefix_of(line@) {
                Ok((Some(fields), _)) => r matches Ok(q) && asks(fields, q@),
                Ok((None, _)) => r matches Ok(q) && q@.len() == 0,
                Err(e) => r matches Err(x) && x == e,
            },
    {
        let chars = chars_of(line);
        match read_prefix(chars.as_slice()) {
            Err(e) => Err(e),
            Ok((None, _)) => Ok(Vec::new()),
            Ok((Some(fields), _)) => {
                proof {
                    lemma_prefix_ok(line@);
                }
                Ok(requests_of(&fields))
            },
        }
    }

    /// Parse the time specification at the start of `line`.
    ///
    /// Returns the schedule and the remainder of the line (leading white
    /// space removed), which holds the user and/or command.
    pub fn parse_prefix(line: &str) -> (r: Result<(Schedule, &str), ScheduleError>)
        ensures
            match prefix_of(line@) {
                Ok((Some(fields), tail)) => r matches Ok((s, rest)) && rest@ == tail && exists|
                    draws: Seq<Seq<u32>>,
                |
                    admissible(fields, draws) && s.described_by(fields, draws),
                Ok((None, tail)) => r matches Ok((s, rest)) && rest@ == tail && s.boots(),
                Err(e) => r matches Err(x) && x == e,
            },
    {
        let chars = chars_of(line);
        match read_prefix(chars.as_slice()) {
            Err(e) => Err(e),
            Ok((None, pos)) => Ok((Schedule::reboot(), rest_from(line, pos))),
            Ok((Some(fields), pos)) => {
                proof {
                    lemma_prefix_ok(line@);
                }
                let requests = requests_of(&fields);
                let draws = draw(&requests);
                proof {
                    let f = views(fields@);
                    let d = draw_views(draws@);
                    assert forall|k: int| 0 <= k < f.len() implies (#[trigger] d[k]).len()
                        == f[k].parts.len() by {
                        assert(requests@[k]@.len() == f[k].parts.len());
                        assert(draws@[k]@.len() == requests@[k]@.len());
                    }
                    assert forall|k: int, i: int|
                        0 <= k < f.len() && 0 <= i < f[k].parts.len() implies request(
                        f[k].parts[i],
                    ).0 <= #[trigger] d[k][i] <= request(f[k].parts[i]).1 by {
                        assert(requests@[k]@.len() == f[k].parts.len());
                        assert(requests@[k]@[i] == request(f[k].parts[i]));
                        assert(draws@[k]@[i] == d[k][i]);
                    }
                    assert(admissible(f, d));
                }
                let s = Schedule::from_fields(&fields, &draws);
                Ok((s, rest_from(line, pos)))
            },
        }
    }

    /// Like [`parse_prefix`](Self::parse_prefix) but with the random choices
    /// for `~` ranges made by the caller (see
    /// [`random_requests`](Self::random_requests)).
    pub fn parse_prefix_with<'a>(line: &'a str, draws: &Vec<Vec<u32>>) -> (r: Result<
        (Schedule, &'a str),
        ScheduleError,
    >)
        requires
            prefix_of(line@) matches Ok((Some(fields), _)) ==> admissible(
                fields,
                draw_views(draws@),
            ),
        ensures
            match prefix_of(line@) {
                Ok((Some(fields), tail)) => r matches Ok((s, rest)) && rest@ == tail
                    && s.described_by(fields, draw_views(draws@)),
                Ok((None, tail)) => r matches Ok((s, rest)) && rest@ == tail && s.boots(),
                Err(e) => r matches Err(x) && x == e,
            },
    {
        let chars = chars_of(line);
        match read_prefix(chars.as_slice()) {
            Err(e) => Err(e),
            Ok((None, pos)) => Ok((Schedule::reboot(), rest_from(line, pos))),
            Ok((Some(fields), pos)) => {
                proof {
                    lemma_prefix_ok(line@);
                }
                let s = Schedule::from_fields(&fields, draws);
                Ok((s, rest_from(line, pos)))
            },
        }
    }

    /// Parse a complete five-field specification (or `@shortcut`) with no
    /// trailing text.
    pub fn parse(spec: &str) -> (r: Result<Schedule, ScheduleError>)
        ensures
            match prefix_of(spec@) {
                Ok((_, tail)) if tail.len() > 0 => r matches Err(e)
                    && e == ScheduleError::BadTimeSpecifier,
                Ok((Some(fields), _)) => r matches Ok(s) && exists|draws: Seq<Seq<u32>>|
                    admissible(fields, draws) && s.described_by(fields, draws),
                Ok((None, _)) => r matches Ok(s) && s.boots(),
                Err(e) => r matches Err(x) && x == e,
            },
    {
        match Schedule::parse_prefix(spec) {
            Err(e) => Err(e),
            Ok((s, rest)) => {
                if rest.unicode_len() == 0 {
                    Ok(s)
                } else {
                    Err(ScheduleError::BadTimeSpecifier)
                }
            },
        }
    }
}

// ---------------------------------------------------------------------------
// Searching
// ---------------------------------------------------------------------------

impl Schedule {
    /// No minute from `from` up to, not including, `to` fires.
    pub open spec fn quiet(self, from: int, to: int) -> bool {
        forall|w: WallTime|
            w.valid() && from <= w.minute_number() < to ==> !#[trigger] self.fires(w)
    }

    /// Times with equal fields down to the minute fire alike.
    pub proof fn lemma_fires_by_minute(self, a: WallTime, b: WallTime)
        requires
            a.valid(),
            b.valid(),
            a.minute_number() == b.minute_number(),
        ensures
            self.fires(a) == self.fires(b),
    {
        crate::calendar::lemma_minute_order(a, b);
    }

    proof fn lemma_quiet_month(self, t: WallTime, to: int)
        requires
            t.valid(),
            !self.has(3, t.month as int),
            forall|w: WallTime|
                #![trigger w.valid()]
                w.valid() && t.minute_number() <= w.minute_number() < to ==> w.month == t.month,
        ensures
            self.quiet(t.minute_number(), to),
    {
    }

    proof fn lemma_quiet_day(self, t: WallTime, to: int)
        requires
            t.valid(),
            !self.day_fits(t),
            to <= t.day_number() * 1440 + 1440,
        ensures
            self.quiet(t.minute_number(), to),
    {
        assert forall|w: WallTime|
            w.valid() && t.minute_number() <= w.minute_number() < to implies !#[trigger] self.fires(
            w,
        ) by {
            assert(w.day_number() == t.day_number());
            crate::calendar::lemma_date_order(w, t);
        }
    }

    proof fn lemma_quiet_hour(self, t: WallTime, to: int)
        requires
            t.valid(),
            !self.has(1, t.hour as int),
            to <= t.day_number() * 1440 + t.hour * 60 + 60,
        ensures
            self.quiet(t.minute_number(), to),
    {
        assert forall|w: WallTime|
            w.valid() && t.minute_number() <= w.minute_number() < to implies !#[trigger] self.fires(
            w,
        ) by {
            assert(w.day_number() == t.day_number());
            assert(w.hour == t.hour);
        }
    }

    /// The first wall-clock minute strictly after `after` at which this
    /// schedule fires, searching at most `max_years` years ahead.
    ///
    /// There is none if the search would run past the last representable
    /// year.
    pub fn next_after(&self, after: &WallTime, max_years: u32) -> (r: Option<WallTime>)
        requires
            after.valid(),
            12 * max_years <= u32::MAX,
        ensures
            ({
                let from = after.minute_number() + 1;
                let limit = crate::calendar::months_later(*after, 12 * max_years).minute_number();
                match r {
                    Some(t) => {
                        &&& !self.rebooting()
                        &&& after.year + max_years <= MAX_YEAR
                        &&& t.valid()
                        &&& t.second == 0
                        &&& from <= t.minute_number() <= limit
                        &&& self.fires(t)
                        &&& self.quiet(from, t.minute_number())
                    },
                    None => self.rebooting() || after.year + max_years > MAX_YEAR || self.quiet(
                        from,
                        limit + 1,
                    ),
                }
            }),
    {
        if self.reboot {
            return None;
        }
        let ghost from = after.minute_number() + 1;
        let limit = match plus_months(after, 12 * max_years) {
            Some(l) => l,
            None => return None,
        };
        let ghost end = limit.minute_number();
        let start = WallTime { second: 0, ..*after };
        let mut t = match plus_minutes(&start, 1) {
            Some(t) => t,
            None => {
                proof {
                    assert forall|w: WallTime|
                        w.valid() && from <= w.minute_number() < end + 1 implies !#[trigger] self.fires(
                        w,
                    ) by {
                        crate::calendar::lemma_second_bounds(w);
                    }
                }
                return None;
            },
        };
        loop
            invariant
                !self.reboot,
                after.valid(),
                after.year + max_years <= MAX_YEAR,
                from == after.minute_number() + 1,
                limit.valid(),
                limit == crate::calendar::months_later(*after, 12 * max_years),
                end == limit.minute_number(),
                t.valid(),
                t.second == 0,
                from <= t.minute_number(),
                self.quiet(from, t.minute_number()),
            decreases crate::calendar::end_second() - t.second_number(),
        {
            proof {
                crate::calendar::lemma_second_bounds(t);
            }
            if later(&t, &limit) {
                return None;
            }
            let ghost here = t.minute_number();
            if !has_bit(self.months, t.month) {
                // Jump to the first minute of next month.
                if t.month == 12 && t.year == MAX_YEAR {
                    proof {
                        assert forall|w: WallTime|
                            #![trigger w.valid()]
                            w.valid() && here <= w.minute_number() < end + 1 implies w.month
                            == t.month by {
                            crate::calendar::lemma_minute_order(w, t);
                        }
                        self.lemma_quiet_month(t, end + 1);
                    }
                    return None;
                }
                let next = WallTime {
                    year: if t.month == 12 {
                        t.year + 1
                    } else {
                        t.year
                    },
                    month: if t.month == 12 {
                        1
                    } else {
                        t.month + 1
                    },
                    day: 1,
                    hour: 0,
                    minute: 0,
                    second: 0,
                };
                proof {
                    crate::calendar::lemma_minute_order(t, next);
                    assert forall|w: WallTime|
                        #![trigger w.valid()]
                        w.valid() && here <= w.minute_number() < next.minute_number() implies w.month
                        == t.month by {
                        crate::calendar::lemma_minute_order(w, t);
                        crate::calendar::lemma_minute_order(next, w);
                        if w.year == next.year && w.month == next.month && w.day == next.day {
                            crate::calendar::lemma_date_order(w, next);
                        }
                    }
                    self.lemma_quiet_month(t, next.minute_number());
                }
                t = next;
            } else if !self.day_ok(&t) {
                let midnight = WallTime { hour: 0, minute: 0, ..t };
                match plus_minutes(&midnight, 1440) {
                    Some(next) => {
                        proof {
                            self.lemma_quiet_day(t, next.minute_number());
                        }
                        t = next;
                    },
                    None => {
                        proof {
                            crate::calendar::lemma_second_bounds(limit);
                            self.lemma_quiet_day(t, end + 1);
                        }
                        return None;
                    },
                }
            } else if !has_bit(self.hours, t.hour) {
                let whole = WallTime { minute: 0, ..t };
                match plus_minutes(&whole, 60) {
                    Some(next) => {
                        proof {
                            self.lemma_quiet_hour(t, next.minute_number());
                        }
                        t = next;
                    },
                    None => {
                        proof {
                            crate::calendar::lemma_second_bounds(limit);
                            self.lemma_quiet_hour(t, end + 1);
                        }
                        return None;
                    },
                }
            } else if !has_bit(self.minutes, t.minute) {
                proof {
                    assert forall|w: WallTime|
                        w.valid() && here <= w.minute_number() < here + 1 implies !#[trigger] self.fires(
                        w,
                    ) by {
                        self.lemma_fires_by_minute(w, t);
                    }
                }
                match plus_minutes(&t, 1) {
                    Some(next) => {
                        t = next;
                    },
                    None => {
                        proof {
                            crate::calendar::lemma_second_bounds(limit);
                        }
                        return None;
                    },
                }
            } else {
                return Some(t);
            }
            proof {
                crate::calendar::lemma_second_bounds(t);
            }
        }
    }
}

/// Is `a` in a later minute than `b`?
fn later(a: &WallTime, b: &WallTime) -> (r: bool)
    requires
        a.valid(),
        b.valid(),
    ensures
        r == (a.minute_number() > b.minute_number()),
{
    proof {
        crate::calendar::lemma_date_order(*b, *a);
    }
    if a.year != b.year {
        a.year > b.year
    } else if a.month != b.month {
        a.month > b.month
    } else if a.day != b.day {
        a.day > b.day
    } else if a.hour != b.hour {
        a.hour > b.hour
    } else {
        a.minute > b.minute
    }
}

// ---------------------------------------------------------------------------
// Laws
// ---------------------------------------------------------------------------

/// Whether a schedule fires does not depend on the seconds.
pub proof fn law_seconds_ignored(s: Schedule, t: WallTime, second: u32)
    requires
        t.valid(),
    ensures
        s.fires(t) == s.fires(WallTime { second, ..t }),
{
}

/// `@reboot` never fires by the clock.
pub proof fn law_reboot_never_fires(s: Schedule, t: WallTime)
    requires
        s.rebooting(),
    ensures
        !s.fires(t),
{
}

/// When neither day field begins with `*` a day fits if either field admits
/// it, otherwise only if both do.
pub proof fn law_day_fields(s: Schedule, t: WallTime)
    ensures
        !s.star(2) && !s.star(4) ==> (s.day_fits(t) <==> s.has(2, t.day as int) || s.has(
            4,
            t.weekday(),
        )),
        s.star(2) || s.star(4) ==> (s.day_fits(t) <==> s.has(2, t.day as int) && s.has(
            4,
            t.weekday(),
        )),
{
}

/// Sunday can be written 0 or 7.
pub proof fn law_sunday_seven(s: Schedule, fields: Seq<FieldModel>, draws: Seq<Seq<u32>>)
    requires
        s.described_by(fields, draws),
    ensures
        s.has(4, 0) <==> chosen(fields[4].parts, draws[4], 0) || chosen(
            fields[4].parts,
            draws[4],
            7,
        ),
        !s.has(4, 7),
{
}

/// A lone `low~high` admits exactly one value, and it lies in the range.
pub proof fn law_random_is_one_value(
    s: Schedule,
    fields: Seq<FieldModel>,
    draws: Seq<Seq<u32>>,
    k: int,
    low: u32,
    high: u32,
)
    requires
        0 <= k < 4,
        fields.len() == 5,
        fields[k].parts == seq![Part::Random { low, high }],
        admissible(fields, draws),
        s.described_by(fields, draws),
    ensures
        exists|d: int|
            low <= d <= high && #[trigger] s.has(k, d) && forall|v: int|
                #[trigger] s.has(k, v) ==> v == d,
{
    let d = draws[k][0];
    let parts = fields[k].parts;
    assert(draws[k].len() == 1);
    assert(parts[0] == (Part::Random { low, high }));
    assert(request(parts[0]).0 <= draws[k][0] <= request(parts[0]).1);
    assert(selects(fixed(parts[0], d), d as int));
    assert(s.has(k, d as int) == chosen(parts, draws[k], d as int));
    assert forall|v: int| #[trigger] s.has(k, v) implies v == d by {
        assert(chosen(parts, draws[k], v));
    }
}

/// `value/step` means `value-max/step`.
pub proof fn law_value_with_step(short: Seq<char>, long: Seq<char>, field: Field)
    requires
        short.contains('/'),
        long.contains('/'),
        after(short, '/') == after(long, '/'),
        !before(short, '/').contains('~'),
        !before(short, '/').contains('-'),
        before(short, '/') != seq!['*'],
        !before(long, '/').contains('~'),
        before(long, '/').contains('-'),
        before(before(long, '/'), '-') == before(short, '/'),
        value_of(after(before(long, '/'), '-'), field) == Some(field.max()),
    ensures
        part_of(short, field) == part_of(long, field),
{
    lemma_value_bounds(before(short, '/'), field);
    let base = before(long, '/');
    assert(base != seq!['*']) by {
        if base == seq!['*'] {
            let i = choose|i: int| 0 <= i < base.len() && base[i] == '-';
            assert(base[0] == '*');
        }
    }
}

proof fn lemma_trim_start_starts(s: Seq<char>)
    ensures
        crate::text::trim_start(s).len() == 0 || !crate::text::white(
            crate::text::trim_start(s)[0],
        ),
{
    crate::text::lemma_lead_white(s);
}

proof fn lemma_after_word(s: Seq<char>)
    ensures
        exists|n: int| 0 <= n <= s.len() && after_word(s) == s.skip(n),
        after_word(s).len() == 0 || !crate::text::white(after_word(s)[0]),
{
    let n = crate::text::first_white(s);
    crate::text::lemma_first_white(s);
    let t = s.skip(n);
    crate::text::lemma_lead_white(t);
    let m = crate::text::lead_white(t);
    assert(after_word(s) =~= s.skip(n + m));
    lemma_trim_start_starts(t);
}

proof fn lemma_fields_rest(s: Seq<char>, k: int)
    requires
        0 <= k <= 5,
    ensures
        fields_from(s, k) matches Ok((_, tail)) ==> {
            &&& exists|n: int| 0 <= n <= s.len() && tail == s.skip(n)
            &&& k < 5 ==> tail.len() == 0 || !crate::text::white(tail[0])
        },
    decreases 5 - k,
{
    if k == 5 {
        assert(s.skip(0) =~= s);
    } else if let Ok((_, tail)) = fields_from(s, k) {
        let u = after_word(s);
        lemma_after_word(s);
        lemma_fields_rest(u, k + 1);
        let n = choose|n: int| 0 <= n <= s.len() && u == s.skip(n);
        let m = choose|m: int| 0 <= m <= u.len() && tail == u.skip(m);
        assert(tail =~= s.skip(n + m));
        if k == 4 {
            assert(tail == u);
        }
    }
}

/// What is left of a line after its time specification is an end of the
/// line that does not begin with white space.
pub proof fn law_rest_is_suffix(line: Seq<char>)
    ensures
        prefix_of(line) matches Ok((_, tail)) ==> {
            &&& exists|n: int| 0 <= n <= line.len() && tail == line.skip(n)
            &&& tail.len() == 0 || !crate::text::white(tail[0])
        },
{
    crate::text::lemma_lead_white(line);
    let lead = crate::text::lead_white(line);
    let t = line.skip(lead);
    if let Ok((_, tail)) = prefix_of(line) {
        if t.len() > 0 && t[0] == '@' {
            let u = t.skip(1);
            lemma_after_word(u);
            let n = choose|n: int| 0 <= n <= u.len() && after_word(u) == u.skip(n);
            assert(tail =~= line.skip(lead + 1 + n));
        } else {
            lemma_fields_rest(t, 0);
            let n = choose|n: int| 0 <= n <= t.len() && tail == t.skip(n);
            assert(tail =~= line.skip(lead + n));
        }
    }
}

/// A schedule is nothing but what it admits.
pub proof fn law_admissions_decide(s: Schedule, t: Schedule)
    requires
        s.rebooting() == t.rebooting(),
        s.star(0) == t.star(0),
        s.star(1) == t.star(1),
        s.star(2) == t.star(2),
        s.star(4) == t.star(4),
        forall|k: int, v: int| 0 <= k < 5 ==> #[trigger] s.has(k, v) == t.has(k, v),
    ensures
        s == t,
{
    assert forall|v: int| #[trigger] crate::bits::bit(s.minutes, v) == crate::bits::bit(
        t.minutes,
        v,
    ) by {
        assert(s.has(0, v) == t.has(0, v));
    }
    assert forall|v: int| #[trigger] crate::bits::bit(s.hours, v) == crate::bits::bit(
        t.hours,
        v,
    ) by {
        assert(s.has(1, v) == t.has(1, v));
    }
    assert forall|v: int| #[trigger] crate::bits::bit(s.days_of_month, v) == crate::bits::bit(
        t.days_of_month,
        v,
    ) by {
        assert(s.has(2, v) == t.has(2, v));
    }
    assert forall|v: int| #[trigger] crate::bits::bit(s.months, v) == crate::bits::bit(
        t.months,
        v,
    ) by {
        assert(s.has(3, v) == t.has(3, v));
    }
    assert forall|v: int| #[trigger] crate::bits::bit(s.days_of_week, v) == crate::bits::bit(
        t.days_of_week,
        v,
    ) by {
        assert(s.has(4, v) == t.has(4, v));
    }
    crate::bits::lemma_same_bits(s.minutes, t.minutes);
    crate::bits::lemma_same_bits(s.hours, t.hours);
    crate::bits::lemma_same_bits(s.days_of_month, t.days_of_month);
    crate::bits::lemma_same_bits(s.months, t.months);
    crate::bits::lemma_same_bits(s.days_of_week, t.days_of_week);
}

} // verus!
