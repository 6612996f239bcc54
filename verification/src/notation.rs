//! Laws about how time specifications are written: which texts say the same.

use vstd::prelude::*;

use crate::schedule::{Field, FieldModel, Part, Schedule};

verus! {

// ---------------------------------------------------------------------------
// Numbers and separators
// ---------------------------------------------------------------------------

/// Reading a number undoes writing it.
pub proof fn law_numbers_are_read_back(n: nat)
    requires
        n <= i32::MAX,
    ensures
        crate::schedule::number(crate::text::decimal_text(n)) == Some(n as i32),
{
    lemma_decimal(n);
}

pub proof fn lemma_decimal(n: nat)
    ensures
        crate::text::decimal_text(n).len() > 0,
        crate::schedule::all_digits(crate::text::decimal_text(n)),
        crate::schedule::decimal(crate::text::decimal_text(n)) == n,
    decreases n,
{
    let s = crate::text::decimal_text(n);
    let last = ('0' as u32 + n % 10) as char;
    assert(crate::text::digit(last));
    assert(crate::schedule::digit_value(last) == n % 10);
    if n < 10 {
        assert(s.drop_last() =~= seq![]);
        assert(crate::schedule::decimal(s.drop_last()) == 0);
        assert(s.last() == last);
    } else {
        lemma_decimal(n / 10);
        let t = crate::text::decimal_text(n / 10);
        assert(s.drop_last() =~= t);
        assert(s.last() == last);
        assert forall|i: int| 0 <= i < s.len() implies crate::text::digit(#[trigger] s[i]) by {
            if i < t.len() {
                assert(s[i] == t[i]);
            }
        }
    }
}

/// The text `a`, then `c`, then `b`.
pub open spec fn joined_by(a: Seq<char>, c: char, b: Seq<char>) -> Seq<char> {
    a + seq![c] + b
}

proof fn lemma_cut(a: Seq<char>, c: char, b: Seq<char>)
    requires
        !a.contains(c),
    ensures
        joined_by(a, c, b).contains(c),
        crate::text::first_of(joined_by(a, c, b), c) == a.len(),
        crate::schedule::before(joined_by(a, c, b), c) == a,
        crate::schedule::after(joined_by(a, c, b), c) == b,
{
    let s = joined_by(a, c, b);
    assert(s[a.len() as int] == c);
    assert forall|i: int| 0 <= i < a.len() implies s[i] != c by {
        assert(s[i] == a[i]);
        assert(a.contains(a[i]));
    }
    crate::text::lemma_first_of_is(s, c, a.len() as int);
    assert(s.take(a.len() as int) =~= a);
    assert(s.skip(a.len() as int + 1) =~= b);
}

proof fn lemma_uncut(a: Seq<char>, c: char)
    requires
        !a.contains(c),
    ensures
        crate::text::first_of(a, c) == a.len(),
        crate::schedule::before(a, c) == a,
{
    crate::text::lemma_first_of(a, c);
    assert(a.take(a.len() as int) =~= a);
}

/// Does the text hold none of the characters that have a meaning in a list, but
/// for those of numbers and names?
pub open spec fn plain(s: Seq<char>) -> bool {
    forall|i: int|
        0 <= i < s.len() ==> #[trigger] s[i] != '*' && s[i] != '/' && s[i] != '~' && s[i] != '-'
            && s[i] != ','
}

proof fn lemma_plain(s: Seq<char>)
    requires
        plain(s),
    ensures
        !s.contains('*'),
        !s.contains('/'),
        !s.contains('~'),
        !s.contains('-'),
        !s.contains(','),
{
}

pub proof fn lemma_decimal_plain(n: nat)
    ensures
        plain(crate::text::decimal_text(n)),
        crate::text::decimal_text(n).len() > 0,
{
    lemma_decimal(n);
    let s = crate::text::decimal_text(n);
    assert forall|i: int| 0 <= i < s.len() implies #[trigger] s[i] != '*' && s[i] != '/' && s[i]
        != '~' && s[i] != '-' && s[i] != ',' by {
        assert(crate::text::digit(s[i]));
    }
}

// ---------------------------------------------------------------------------
// List elements
// ---------------------------------------------------------------------------

/// The text `low-high`.
pub open spec fn range_text(low: Seq<char>, high: Seq<char>) -> Seq<char> {
    joined_by(low, '-', high)
}

/// The text `base/step`.
pub open spec fn stepped_text(base: Seq<char>, step: Seq<char>) -> Seq<char> {
    joined_by(base, '/', step)
}

proof fn lemma_range_text(low: Seq<char>, high: Seq<char>)
    requires
        plain(low),
        plain(high),
    ensures
        ({
            let s = range_text(low, high);
            &&& s.contains('-')
            &&& crate::schedule::before(s, '-') == low
            &&& crate::schedule::after(s, '-') == high
            &&& !s.contains('/')
            &&& !s.contains('~')
            &&& !s.contains(',')
            &&& s != seq!['*']
        }),
{
    let s = range_text(low, high);
    lemma_plain(low);
    lemma_cut(low, '-', high);
    assert forall|i: int| 0 <= i < s.len() implies #[trigger] s[i] != '/' && s[i] != '~' && s[i]
        != ',' && s[i] != '*' by {
        if i < low.len() {
            assert(s[i] == low[i]);
        } else if i > low.len() {
            assert(s[i] == high[i - low.len() - 1]);
        }
    }
    assert(s[0] != '*');
}

/// What a range says is decided by the values of its two ends.
proof fn lemma_range_part(low: Seq<char>, high: Seq<char>, step: Seq<char>, field: Field)
    requires
        plain(low),
        plain(high),
    ensures
        crate::schedule::part_of(range_text(low, high), field) == ranged(
            crate::schedule::value_of(low, field),
            crate::schedule::value_of(high, field),
            Some(1),
        ),
        crate::schedule::part_of(stepped_text(range_text(low, high), step), field) == ranged(
            crate::schedule::value_of(low, field),
            crate::schedule::value_of(high, field),
            step_value(step),
        ),
{
    let base = range_text(low, high);
    lemma_range_text(low, high);
    lemma_uncut(base, '/');
    lemma_cut(base, '/', step);
}

spec fn step_value(step: Seq<char>) -> Option<u32> {
    match crate::schedule::number(step) {
        Some(n) => if n <= 0 {
            None
        } else {
            Some(n as u32)
        },
        None => None,
    }
}

spec fn ranged(low: Option<u32>, high: Option<u32>, step: Option<u32>) -> Option<Part> {
    match (low, high, step) {
        (Some(low), Some(high), Some(step)) => if low > high {
            None
        } else {
            Some(Part::Range { low, high, step })
        },
        _ => None,
    }
}

/// `low-high/step` selects every `step`-th value from `low` to `high`; `low-high`
/// is `low-high/1`, and `*/step` selects what the whole range of the field does.
pub proof fn law_written_range(field: Field, low: nat, high: nat, step: nat)
    requires
        field.min() <= low <= high <= field.max(),
        1 <= step <= i32::MAX,
    ensures
        ({
            let range = range_text(
                crate::text::decimal_text(low),
                crate::text::decimal_text(high),
            );
            let whole = range_text(
                crate::text::decimal_text(field.min() as nat),
                crate::text::decimal_text(field.max() as nat),
            );
            let by = crate::text::decimal_text(step);
            &&& crate::schedule::part_of(stepped_text(range, by), field) == Some(
                Part::Range { low: low as u32, high: high as u32, step: step as u32 },
            )
            &&& crate::schedule::part_of(range, field) == crate::schedule::part_of(
                stepped_text(range, crate::text::decimal_text(1)),
                field,
            )
            &&& crate::schedule::part_of(stepped_text(seq!['*'], by), field)
                == crate::schedule::part_of(stepped_text(whole, by), field)
        }),
        forall|v: int| #[trigger]
            crate::schedule::selects(
                Part::Range { low: low as u32, high: high as u32, step: step as u32 },
                v,
            ) <==> low <= v <= high && (v - low) % (step as int) == 0,
{
    let a = crate::text::decimal_text(low);
    let b = crate::text::decimal_text(high);
    let by = crate::text::decimal_text(step);
    lemma_decimal_plain(low);
    lemma_decimal_plain(high);
    law_numbers_are_read_back(low);
    law_numbers_are_read_back(high);
    law_numbers_are_read_back(step);
    law_numbers_are_read_back(1);
    lemma_range_part(a, b, by, field);
    lemma_range_part(a, b, crate::text::decimal_text(1), field);
    let least = field.min() as nat;
    let most = field.max() as nat;
    lemma_decimal_plain(least);
    lemma_decimal_plain(most);
    law_numbers_are_read_back(least);
    law_numbers_are_read_back(most);
    lemma_range_part(
        crate::text::decimal_text(least),
        crate::text::decimal_text(most),
        by,
        field,
    );
    let star = seq!['*'];
    assert(!star.contains('/')) by {
        assert(star[0] == '*');
    }
    lemma_cut(star, '/', by);
}

/// No two names of a field begin with the same three letters.
proof fn lemma_names_differ(field: Field, i: int, j: int)
    requires
        0 <= i < j < field.name_list().len(),
    ensures
        ({
            let a = field.name_list()[i];
            let b = field.name_list()[j];
            &&& a.len() >= 3 && b.len() >= 3
            &&& a[0] != b[0] || a[1] != b[1] || a[2] != b[2]
        }),
{
    reveal_strlit("january");
    reveal_strlit("february");
    reveal_strlit("march");
    reveal_strlit("april");
    reveal_strlit("may");
    reveal_strlit("june");
    reveal_strlit("july");
    reveal_strlit("august");
    reveal_strlit("september");
    reveal_strlit("october");
    reveal_strlit("november");
    reveal_strlit("december");
    reveal_strlit("sunday");
    reveal_strlit("monday");
    reveal_strlit("tuesday");
    reveal_strlit("wednesday");
    reveal_strlit("thursday");
    reveal_strlit("friday");
    reveal_strlit("saturday");
}

/// An abbreviation of a name is found at the place of the name.
proof fn lemma_name_place(field: Field, short: Seq<char>, i: int)
    requires
        0 <= i < field.name_list().len(),
        short.len() >= 3,
        crate::text::has_prefix(field.name_list()[i], short),
    ensures
        crate::schedule::first_named(field.name_list(), short) == i,
{
    let list = field.name_list();
    assert forall|j: int| 0 <= j < i implies !crate::text::has_prefix(
        #[trigger] list[j],
        short,
    ) by {
        lemma_names_differ(field, j, i);
        if crate::text::has_prefix(list[j], short) {
            let n = short.len() as int;
            assert(list[j].take(n)[0] == list[i].take(n)[0]);
            assert(list[j].take(n)[1] == list[i].take(n)[1]);
            assert(list[j].take(n)[2] == list[i].take(n)[2]);
        }
    }
    crate::schedule::lemma_first_named(list, short, i);
}

/// A name, abbreviated to no less than three letters and in any case, stands for
/// the number of its value.
pub proof fn law_names_are_numbers(field: Field, name: Seq<char>, i: int)
    requires
        name.len() >= 3,
        crate::schedule::all_letters(name),
        0 <= i < field.name_list().len(),
        crate::text::has_prefix(field.name_list()[i], crate::text::lower_seq(name)),
    ensures
        crate::schedule::value_of(name, field) == Some((field.min() + i) as u32),
        crate::schedule::value_of(name, field) == crate::schedule::value_of(
            crate::text::decimal_text((field.min() + i) as nat),
            field,
        ),
        plain(name),
{
    lemma_name_place(field, crate::text::lower_seq(name), i);
    assert(crate::text::letter(name[0]));
    assert(!crate::text::digit(name[0]));
    assert(crate::schedule::number(name) is None);
    law_numbers_are_read_back((field.min() + i) as nat);
    assert forall|k: int| 0 <= k < name.len() implies #[trigger] name[k] != '*' && name[k] != '/'
        && name[k] != '~' && name[k] != '-' && name[k] != ',' by {
        assert(crate::text::letter(name[k]));
    }
}

/// What a list element says is decided by the values written in it: texts for
/// the same values can stand for each other, alone and as ends of a range.
pub proof fn law_values_decide(
    a: Seq<char>,
    b: Seq<char>,
    c: Seq<char>,
    d: Seq<char>,
    step: Seq<char>,
    field: Field,
)
    requires
        plain(a),
        plain(b),
        plain(c),
        plain(d),
        crate::schedule::value_of(a, field) == crate::schedule::value_of(b, field),
        crate::schedule::value_of(c, field) == crate::schedule::value_of(d, field),
    ensures
        crate::schedule::part_of(a, field) == crate::schedule::part_of(b, field),
        crate::schedule::part_of(range_text(a, c), field) == crate::schedule::part_of(
            range_text(b, d),
            field,
        ),
        crate::schedule::part_of(stepped_text(range_text(a, c), step), field)
            == crate::schedule::part_of(stepped_text(range_text(b, d), step), field),
{
    lemma_range_part(a, c, step, field);
    lemma_range_part(b, d, step, field);
    lemma_value_part(a, field);
    lemma_value_part(b, field);
}

proof fn lemma_value_part(a: Seq<char>, field: Field)
    requires
        plain(a),
    ensures
        crate::schedule::part_of(a, field) == match crate::schedule::value_of(a, field) {
            Some(v) => Some(Part::Range { low: v, high: v, step: 1 }),
            None => None::<Part>,
        },
{
    lemma_plain(a);
    lemma_uncut(a, '/');
    assert(a != seq!['*']) by {
        if a == seq!['*'] {
            assert(a[0] == '*');
        }
    }
}

/// What a list says is decided by what its elements say.
pub proof fn law_elements_decide(
    a: Seq<char>,
    b: Seq<char>,
    rest_a: Seq<char>,
    rest_b: Seq<char>,
    field: Field,
)
    requires
        a.len() > 0,
        b.len() > 0,
        !a.contains(','),
        !b.contains(','),
        crate::schedule::part_of(a, field) == crate::schedule::part_of(b, field),
        crate::schedule::parts_of(rest_a, field) == crate::schedule::parts_of(rest_b, field),
    ensures
        crate::schedule::parts_of(a, field) == crate::schedule::parts_of(b, field),
        crate::schedule::parts_of(joined_by(a, ',', rest_a), field) == crate::schedule::parts_of(
            joined_by(b, ',', rest_b),
            field,
        ),
{
    lemma_list(a, rest_a, field);
    lemma_list(b, rest_b, field);
}

pub proof fn lemma_list(a: Seq<char>, rest: Seq<char>, field: Field)
    requires
        a.len() > 0,
        !a.contains(','),
    ensures
        crate::schedule::parts_of(a, field) == match crate::schedule::part_of(a, field) {
            Some(p) => Some(seq![p]),
            None => None::<Seq<Part>>,
        },
        crate::schedule::parts_of(joined_by(a, ',', rest), field) == match (
            crate::schedule::part_of(a, field),
            crate::schedule::parts_of(rest, field),
        ) {
            (Some(p), Some(more)) => Some(seq![p] + more),
            _ => None::<Seq<Part>>,
        },
{
    lemma_uncut(a, ',');
    lemma_cut(a, ',', rest);
    assert(a.take(a.len() as int) =~= a);
}

// ---------------------------------------------------------------------------
// Sunday
// ---------------------------------------------------------------------------

/// Is nothing in the list left to chance?
pub open spec fn decided(parts: Seq<Part>) -> bool {
    forall|i: int| 0 <= i < parts.len() ==> (#[trigger] parts[i]) is Range
}

/// Does one of the parts select the value?
pub open spec fn admits(parts: Seq<Part>, v: int) -> bool {
    exists|i: int| 0 <= i < parts.len() && crate::schedule::selects(#[trigger] parts[i], v)
}

/// Does a list for the day of the week admit the day? Sunday is 0, and can be
/// written 7.
pub open spec fn admits_day(parts: Seq<Part>, v: int) -> bool {
    v != 7 && admits(parts, v) || v == 0 && admits(parts, 7)
}

/// Whatever stands before and behind it in a list, `7` says the same as `0`, and
/// `low-7` the same as `0,low-6`.
pub proof fn law_seven_is_sunday(before: Seq<Part>, after: Seq<Part>, low: u32, v: int)
    requires
        low <= 6,
    ensures
        ({
            let seven = Part::Range { low: 7, high: 7, step: 1 };
            let zero = Part::Range { low: 0, high: 0, step: 1 };
            admits_day(before + seq![seven] + after, v) == admits_day(
                before + seq![zero] + after,
                v,
            )
        }),
        ({
            let over = Part::Range { low, high: 7, step: 1 };
            let zero = Part::Range { low: 0, high: 0, step: 1 };
            let under = Part::Range { low, high: 6, step: 1 };
            admits_day(before + seq![over] + after, v) == admits_day(
                before + seq![zero, under] + after,
                v,
            )
        }),
{
    let seven = Part::Range { low: 7, high: 7, step: 1 };
    let zero = Part::Range { low: 0, high: 0, step: 1 };
    let over = Part::Range { low, high: 7, step: 1 };
    let under = Part::Range { low, high: 6, step: 1 };
    lemma_admits(before, seq![seven], after, v);
    lemma_admits(before, seq![seven], after, 7);
    lemma_admits(before, seq![zero], after, v);
    lemma_admits(before, seq![zero], after, 7);
    lemma_admits(before, seq![over], after, v);
    lemma_admits(before, seq![over], after, 7);
    lemma_admits(before, seq![zero, under], after, v);
    lemma_admits(before, seq![zero, under], after, 7);
    lemma_one(seven, v);
    lemma_one(seven, 7);
    lemma_one(zero, v);
    lemma_one(zero, 7);
    lemma_one(over, v);
    lemma_one(over, 7);
    lemma_two(zero, under, v);
    lemma_two(zero, under, 7);
}

/// Written in the field for the day of the week, `7` and `0` admit the same days,
/// and so do `low-7` and `0,low-6`.
pub proof fn law_sunday_is_written_two_ways(low: nat, v: int)
    requires
        low <= 6,
    ensures
        ({
            let seven = crate::text::decimal_text(7);
            let zero = crate::text::decimal_text(0);
            let number = crate::text::decimal_text(low);
            let a = crate::schedule::parts_of(seven, Field::DayOfWeek);
            let b = crate::schedule::parts_of(zero, Field::DayOfWeek);
            let c = crate::schedule::parts_of(range_text(number, seven), Field::DayOfWeek);
            let d = crate::schedule::parts_of(
                joined_by(zero, ',', range_text(number, crate::text::decimal_text(6))),
                Field::DayOfWeek,
            );
            &&& a is Some && b is Some && c is Some && d is Some
            &&& decided(a->0) && decided(b->0) && decided(c->0) && decided(d->0)
            &&& admits_day(a->0, v) == admits_day(b->0, v)
            &&& admits_day(c->0, v) == admits_day(d->0, v)
        }),
{
    let zero = crate::text::decimal_text(0);
    let under = range_text(crate::text::decimal_text(low), crate::text::decimal_text(6));
    let p7 = Part::Range { low: 7, high: 7, step: 1 };
    let p0 = Part::Range { low: 0, high: 0, step: 1 };
    let over = Part::Range { low: low as u32, high: 7, step: 1 };
    let rest = Part::Range { low: low as u32, high: 6, step: 1 };
    lemma_week_number(0);
    lemma_week_number(7);
    lemma_week_range(low, 7);
    lemma_week_range(low, 6);
    assert(crate::schedule::parts_of(joined_by(zero, ',', under), Field::DayOfWeek) == Some(
        seq![p0] + seq![rest],
    )) by {
        lemma_decimal_plain(0);
        lemma_plain(zero);
        lemma_list(zero, under, Field::DayOfWeek);
    }
    assert(seq![p0] + seq![rest] =~= seq![p0, rest]);
    let none = Seq::<Part>::empty();
    law_seven_is_sunday(none, none, low as u32, v);
    assert(none + seq![p7] + none =~= seq![p7]);
    assert(none + seq![p0] + none =~= seq![p0]);
    assert(none + seq![over] + none =~= seq![over]);
    assert(none + seq![p0, rest] + none =~= seq![p0, rest]);
}

proof fn lemma_week_number(n: nat)
    requires
        n <= 7,
    ensures
        ({
            let p = Part::Range { low: n as u32, high: n as u32, step: 1 };
            let s = crate::text::decimal_text(n);
            &&& crate::schedule::part_of(s, Field::DayOfWeek) == Some(p)
            &&& crate::schedule::parts_of(s, Field::DayOfWeek) == Some(seq![p])
        }),
{
    let s = crate::text::decimal_text(n);
    lemma_decimal_plain(n);
    lemma_plain(s);
    law_numbers_are_read_back(n);
    lemma_value_part(s, Field::DayOfWeek);
    lemma_list(s, seq![], Field::DayOfWeek);
}

proof fn lemma_week_range(low: nat, high: nat)
    requires
        low <= high <= 7,
    ensures
        crate::schedule::parts_of(
            range_text(crate::text::decimal_text(low), crate::text::decimal_text(high)),
            Field::DayOfWeek,
        ) == Some(seq![Part::Range { low: low as u32, high: high as u32, step: 1 }]),
{
    let a = crate::text::decimal_text(low);
    let b = crate::text::decimal_text(high);
    lemma_decimal_plain(low);
    lemma_decimal_plain(high);
    law_numbers_are_read_back(low);
    law_numbers_are_read_back(high);
    lemma_range_part(a, b, seq![], Field::DayOfWeek);
    lemma_range_text(a, b);
    lemma_list(range_text(a, b), seq![], Field::DayOfWeek);
}

proof fn lemma_one(p: Part, v: int)
    ensures
        admits(seq![p], v) == crate::schedule::selects(p, v),
{
    assert(seq![p][0] == p);
}

proof fn lemma_two(p: Part, q: Part, v: int)
    ensures
        admits(seq![p, q], v) == (crate::schedule::selects(p, v) || crate::schedule::selects(q, v)),
{
    assert(seq![p, q][0] == p);
    assert(seq![p, q][1] == q);
}

proof fn lemma_admits(a: Seq<Part>, b: Seq<Part>, c: Seq<Part>, v: int)
    ensures
        admits(a + b + c, v) == (admits(a, v) || admits(b, v) || admits(c, v)),
{
    let all = a + b + c;
    if admits(a, v) {
        let i = choose|i: int| 0 <= i < a.len() && crate::schedule::selects(#[trigger] a[i], v);
        assert(all[i] == a[i]);
    }
    if admits(b, v) {
        let i = choose|i: int| 0 <= i < b.len() && crate::schedule::selects(#[trigger] b[i], v);
        assert(all[a.len() + i] == b[i]);
    }
    if admits(c, v) {
        let i = choose|i: int| 0 <= i < c.len() && crate::schedule::selects(#[trigger] c[i], v);
        assert(all[a.len() + b.len() + i] == c[i]);
    }
    if admits(all, v) {
        let i = choose|i: int| 0 <= i < all.len() && crate::schedule::selects(#[trigger] all[i], v);
        if i < a.len() {
            assert(all[i] == a[i]);
        } else if i < a.len() + b.len() {
            assert(all[i] == b[i - a.len()]);
        } else {
            assert(all[i] == c[i - a.len() - b.len()]);
        }
    }
}

// ---------------------------------------------------------------------------
// Whole specifications
// ---------------------------------------------------------------------------

/// Is this a word: not empty, and without white space?
pub open spec fn is_word(s: Seq<char>) -> bool {
    &&& s.len() > 0
    &&& forall|i: int| 0 <= i < s.len() ==> !crate::text::white(#[trigger] s[i])
}

/// Five words that can be the fields of a specification.
pub open spec fn field_words(words: Seq<Seq<char>>) -> bool {
    &&& words.len() == 5
    &&& forall|k: int| 0 <= k < 5 ==> is_word(#[trigger] words[k])
    &&& words[0][0] != '@'
}

/// The words from position `k` on, with a space between them.
pub open spec fn words_text(words: Seq<Seq<char>>, k: int) -> Seq<char>
    decreases words.len() - k,
{
    if k + 1 >= words.len() {
        words[k]
    } else {
        joined_by(words[k], ' ', words_text(words, k + 1))
    }
}

/// The fields that the words from position `k` on say.
spec fn fields_of(words: Seq<Seq<char>>, k: int) -> Result<
    (Seq<FieldModel>, Seq<char>),
    crate::schedule::ScheduleError,
>
    decreases 5 - k,
{
    if k >= 5 {
        Ok((seq![], seq![]))
    } else {
        match crate::schedule::field_of(words[k], Field::at(k)) {
            None => Err(Field::at(k).err()),
            Some(f) => match fields_of(words, k + 1) {
                Err(e) => Err(e),
                Ok((rest, tail)) => Ok((seq![f] + rest, tail)),
            },
        }
    }
}

proof fn lemma_first_word(word: Seq<char>, rest: Seq<char>)
    requires
        is_word(word),
        rest.len() == 0 || is_word(rest.take(1)),
    ensures
        crate::schedule::first_word(word) == word,
        crate::schedule::after_word(word) == Seq::<char>::empty(),
        crate::schedule::first_word(joined_by(word, ' ', rest)) == word,
        crate::schedule::after_word(joined_by(word, ' ', rest)) == rest,
{
    let n = word.len() as int;
    crate::text::lemma_first_white_is(word, n);
    assert(word.take(n) =~= word);
    crate::text::lemma_lead_white(word.skip(n));
    assert(crate::schedule::after_word(word) =~= seq![]);
    let s = joined_by(word, ' ', rest);
    assert forall|i: int| 0 <= i < n implies !crate::text::white(s[i]) by {
        assert(s[i] == word[i]);
    }
    assert(s[n] == ' ');
    crate::text::lemma_first_white_is(s, n);
    assert(s.take(n) =~= word);
    let t = s.skip(n);
    assert(t[0] == ' ');
    assert(t.skip(1) =~= rest);
    if rest.len() > 0 {
        assert(rest.take(1)[0] == rest[0]);
        assert(t[1] == rest[0]);
    }
    crate::text::lemma_lead_white_is(t, 1);
}

proof fn lemma_words(words: Seq<Seq<char>>, k: int)
    requires
        field_words(words),
        0 <= k < 5,
    ensures
        words_text(words, k).len() > 0,
        words_text(words, k)[0] == words[k][0],
        crate::schedule::fields_from(words_text(words, k), k) == fields_of(words, k),
    decreases 5 - k,
{
    assert(is_word(words[k]));
    if k == 4 {
        lemma_first_word(words[k], seq![]);
        let none = Seq::<char>::empty();
        assert(crate::schedule::fields_from(none, 5) =~= fields_of(words, 5));
    } else {
        lemma_words(words, k + 1);
        let rest = words_text(words, k + 1);
        assert(is_word(words[k + 1]));
        assert(rest.take(1)[0] == words[k + 1][0]);
        lemma_first_word(words[k], rest);
    }
}

proof fn lemma_line(words: Seq<Seq<char>>)
    requires
        field_words(words),
    ensures
        crate::schedule::prefix_of(words_text(words, 0)) == match fields_of(words, 0) {
            Ok((fields, rest)) => Ok::<
                (Option<Seq<FieldModel>>, Seq<char>),
                crate::schedule::ScheduleError,
            >((Some(fields), rest)),
            Err(e) => Err(e),
        },
        crate::text::trim_start(words_text(words, 0)) == words_text(words, 0),
{
    let line = words_text(words, 0);
    lemma_words(words, 0);
    assert(is_word(words[0]));
    crate::text::lemma_lead_white_is(line, 0);
    assert(line.skip(0) =~= line);
}

/// What five words say is decided by what each of them says in its place.
pub proof fn law_fields_decide(a: Seq<Seq<char>>, b: Seq<Seq<char>>)
    requires
        field_words(a),
        field_words(b),
        forall|k: int|
            0 <= k < 5 ==> crate::schedule::field_of(#[trigger] a[k], Field::at(k))
                == crate::schedule::field_of(b[k], Field::at(k)),
    ensures
        crate::schedule::prefix_of(words_text(a, 0)) == crate::schedule::prefix_of(
            words_text(b, 0),
        ),
{
    lemma_line(a);
    lemma_line(b);
    lemma_same_fields(a, b, 0);
}

proof fn lemma_same_fields(a: Seq<Seq<char>>, b: Seq<Seq<char>>, k: int)
    requires
        0 <= k <= 5,
        forall|k: int|
            0 <= k < 5 ==> crate::schedule::field_of(#[trigger] a[k], Field::at(k))
                == crate::schedule::field_of(b[k], Field::at(k)),
    ensures
        fields_of(a, k) == fields_of(b, k),
    decreases 5 - k,
{
    if k < 5 {
        lemma_same_fields(a, b, k + 1);
        assert(crate::schedule::field_of(a[k], Field::at(k)) == crate::schedule::field_of(
            b[k],
            Field::at(k),
        ));
    }
}

/// Five words are a specification exactly if each of them is a field in its
/// place; its fields are those, and nothing is left over.
pub proof fn law_words_are_fields(words: Seq<Seq<char>>)
    requires
        field_words(words),
    ensures
        crate::schedule::prefix_of(words_text(words, 0)) is Ok <==> forall|k: int|
            0 <= k < 5 ==> crate::schedule::field_of(#[trigger] words[k], Field::at(k)) is Some,
        crate::schedule::prefix_of(words_text(words, 0)) matches Ok((fields, rest)) ==> {
            &&& rest.len() == 0
            &&& fields matches Some(fs) && fs.len() == 5 && forall|k: int|
                0 <= k < 5 ==> crate::schedule::field_of(#[trigger] words[k], Field::at(k)) == Some(
                    fs[k],
                )
        },
{
    lemma_line(words);
    lemma_word_fields(words, 0);
}

proof fn lemma_word_fields(words: Seq<Seq<char>>, k: int)
    requires
        0 <= k <= 5,
    ensures
        fields_of(words, k) is Ok <==> forall|i: int|
            k <= i < 5 ==> crate::schedule::field_of(#[trigger] words[i], Field::at(i)) is Some,
        fields_of(words, k) matches Ok((fields, rest)) ==> {
            &&& rest.len() == 0
            &&& fields.len() == 5 - k
            &&& forall|i: int|
                k <= i < 5 ==> crate::schedule::field_of(#[trigger] words[i], Field::at(i)) == Some(
                    fields[i - k],
                )
        },
    decreases 5 - k,
{
    if k < 5 {
        lemma_word_fields(words, k + 1);
        let f = crate::schedule::field_of(words[k], Field::at(k));
        if let Ok((fields, _)) = fields_of(words, k) {
            let rest = fields_of(words, k + 1)->Ok_0.0;
            assert forall|i: int| k <= i < 5 implies crate::schedule::field_of(
                #[trigger] words[i],
                Field::at(i),
            ) == Some(fields[i - k]) by {
                if i > k {
                    assert(fields[i - k] == rest[i - k - 1]);
                }
            }
        } else if f is Some {
            let i = choose|i: int|
                k + 1 <= i < 5 && !(crate::schedule::field_of(#[trigger] words[i], Field::at(i)) is Some);
            assert(crate::schedule::field_of(words[i], Field::at(i)) is None);
        }
    }
}

/// Is nothing in the fields left to chance?
pub open spec fn all_decided(fields: Seq<FieldModel>) -> bool {
    &&& fields.len() == 5
    &&& forall|k: int| 0 <= k < 5 ==> decided((#[trigger] fields[k]).parts)
}

/// Do the fields admit the same times, and restrict the same days?
pub open spec fn alike(f: Seq<FieldModel>, g: Seq<FieldModel>) -> bool {
    &&& f[0].star == g[0].star
    &&& f[1].star == g[1].star
    &&& f[2].star == g[2].star
    &&& f[4].star == g[4].star
    &&& forall|k: int, v: int|
        0 <= k < 4 ==> #[trigger] admits(f[k].parts, v) == admits(g[k].parts, v)
    &&& forall|v: int| #[trigger] admits_day(f[4].parts, v) == admits_day(g[4].parts, v)
}

/// Specifications that admit the same give the same schedule, unless something
/// in them is left to chance. So do, in particular, two that say the same.
pub proof fn law_alike_is_the_same(
    f: Seq<FieldModel>,
    g: Seq<FieldModel>,
    d: Seq<Seq<u32>>,
    e: Seq<Seq<u32>>,
    s: Schedule,
    t: Schedule,
)
    requires
        all_decided(f),
        all_decided(g),
        alike(f, g),
        s.described_by(f, d),
        t.described_by(g, e),
    ensures
        s == t,
{
    assert forall|k: int, v: int| 0 <= k < 5 implies #[trigger] s.has(k, v) == t.has(k, v) by {
        assert(decided(f[k].parts) && decided(g[k].parts));
        lemma_chosen(f[k].parts, d[k], v);
        lemma_chosen(g[k].parts, e[k], v);
        lemma_chosen(f[k].parts, d[k], 7);
        lemma_chosen(g[k].parts, e[k], 7);
        if k < 4 {
            assert(admits(f[k].parts, v) == admits(g[k].parts, v));
        } else {
            assert(admits_day(f[4].parts, v) == admits_day(g[4].parts, v));
        }
    }
    crate::schedule::law_admissions_decide(s, t);
}

pub proof fn lemma_chosen(parts: Seq<Part>, draws: Seq<u32>, v: int)
    requires
        decided(parts),
    ensures
        crate::schedule::chosen(parts, draws, v) == admits(parts, v),
{
    if admits(parts, v) {
        let i = choose|i: int|
            0 <= i < parts.len() && crate::schedule::selects(#[trigger] parts[i], v);
        assert(crate::schedule::selects(crate::schedule::fixed(parts[i], draws[i]), v));
    }
}

// ---------------------------------------------------------------------------
// Whole texts that say the same
// ---------------------------------------------------------------------------

/// Is this a schedule that parsing the whole text can give?
pub open spec fn parses_to(text: Seq<char>, s: Schedule) -> bool {
    match crate::schedule::prefix_of(text) {
        Ok((fields, rest)) => rest.len() == 0 && match fields {
            Some(f) => exists|draws: Seq<Seq<u32>>|
                crate::schedule::admissible(f, draws) && s.described_by(f, draws),
            None => s.boots(),
        },
        Err(_) => false,
    }
}

/// Is the whole text a specification?
pub open spec fn is_spec(text: Seq<char>) -> bool {
    crate::schedule::prefix_of(text) matches Ok((_, rest)) && rest.len() == 0
}

/// Are both texts specifications, and do they parse to the same schedule?
pub open spec fn same_schedule(a: Seq<char>, b: Seq<char>) -> bool {
    &&& is_spec(a)
    &&& is_spec(b)
    &&& forall|s: Schedule, t: Schedule|
        #![trigger parses_to(a, s), parses_to(b, t)]
        parses_to(a, s) && parses_to(b, t) ==> s == t
}

/// Is the word a field in its place, with nothing left to chance?
pub open spec fn fixed_field(word: Seq<char>, k: int) -> bool {
    crate::schedule::field_of(word, Field::at(k)) matches Some(f) && decided(f.parts)
}

/// Do two fields in the place `k` admit the same, begin with `*` both or not, and
/// leave nothing to chance?
pub open spec fn same_model(f: FieldModel, g: FieldModel, k: int) -> bool {
    &&& decided(f.parts)
    &&& decided(g.parts)
    &&& f.star == g.star
    &&& if k == 4 {
        forall|v: int| #[trigger] admits_day(f.parts, v) == admits_day(g.parts, v)
    } else {
        forall|v: int| #[trigger] admits(f.parts, v) == admits(g.parts, v)
    }
}

/// Do two words say the same in the place `k`?
pub open spec fn same_field(a: Seq<char>, b: Seq<char>, k: int) -> bool {
    match (
        crate::schedule::field_of(a, Field::at(k)),
        crate::schedule::field_of(b, Field::at(k)),
    ) {
        (Some(f), Some(g)) => same_model(f, g, k),
        _ => false,
    }
}

proof fn lemma_same_models(f: Seq<FieldModel>, g: Seq<FieldModel>)
    requires
        f.len() == 5,
        g.len() == 5,
        forall|k: int| 0 <= k < 5 ==> same_model(#[trigger] f[k], g[k], k),
    ensures
        all_decided(f),
        all_decided(g),
        alike(f, g),
{
    assert(same_model(f[0], g[0], 0) && same_model(f[1], g[1], 1) && same_model(f[2], g[2], 2));
    assert(same_model(f[4], g[4], 4));
    assert forall|k: int| 0 <= k < 5 implies decided((#[trigger] g[k]).parts) by {
        assert(same_model(f[k], g[k], k));
    }
    assert forall|k: int, v: int| 0 <= k < 4 implies #[trigger] admits(f[k].parts, v) == admits(
        g[k].parts,
        v,
    ) by {
        assert(same_model(f[k], g[k], k));
    }
}

proof fn lemma_word_models(
    a: Seq<Seq<char>>,
    b: Seq<Seq<char>>,
    f: Seq<FieldModel>,
    g: Seq<FieldModel>,
    k: int,
)
    requires
        0 <= k < 5,
        crate::schedule::field_of(a[k], Field::at(k)) == Some(f[k]),
        crate::schedule::field_of(b[k], Field::at(k)) == Some(g[k]),
        same_field(a[k], b[k], k),
    ensures
        same_model(f[k], g[k], k),
{
}

/// The fields of two texts of five words that say the same.
proof fn lemma_same_words(a: Seq<Seq<char>>, b: Seq<Seq<char>>) -> (r: (
    Seq<FieldModel>,
    Seq<FieldModel>,
))
    requires
        field_words(a),
        field_words(b),
        forall|k: int| 0 <= k < 5 ==> same_field(#[trigger] a[k], b[k], k),
    ensures
        crate::schedule::prefix_of(words_text(a, 0)) == Ok::<
            (Option<Seq<FieldModel>>, Seq<char>),
            crate::schedule::ScheduleError,
        >((Some(r.0), seq![])),
        crate::schedule::prefix_of(words_text(b, 0)) == Ok::<
            (Option<Seq<FieldModel>>, Seq<char>),
            crate::schedule::ScheduleError,
        >((Some(r.1), seq![])),
        all_decided(r.0),
        all_decided(r.1),
        alike(r.0, r.1),
{
    assert forall|k: int| 0 <= k < 5 implies crate::schedule::field_of(
        #[trigger] a[k],
        Field::at(k),
    ) is Some by {
        assert(same_field(a[k], b[k], k));
    }
    assert forall|k: int| 0 <= k < 5 implies crate::schedule::field_of(
        #[trigger] b[k],
        Field::at(k),
    ) is Some by {
        assert(same_field(a[k], b[k], k));
    }
    law_words_are_fields(a);
    law_words_are_fields(b);
    let x = crate::schedule::prefix_of(words_text(a, 0))->Ok_0;
    let y = crate::schedule::prefix_of(words_text(b, 0))->Ok_0;
    assert(x.1 =~= seq![]);
    assert(y.1 =~= seq![]);
    let f = x.0->0;
    let g = y.0->0;
    assert forall|k: int| 0 <= k < 5 implies same_model(#[trigger] f[k], g[k], k) by {
        assert(same_field(a[k], b[k], k));
        assert(crate::schedule::field_of(b[k], Field::at(k)) == Some(g[k]));
        lemma_word_models(a, b, f, g, k);
    }
    lemma_same_models(f, g);
    (f, g)
}

/// Two texts of five words, each of which says the same as the one in its place,
/// parse to the same schedule.
pub proof fn law_same_words_same_schedule(a: Seq<Seq<char>>, b: Seq<Seq<char>>)
    requires
        field_words(a),
        field_words(b),
        forall|k: int| 0 <= k < 5 ==> same_field(#[trigger] a[k], b[k], k),
    ensures
        same_schedule(words_text(a, 0), words_text(b, 0)),
{
    let x = words_text(a, 0);
    let y = words_text(b, 0);
    let (f, g) = lemma_same_words(a, b);
    assert forall|s: Schedule, t: Schedule|
        #![trigger parses_to(x, s), parses_to(y, t)]
        parses_to(x, s) && parses_to(y, t) implies s == t by {
        let d = choose|d: Seq<Seq<u32>>|
            crate::schedule::admissible(f, d) && s.described_by(f, d);
        let e = choose|e: Seq<Seq<u32>>|
            crate::schedule::admissible(g, e) && t.described_by(g, e);
        law_alike_is_the_same(f, g, d, e, s, t);
    }
}

/// Four words for the fields before the day of the week, with nothing left to
/// chance, and one for the day of the week.
pub open spec fn with_day(words: Seq<Seq<char>>, day: Seq<char>) -> Seq<Seq<char>> {
    words.update(4, day)
}

proof fn lemma_other_day(words: Seq<Seq<char>>, a: Seq<char>, b: Seq<char>)
    requires
        field_words(words),
        forall|k: int| 0 <= k < 4 ==> fixed_field(#[trigger] words[k], k),
        is_word(a),
        is_word(b),
        same_field(a, b, 4),
    ensures
        same_schedule(words_text(with_day(words, a), 0), words_text(with_day(words, b), 0)),
{
    let x = with_day(words, a);
    let y = with_day(words, b);
    assert forall|k: int| 0 <= k < 5 implies is_word(#[trigger] x[k]) && is_word(y[k])
        && same_field(x[k], y[k], k) by {
        if k < 4 {
            assert(x[k] == words[k] && y[k] == words[k]);
            assert(is_word(words[k]) && fixed_field(words[k], k));
        }
    }
    assert forall|k: int| 0 <= k < 5 implies is_word(#[trigger] y[k]) by {
        assert(is_word(x[k]) && is_word(y[k]));
    }
    assert(x[0] == words[0] && y[0] == words[0]);
    law_same_words_same_schedule(x, y);
}

/// The texts, with a comma between each two.
pub open spec fn comma_text(list: Seq<Seq<char>>) -> Seq<char>
    decreases list.len(),
{
    if list.len() == 0 {
        seq![]
    } else if list.len() == 1 {
        list[0]
    } else {
        joined_by(list[0], ',', comma_text(list.skip(1)))
    }
}

/// The parts of a list of single values.
pub open spec fn single_parts(values: Seq<nat>) -> Seq<Part> {
    values.map_values(|n: nat| Part::Range { low: n as u32, high: n as u32, step: 1 })
}

/// Does each text of the list stand for the value in its place?
pub open spec fn stand_for(list: Seq<Seq<char>>, values: Seq<nat>, field: Field) -> bool {
    &&& list.len() == values.len()
    &&& forall|i: int|
        0 <= i < list.len() ==> {
            &&& (#[trigger] list[i]).len() > 0
            &&& plain(list[i])
            &&& crate::schedule::value_of(list[i], field) == Some(values[i] as u32)
            &&& values[i] <= field.max()
        }
}

/// A list of single values says the same however the values are written.
pub proof fn law_lists_of_values(list: Seq<Seq<char>>, values: Seq<nat>, field: Field)
    requires
        list.len() > 0,
        stand_for(list, values, field),
    ensures
        crate::schedule::parts_of(comma_text(list), field) == Some(single_parts(values)),
        comma_text(list).len() > 0,
        comma_text(list)[0] == list[0][0],
    decreases list.len(),
{
    let a = list[0];
    lemma_plain(a);
    lemma_value_part(a, field);
    let p = Part::Range { low: values[0] as u32, high: values[0] as u32, step: 1 };
    let rest = list.skip(1);
    lemma_list(a, comma_text(rest), field);
    if list.len() == 1 {
        assert(single_parts(values) =~= seq![p]);
    } else {
        let others = values.skip(1);
        assert forall|i: int| 0 <= i < rest.len() implies (#[trigger] rest[i]).len() > 0 && plain(
            rest[i],
        ) && crate::schedule::value_of(rest[i], field) == Some(others[i] as u32) && others[i]
            <= field.max() by {
            assert(rest[i] == list[i + 1]);
        }
        law_lists_of_values(rest, others, field);
        assert(single_parts(values) =~= seq![p] + single_parts(others));
    }
}

/// The texts of numbers.
pub open spec fn number_texts(values: Seq<nat>) -> Seq<Seq<char>> {
    values.map_values(|n: nat| crate::text::decimal_text(n))
}

pub proof fn lemma_number_texts(values: Seq<nat>, field: Field)
    requires
        forall|i: int| 0 <= i < values.len() ==> field.min() <= #[trigger] values[i] <= field.max(),
    ensures
        stand_for(number_texts(values), values, field),
{
    let list = number_texts(values);
    assert forall|i: int| 0 <= i < list.len() implies (#[trigger] list[i]).len() > 0 && plain(
        list[i],
    ) && crate::schedule::value_of(list[i], field) == Some(values[i] as u32) && values[i]
        <= field.max() by {
        assert(field.min() <= values[i] <= field.max());
        lemma_decimal_plain(values[i]);
        law_numbers_are_read_back(values[i]);
    }
}

/// Is the text free of white space, if its parts are?
pub proof fn lemma_comma_word(list: Seq<Seq<char>>)
    requires
        list.len() > 0,
        forall|i: int| 0 <= i < list.len() ==> is_word(#[trigger] list[i]),
    ensures
        is_word(comma_text(list)),
    decreases list.len(),
{
    assert(is_word(list[0]));
    if list.len() > 1 {
        let rest = list.skip(1);
        assert forall|i: int| 0 <= i < rest.len() implies is_word(#[trigger] rest[i]) by {
            assert(rest[i] == list[i + 1]);
        }
        lemma_comma_word(rest);
        lemma_joined_word(list[0], ',', comma_text(rest));
    }
}

pub proof fn lemma_joined_word(a: Seq<char>, c: char, b: Seq<char>)
    requires
        is_word(a),
        is_word(b),
        !crate::text::white(c),
    ensures
        is_word(joined_by(a, c, b)),
{
    let s = joined_by(a, c, b);
    assert forall|i: int| 0 <= i < s.len() implies !crate::text::white(#[trigger] s[i]) by {
        if i < a.len() {
            assert(s[i] == a[i]);
        } else if i > a.len() {
            assert(s[i] == b[i - a.len() - 1]);
        }
    }
}

pub proof fn lemma_decimal_word(n: nat)
    ensures
        is_word(crate::text::decimal_text(n)),
        crate::text::decimal_text(n)[0] != '*',
        crate::text::decimal_text(n)[0] != '@',
{
    lemma_decimal(n);
    let s = crate::text::decimal_text(n);
    assert forall|i: int| 0 <= i < s.len() implies !crate::text::white(#[trigger] s[i]) by {
        assert(crate::text::digit(s[i]));
    }
    assert(crate::text::digit(s[0]));
}

/// Sunday, and the days from `low` to Saturday.
pub open spec fn days_from(low: nat) -> Seq<nat> {
    seq![0nat] + Seq::new((7 - low) as nat, |i: int| (low + i) as nat)
}

/// In any specification with nothing else left to chance, `7` can be written for
/// `0` as the day of the week, and a range over it as a list of days: `low-7` is
/// `0,low,...,6`, and is `0,low-6`.
pub proof fn law_sunday_in_whole_texts(words: Seq<Seq<char>>, low: nat)
    requires
        field_words(words),
        forall|k: int| 0 <= k < 4 ==> fixed_field(#[trigger] words[k], k),
        low <= 6,
    ensures
        ({
            let seven = crate::text::decimal_text(7);
            let zero = crate::text::decimal_text(0);
            let over = range_text(crate::text::decimal_text(low), seven);
            let under = range_text(
                crate::text::decimal_text(low),
                crate::text::decimal_text(6),
            );
            &&& same_schedule(
                words_text(with_day(words, seven), 0),
                words_text(with_day(words, zero), 0),
            )
            &&& same_schedule(
                words_text(with_day(words, over), 0),
                words_text(with_day(words, joined_by(zero, ',', under)), 0),
            )
            &&& same_schedule(
                words_text(with_day(words, over), 0),
                words_text(with_day(words, comma_text(number_texts(days_from(low)))), 0),
            )
        }),
{
    let seven = crate::text::decimal_text(7);
    let zero = crate::text::decimal_text(0);
    let over = range_text(crate::text::decimal_text(low), seven);
    let under = range_text(crate::text::decimal_text(low), crate::text::decimal_text(6));
    let split = joined_by(zero, ',', under);
    let list = comma_text(number_texts(days_from(low)));
    lemma_decimal_word(0);
    lemma_decimal_word(6);
    lemma_decimal_word(7);
    lemma_decimal_word(low);
    lemma_joined_word(crate::text::decimal_text(low), '-', seven);
    lemma_joined_word(crate::text::decimal_text(low), '-', crate::text::decimal_text(6));
    lemma_joined_word(zero, ',', under);
    assert(same_field(seven, zero, 4) && same_field(over, split, 4)) by {
        assert(Field::at(4) == Field::DayOfWeek);
        law_sunday_is_written_two_ways(low, 0);
        assert(over[0] == crate::text::decimal_text(low)[0]);
        assert(split[0] == zero[0]);
        let a = crate::schedule::parts_of(seven, Field::DayOfWeek)->0;
        let b = crate::schedule::parts_of(zero, Field::DayOfWeek)->0;
        let c = crate::schedule::parts_of(over, Field::DayOfWeek)->0;
        let d = crate::schedule::parts_of(split, Field::DayOfWeek)->0;
        assert forall|v: int|
            #![trigger admits_day(a, v)]
            #![trigger admits_day(c, v)]
            admits_day(a, v) == admits_day(b, v) && admits_day(c, v) == admits_day(d, v) by {
            law_sunday_is_written_two_ways(low, v);
        }
    }
    lemma_day_list(low);
    lemma_other_day(words, seven, zero);
    lemma_other_day(words, over, split);
    lemma_other_day(words, over, list);
}

proof fn lemma_day_list(low: nat)
    requires
        low <= 6,
    ensures
        ({
            let over = range_text(crate::text::decimal_text(low), crate::text::decimal_text(7));
            let list = comma_text(number_texts(days_from(low)));
            &&& is_word(list)
            &&& same_field(over, list, 4)
        }),
{
    let over = range_text(crate::text::decimal_text(low), crate::text::decimal_text(7));
    let days = days_from(low);
    let texts = number_texts(days);
    let list = comma_text(texts);
    assert forall|i: int| 0 <= i < days.len() implies Field::DayOfWeek.min() <= #[trigger] days[i]
        <= Field::DayOfWeek.max() by {
    }
    assert forall|i: int| 0 <= i < texts.len() implies is_word(#[trigger] texts[i]) by {
        lemma_decimal_word(days[i]);
    }
    lemma_comma_word(texts);
    lemma_number_texts(days, Field::DayOfWeek);
    law_lists_of_values(texts, days, Field::DayOfWeek);
    lemma_week_range(low, 7);
    lemma_decimal_word(0);
    lemma_decimal_word(low);
    assert(texts[0] == crate::text::decimal_text(0));
    assert(over[0] == crate::text::decimal_text(low)[0]);
    let p = Part::Range { low: low as u32, high: 7, step: 1 };
    let parts = single_parts(days);
    assert(Field::at(4) == Field::DayOfWeek);
    assert(decided(parts));
    assert forall|v: int| #[trigger] admits_day(seq![p], v) == admits_day(parts, v) by {
        lemma_one(p, v);
        lemma_one(p, 7);
        assert(crate::schedule::selects(p, v) <==> low <= v <= 7);
        assert(crate::schedule::selects(p, 7));
        assert(crate::schedule::selects(parts[0], 0));
        if low <= v <= 6 {
            let i = v - low + 1;
            assert(days[i] == v);
            assert(crate::schedule::selects(parts[i], v));
        }
        if admits(parts, v) {
            let i = choose|i: int|
                0 <= i < parts.len() && crate::schedule::selects(#[trigger] parts[i], v);
            assert(parts[i] == (Part::Range {
                low: days[i] as u32,
                high: days[i] as u32,
                step: 1,
            }));
            assert(v == days[i]);
        }
    }
}

/// Is this an abbreviation of the field's name number `i`, in any case?
pub open spec fn abbreviates(name: Seq<char>, field: Field, i: int) -> bool {
    &&& name.len() >= 3
    &&& crate::schedule::all_letters(name)
    &&& 0 <= i < field.name_list().len()
    &&& crate::text::has_prefix(field.name_list()[i], crate::text::lower_seq(name))
}

/// The values of the field's names with the given numbers.
pub open spec fn named_values(field: Field, indices: Seq<int>) -> Seq<nat> {
    indices.map_values(|i: int| (field.min() + i) as nat)
}

proof fn lemma_name_word(name: Seq<char>, field: Field, i: int)
    requires
        abbreviates(name, field, i),
    ensures
        is_word(name),
        name[0] != '*',
        plain(name),
        field.min() + i <= field.max(),
        crate::schedule::value_of(name, field) == Some((field.min() + i) as u32),
{
    law_names_are_numbers(field, name, i);
    assert(crate::text::letter(name[0]));
    assert forall|k: int| 0 <= k < name.len() implies !crate::text::white(#[trigger] name[k]) by {
        assert(crate::text::letter(name[k]));
    }
}

/// A list of names says what the list of their numbers says.
proof fn lemma_name_list(names: Seq<Seq<char>>, field: Field, indices: Seq<int>, k: int)
    requires
        0 <= k < 5,
        field == Field::at(k),
        names.len() > 0,
        names.len() == indices.len(),
        forall|i: int| 0 <= i < names.len() ==> abbreviates(#[trigger] names[i], field, indices[i]),
    ensures
        ({
            let numbers = number_texts(named_values(field, indices));
            &&& is_word(comma_text(names))
            &&& is_word(comma_text(numbers))
            &&& same_field(comma_text(names), comma_text(numbers), k)
        }),
{
    let values = named_values(field, indices);
    let numbers = number_texts(values);
    assert forall|i: int| 0 <= i < names.len() implies is_word(#[trigger] names[i]) && plain(
        names[i],
    ) && crate::schedule::value_of(names[i], field) == Some(values[i] as u32) && field.min()
        <= values[i] <= field.max() by {
        assert(abbreviates(names[i], field, indices[i]));
        lemma_name_word(names[i], field, indices[i]);
    }
    assert forall|i: int| 0 <= i < values.len() implies field.min() <= #[trigger] values[i]
        <= field.max() by {
        assert(is_word(names[i]));
    }
    assert(stand_for(names, values, field));
    lemma_number_texts(values, field);
    assert forall|i: int| 0 <= i < numbers.len() implies is_word(#[trigger] numbers[i]) by {
        lemma_decimal_word(values[i]);
    }
    lemma_comma_word(names);
    lemma_comma_word(numbers);
    law_lists_of_values(names, values, field);
    law_lists_of_values(numbers, values, field);
    assert(abbreviates(names[0], field, indices[0]));
    lemma_name_word(names[0], field, indices[0]);
    lemma_decimal_word(values[0]);
    assert(numbers[0] == crate::text::decimal_text(values[0]));
    assert(decided(single_parts(values)));
}

/// A range between names says what the range between their numbers says.
proof fn lemma_name_range(from: Seq<char>, to: Seq<char>, field: Field, i: int, j: int, k: int)
    requires
        0 <= k < 5,
        field == Field::at(k),
        abbreviates(from, field, i),
        abbreviates(to, field, j),
        i <= j,
    ensures
        ({
            let a = crate::text::decimal_text((field.min() + i) as nat);
            let b = crate::text::decimal_text((field.min() + j) as nat);
            &&& is_word(range_text(from, to))
            &&& is_word(range_text(a, b))
            &&& same_field(range_text(from, to), range_text(a, b), k)
        }),
{
    let low = (field.min() + i) as nat;
    let high = (field.min() + j) as nat;
    let a = crate::text::decimal_text(low);
    let b = crate::text::decimal_text(high);
    lemma_name_word(from, field, i);
    lemma_name_word(to, field, j);
    lemma_decimal_word(low);
    lemma_decimal_word(high);
    lemma_joined_word(from, '-', to);
    lemma_joined_word(a, '-', b);
    lemma_decimal_plain(low);
    lemma_decimal_plain(high);
    law_numbers_are_read_back(low);
    law_numbers_are_read_back(high);
    lemma_range_part(from, to, seq![], field);
    lemma_range_part(a, b, seq![], field);
    lemma_range_text(from, to);
    lemma_range_text(a, b);
    lemma_list(range_text(from, to), seq![], field);
    lemma_list(range_text(a, b), seq![], field);
    assert(range_text(from, to)[0] == from[0]);
    assert(range_text(a, b)[0] == a[0]);
}

/// In any specification with nothing else left to chance, months and days of the
/// week can be named, here a list of months and a range of days, instead of
/// numbered.
pub proof fn law_names_in_whole_texts(
    words: Seq<Seq<char>>,
    months: Seq<Seq<char>>,
    indices: Seq<int>,
    from: Seq<char>,
    to: Seq<char>,
    i: int,
    j: int,
)
    requires
        field_words(words),
        forall|k: int| 0 <= k < 3 ==> fixed_field(#[trigger] words[k], k),
        months.len() > 0,
        months.len() == indices.len(),
        forall|k: int|
            0 <= k < months.len() ==> abbreviates(#[trigger] months[k], Field::Month, indices[k]),
        abbreviates(from, Field::DayOfWeek, i),
        abbreviates(to, Field::DayOfWeek, j),
        i <= j,
    ensures
        same_schedule(
            words_text(with_day(words.update(3, comma_text(months)), range_text(from, to)), 0),
            words_text(
                with_day(
                    words.update(
                        3,
                        comma_text(number_texts(named_values(Field::Month, indices))),
                    ),
                    range_text(
                        crate::text::decimal_text(i as nat),
                        crate::text::decimal_text(j as nat),
                    ),
                ),
                0,
            ),
        ),
{
    let numbers = comma_text(number_texts(named_values(Field::Month, indices)));
    let span = range_text(crate::text::decimal_text(i as nat), crate::text::decimal_text(j as nat));
    let x = with_day(words.update(3, comma_text(months)), range_text(from, to));
    let y = with_day(words.update(3, numbers), span);
    lemma_name_list(months, Field::Month, indices, 3);
    lemma_name_range(from, to, Field::DayOfWeek, i, j, 4);
    assert forall|k: int| 0 <= k < 5 implies is_word(#[trigger] x[k]) && is_word(y[k])
        && same_field(x[k], y[k], k) by {
        if k < 3 {
            assert(x[k] == words[k] && y[k] == words[k]);
            assert(is_word(words[k]) && fixed_field(words[k], k));
        }
    }
    assert forall|k: int| 0 <= k < 5 implies is_word(#[trigger] y[k]) by {
        assert(is_word(x[k]) && is_word(y[k]));
    }
    assert(x[0] == words[0] && y[0] == words[0]);
    law_same_words_same_schedule(x, y);
}

/// The words of `0 0 * * *`.
#[verifier::opaque]
spec fn midnight() -> Seq<Seq<char>> {
    seq![
        crate::text::decimal_text(0),
        crate::text::decimal_text(0),
        seq!['*'],
        seq!['*'],
        seq!['*'],
    ]
}

proof fn lemma_midnight()
    ensures
        field_words(midnight()),
        forall|k: int| 0 <= k < 5 ==> fixed_field(#[trigger] midnight()[k], k),
{
    reveal(midnight);
    let words = midnight();
    lemma_decimal_word(0);
    assert forall|k: int| 0 <= k < 5 implies is_word(#[trigger] words[k]) && fixed_field(
        words[k],
        k,
    ) by {
        if k < 2 {
            lemma_number_field(0, Field::at(k));
        } else {
            lemma_star_field(Field::at(k));
        }
    }
    assert forall|k: int| 0 <= k < 5 implies is_word(#[trigger] words[k]) by {
        assert(is_word(words[k]) && fixed_field(words[k], k));
    }
}

/// Sunday as 7, a range over Sunday, and names, each written out in numbers: the
/// two texts are specifications and parse to the same schedule.
pub proof fn law_sundays_and_names_written_out()
    ensures
        same_schedule("0 0 * * 7"@, "0 0 * * 0"@),
        same_schedule("0 0 * * 5-7"@, "0 0 * * 0,5,6"@),
        same_schedule("0 0 * jan,MAR,dec mon-Fri"@, "0 0 * 1,3,12 1-5"@),
{
    lemma_sunday_texts();
    lemma_name_texts();
}

proof fn lemma_digits()
    ensures
        crate::text::decimal_text(0) == seq!['0'],
        crate::text::decimal_text(1) == seq!['1'],
        crate::text::decimal_text(3) == seq!['3'],
        crate::text::decimal_text(5) == seq!['5'],
        crate::text::decimal_text(6) == seq!['6'],
        crate::text::decimal_text(7) == seq!['7'],
        crate::text::decimal_text(12) == seq!['1', '2'],
{
    assert(crate::text::decimal_text(1) =~= seq!['1']);
    assert(crate::text::decimal_text(12) =~= crate::text::decimal_text(1).push('2'));
    assert(seq!['1'].push('2') =~= seq!['1', '2']);
}

proof fn lemma_sunday_texts()
    ensures
        same_schedule("0 0 * * 7"@, "0 0 * * 0"@),
        same_schedule("0 0 * * 5-7"@, "0 0 * * 0,5,6"@),
{
    lemma_midnight();
    law_sunday_in_whole_texts(midnight(), 5);
    lemma_sunday_words();
}

proof fn lemma_sunday_words()
    ensures
        words_text(with_day(midnight(), crate::text::decimal_text(7)), 0) == "0 0 * * 7"@,
        words_text(with_day(midnight(), crate::text::decimal_text(0)), 0) == "0 0 * * 0"@,
        words_text(
            with_day(
                midnight(),
                range_text(crate::text::decimal_text(5), crate::text::decimal_text(7)),
            ),
            0,
        ) == "0 0 * * 5-7"@,
        words_text(with_day(midnight(), comma_text(number_texts(days_from(5)))), 0)
            == "0 0 * * 0,5,6"@,
{
    lemma_digits();
    let list = number_texts(days_from(5));
    assert(days_from(5) =~= seq![0nat, 5nat, 6nat]);
    assert(list =~= seq![seq!['0'], seq!['5'], seq!['6']]);
    assert(comma_text(list) =~= seq!['0', ',', '5', ',', '6']) by {
        reveal_with_fuel(comma_text, 4);
        assert(list.skip(1) =~= seq![seq!['5'], seq!['6']]);
        assert(list.skip(1).skip(1) =~= seq![seq!['6']]);
    }
    assert(range_text(seq!['5'], seq!['7']) =~= seq!['5', '-', '7']);
    lemma_midnight_text(seq!['7']);
    lemma_midnight_text(seq!['0']);
    lemma_midnight_text(seq!['5', '-', '7']);
    lemma_midnight_text(seq!['0', ',', '5', ',', '6']);
    reveal_strlit("0 0 * * 7");
    reveal_strlit("0 0 * * 0");
    reveal_strlit("0 0 * * 5-7");
    reveal_strlit("0 0 * * 0,5,6");
    let start = seq!['0', ' ', '0', ' ', '*', ' ', '*', ' '];
    assert("0 0 * * 7"@ =~= start + seq!['7']);
    assert("0 0 * * 0"@ =~= start + seq!['0']);
    assert("0 0 * * 5-7"@ =~= start + seq!['5', '-', '7']);
    assert("0 0 * * 0,5,6"@ =~= start + seq!['0', ',', '5', ',', '6']);
}

proof fn lemma_midnight_text(day: Seq<char>)
    ensures
        words_text(with_day(midnight(), day), 0) == seq!['0', ' ', '0', ' ', '*', ' ', '*', ' ']
            + day,
{
    reveal(midnight);
    lemma_digits();
    let words = with_day(midnight(), day);
    reveal_with_fuel(words_text, 6);
    assert(words[0] == seq!['0'] && words[1] == seq!['0'] && words[2] == seq!['*'] && words[3]
        == seq!['*'] && words[4] == day);
    assert(words_text(words, 4) == day);
    assert(words_text(words, 3) =~= seq!['*', ' '] + day);
    assert(words_text(words, 2) =~= seq!['*', ' ', '*', ' '] + day);
    assert(words_text(words, 1) =~= seq!['0', ' ', '*', ' ', '*', ' '] + day);
    assert(words_text(words, 0) =~= seq!['0', ' ', '0', ' ', '*', ' ', '*', ' '] + day);
}

proof fn lemma_month_text(month: Seq<char>, day: Seq<char>)
    ensures
        words_text(with_day(midnight().update(3, month), day), 0) == seq!['0', ' ', '0', ' ', '*', ' ']
            + month + seq![' '] + day,
{
    reveal(midnight);
    lemma_digits();
    let words = with_day(midnight().update(3, month), day);
    reveal_with_fuel(words_text, 6);
    assert(words[0] == seq!['0'] && words[1] == seq!['0'] && words[2] == seq!['*'] && words[3]
        == month && words[4] == day);
    assert(words_text(words, 4) == day);
    assert(words_text(words, 3) =~= month + seq![' '] + day);
    assert(words_text(words, 2) =~= seq!['*', ' '] + month + seq![' '] + day);
    assert(words_text(words, 1) =~= seq!['0', ' ', '*', ' '] + month + seq![' '] + day);
    assert(words_text(words, 0) =~= seq!['0', ' ', '0', ' ', '*', ' '] + month + seq![' '] + day);
}

proof fn lemma_abbreviation(name: Seq<char>, field: Field, i: int)
    requires
        name.len() == 3,
        crate::schedule::all_letters(name),
        0 <= i < field.name_list().len(),
        field.name_list()[i].len() >= 3,
        crate::text::lower(name[0]) == field.name_list()[i][0],
        crate::text::lower(name[1]) == field.name_list()[i][1],
        crate::text::lower(name[2]) == field.name_list()[i][2],
    ensures
        abbreviates(name, field, i),
{
    assert(field.name_list()[i].take(3) =~= crate::text::lower_seq(name));
}

#[verifier::opaque]
spec fn named_months() -> Seq<Seq<char>> {
    seq![seq!['j', 'a', 'n'], seq!['M', 'A', 'R'], seq!['d', 'e', 'c']]
}

#[verifier::opaque]
spec fn month_indices() -> Seq<int> {
    seq![0int, 2, 11]
}

proof fn lemma_named()
    ensures
        forall|k: int|
            0 <= k < named_months().len() ==> abbreviates(
                #[trigger] named_months()[k],
                Field::Month,
                month_indices()[k],
            ),
        named_months().len() == 3,
        month_indices().len() == 3,
        abbreviates(seq!['m', 'o', 'n'], Field::DayOfWeek, 1),
        abbreviates(seq!['F', 'r', 'i'], Field::DayOfWeek, 5),
{
    reveal(named_months);
    reveal(month_indices);
    let months = named_months();
    assert(abbreviates(months[0], Field::Month, 0)) by {
        reveal_strlit("january");
        lemma_abbreviation(months[0], Field::Month, 0);
    }
    assert(abbreviates(months[1], Field::Month, 2)) by {
        reveal_strlit("march");
        lemma_abbreviation(months[1], Field::Month, 2);
    }
    assert(abbreviates(months[2], Field::Month, 11)) by {
        reveal_strlit("december");
        lemma_abbreviation(months[2], Field::Month, 11);
    }
    assert(abbreviates(seq!['m', 'o', 'n'], Field::DayOfWeek, 1)) by {
        reveal_strlit("monday");
        lemma_abbreviation(seq!['m', 'o', 'n'], Field::DayOfWeek, 1);
    }
    assert(abbreviates(seq!['F', 'r', 'i'], Field::DayOfWeek, 5)) by {
        reveal_strlit("friday");
        lemma_abbreviation(seq!['F', 'r', 'i'], Field::DayOfWeek, 5);
    }
}

proof fn lemma_name_texts()
    ensures
        same_schedule("0 0 * jan,MAR,dec mon-Fri"@, "0 0 * 1,3,12 1-5"@),
{
    lemma_midnight();
    lemma_named();
    law_names_in_whole_texts(
        midnight(),
        named_months(),
        month_indices(),
        seq!['m', 'o', 'n'],
        seq!['F', 'r', 'i'],
        1,
        5,
    );
    lemma_name_words();
    lemma_number_words();
}

proof fn lemma_name_words()
    ensures
        words_text(
            with_day(
                midnight().update(3, comma_text(named_months())),
                range_text(seq!['m', 'o', 'n'], seq!['F', 'r', 'i']),
            ),
            0,
        ) == "0 0 * jan,MAR,dec mon-Fri"@,
{
    reveal(named_months);
    let months = named_months();
    let mon = seq!['m', 'o', 'n'];
    let fri = seq!['F', 'r', 'i'];
    assert(comma_text(months) =~= seq!['j', 'a', 'n', ',', 'M', 'A', 'R', ',', 'd', 'e', 'c']) by {
        reveal_with_fuel(comma_text, 4);
        assert(months.skip(1) =~= seq![months[1], months[2]]);
        assert(months.skip(1).skip(1) =~= seq![months[2]]);
    }
    assert(range_text(mon, fri) =~= seq!['m', 'o', 'n', '-', 'F', 'r', 'i']);
    lemma_month_text(comma_text(months), range_text(mon, fri));
    reveal_strlit("0 0 * jan,MAR,dec mon-Fri");
    assert("0 0 * jan,MAR,dec mon-Fri"@ =~= seq!['0', ' ', '0', ' ', '*', ' '] + comma_text(months)
        + seq![' '] + range_text(mon, fri));
}

proof fn lemma_number_words()
    ensures
        words_text(
            with_day(
                midnight().update(
                    3,
                    comma_text(number_texts(named_values(Field::Month, month_indices()))),
                ),
                range_text(crate::text::decimal_text(1), crate::text::decimal_text(5)),
            ),
            0,
        ) == "0 0 * 1,3,12 1-5"@,
{
    reveal(month_indices);
    lemma_digits();
    let values = named_values(Field::Month, month_indices());
    assert(values =~= seq![1nat, 3nat, 12nat]);
    let numbers = number_texts(values);
    assert(numbers =~= seq![seq!['1'], seq!['3'], seq!['1', '2']]);
    assert(comma_text(numbers) =~= seq!['1', ',', '3', ',', '1', '2']) by {
        reveal_with_fuel(comma_text, 4);
        assert(numbers.skip(1) =~= seq![numbers[1], numbers[2]]);
        assert(numbers.skip(1).skip(1) =~= seq![numbers[2]]);
    }
    let days = range_text(seq!['1'], seq!['5']);
    assert(days =~= seq!['1', '-', '5']);
    lemma_month_text(comma_text(numbers), days);
    reveal_strlit("0 0 * 1,3,12 1-5");
    assert("0 0 * 1,3,12 1-5"@ =~= seq!['0', ' ', '0', ' ', '*', ' '] + comma_text(numbers)
        + seq![' '] + days);
}

// ---------------------------------------------------------------------------
// Shortcuts
// ---------------------------------------------------------------------------

pub proof fn lemma_number_field(n: nat, field: Field)
    requires
        field.min() <= n <= field.max(),
    ensures
        crate::schedule::field_of(crate::text::decimal_text(n), field) == Some(
            FieldModel {
                parts: seq![Part::Range { low: n as u32, high: n as u32, step: 1 }],
                star: false,
            },
        ),
{
    let s = crate::text::decimal_text(n);
    lemma_decimal_plain(n);
    lemma_plain(s);
    law_numbers_are_read_back(n);
    lemma_value_part(s, field);
    lemma_list(s, seq![], field);
    assert(s[0] != '*');
}

pub proof fn lemma_star_field(field: Field)
    ensures
        crate::schedule::field_of(seq!['*'], field) == Some(
            FieldModel {
                parts: seq![Part::Range { low: field.min(), high: field.max(), step: 1 }],
                star: true,
            },
        ),
{
    let s = seq!['*'];
    assert(s[0] == '*');
    assert(!s.contains('/'));
    assert(!s.contains(','));
    lemma_uncut(s, '/');
    lemma_list(s, seq![], field);
}

/// A word for a fixed number or for every value.
spec fn short_word(n: Option<nat>) -> Seq<char> {
    match n {
        Some(n) => crate::text::decimal_text(n),
        None => seq!['*'],
    }
}

/// A line of fixed numbers and stars is a specification with nothing left over.
proof fn lemma_short_line(v: Seq<Option<nat>>, text: Seq<char>)
    requires
        v.len() == 5,
        forall|k: int|
            0 <= k < 5 ==> ((#[trigger] v[k]) matches Some(n) ==> Field::at(k).min() <= n
                <= Field::at(k).max()),
        text == words_text(v.map_values(|n: Option<nat>| short_word(n)), 0),
    ensures
        crate::schedule::prefix_of(text) matches Ok((Some(fields), rest)) && rest.len() == 0
            && all_decided(fields),
        crate::text::trim_start(text) == text,
        text.len() > 0 && text[0] != '@',
{
    let words = v.map_values(|n: Option<nat>| short_word(n));
    assert forall|k: int| 0 <= k < 5 implies is_word(#[trigger] words[k]) && words[k][0] != '@'
        && crate::schedule::field_of(words[k], Field::at(k)) is Some && decided(
        crate::schedule::field_of(words[k], Field::at(k))->0.parts,
    ) by {
        assert(words[k] == short_word(v[k]));
        match v[k] {
            Some(n) => {
                lemma_decimal(n);
                lemma_number_field(n, Field::at(k));
                assert(crate::text::digit(words[k][0]));
                assert forall|i: int| 0 <= i < words[k].len() implies !crate::text::white(
                    #[trigger] words[k][i],
                ) by {
                    assert(crate::text::digit(words[k][i]));
                }
            },
            None => {
                lemma_star_field(Field::at(k));
            },
        }
    }
    assert(is_word(words[0]) && words[0][0] != '@');
    lemma_line(words);
    lemma_words(words, 0);
    lemma_decided_words(words, 0);
}

proof fn lemma_decided_words(words: Seq<Seq<char>>, k: int)
    requires
        0 <= k <= 5,
        forall|k: int|
            0 <= k < 5 ==> crate::schedule::field_of(#[trigger] words[k], Field::at(k)) is Some
                && decided(crate::schedule::field_of(words[k], Field::at(k))->0.parts),
    ensures
        fields_of(words, k) matches Ok((fields, rest)) && rest.len() == 0 && fields.len() == 5 - k
            && forall|i: int| 0 <= i < 5 - k ==> decided((#[trigger] fields[i]).parts),
    decreases 5 - k,
{
    if k < 5 {
        lemma_decided_words(words, k + 1);
        assert(crate::schedule::field_of(words[k], Field::at(k)) is Some);
        let rest = fields_of(words, k + 1)->Ok_0.0;
        let all = fields_of(words, k)->Ok_0.0;
        assert forall|i: int| 0 <= i < 5 - k implies decided((#[trigger] all[i]).parts) by {
            if i > 0 {
                assert(all[i] == rest[i - 1]);
            }
        }
    }
}

/// The words of the texts that shortcuts stand for.
#[verifier::opaque]
spec fn shortcut_values(text: Seq<char>) -> Seq<Option<nat>> {
    let star = None::<nat>;
    let zero = Some(0nat);
    let one = Some(1nat);
    if text == "0 0 1 1 *"@ {
        seq![zero, zero, one, one, star]
    } else if text == "0 0 1 * *"@ {
        seq![zero, zero, one, star, star]
    } else if text == "0 0 * * 0"@ {
        seq![zero, zero, star, star, zero]
    } else if text == "0 0 * * *"@ {
        seq![zero, zero, star, star, star]
    } else {
        seq![zero, star, star, star, star]
    }
}

proof fn lemma_shortcut_values(text: Seq<char>)
    requires
        text == "0 0 1 1 *"@ || text == "0 0 1 * *"@ || text == "0 0 * * 0"@ || text == "0 0 * * *"@
            || text == "0 * * * *"@,
    ensures
        ({
            let v = shortcut_values(text);
            &&& v.len() == 5
            &&& forall|k: int|
                0 <= k < 5 ==> ((#[trigger] v[k]) matches Some(n) ==> Field::at(k).min() <= n
                    <= Field::at(k).max())
            &&& text == words_text(v.map_values(|n: Option<nat>| short_word(n)), 0)
        }),
{
    reveal(shortcut_values);
    reveal_strlit("0 0 1 1 *");
    reveal_strlit("0 0 1 * *");
    reveal_strlit("0 0 * * 0");
    reveal_strlit("0 0 * * *");
    reveal_strlit("0 * * * *");
    lemma_digits();
    let v = shortcut_values(text);
    let words = v.map_values(|n: Option<nat>| short_word(n));
    reveal_with_fuel(words_text, 6);
    assert(words[0] == short_word(v[0]) && words[1] == short_word(v[1]) && words[2] == short_word(
        v[2],
    ) && words[3] == short_word(v[3]) && words[4] == short_word(v[4]));
    assert(text =~= words_text(words, 0));
}

/// The text of a shortcut is a specification with nothing left over.
proof fn lemma_shortcut_text(text: Seq<char>)
    requires
        text == "0 0 1 1 *"@ || text == "0 0 1 * *"@ || text == "0 0 * * 0"@ || text == "0 0 * * *"@
            || text == "0 * * * *"@,
    ensures
        crate::schedule::prefix_of(text) matches Ok((Some(fields), rest)) && rest.len() == 0
            && all_decided(fields),
        crate::text::trim_start(text) == text,
        text.len() > 0 && text[0] != '@',
{
    lemma_shortcut_values(text);
    lemma_short_line(shortcut_values(text), text);
}

/// The name of a shortcut holds no white space.
proof fn lemma_shortcut_name(name: Seq<char>)
    requires
        crate::schedule::shortcut(name) is Some,
    ensures
        is_word(name),
{
    let low = crate::text::lower_seq(name);
    reveal_strlit("reboot");
    reveal_strlit("yearly");
    reveal_strlit("annually");
    reveal_strlit("monthly");
    reveal_strlit("weekly");
    reveal_strlit("daily");
    reveal_strlit("midnight");
    reveal_strlit("hourly");
    assert(low.len() == name.len());
    assert forall|i: int| 0 <= i < name.len() implies !crate::text::white(#[trigger] name[i]) by {
        assert(low[i] == crate::text::lower(name[i]));
        assert(crate::text::letter(low[i]));
    }
}

/// A shortcut, written in any case, says what its five fields say; `@reboot` is a
/// specification of its own. Neither leaves anything of the line over, nor to
/// chance.
pub proof fn law_shortcuts(name: Seq<char>)
    ensures
        crate::schedule::shortcut(name) matches Some(Some(text)) ==> {
            &&& crate::schedule::prefix_of(seq!['@'] + name) == crate::schedule::prefix_of(text)
            &&& crate::schedule::prefix_of(text) matches Ok((Some(fields), rest)) && rest.len() == 0
                && all_decided(fields)
        },
        crate::schedule::shortcut(name) matches Some(None) ==> crate::schedule::prefix_of(
            seq!['@'] + name,
        ) == Ok::<(Option<Seq<FieldModel>>, Seq<char>), crate::schedule::ScheduleError>(
            (None, seq![]),
        ),
{
    if crate::schedule::shortcut(name) is Some {
        let line = seq!['@'] + name;
        lemma_shortcut_name(name);
        lemma_first_word(name, seq![]);
        crate::text::lemma_lead_white_is(line, 0);
        assert(line.skip(0) =~= line);
        assert(line.skip(1) =~= name);
        if crate::schedule::shortcut(name)->0 is Some {
            let text = crate::schedule::shortcut(name)->0->0;
            lemma_shortcut_text(text);
            let rest = crate::schedule::prefix_of(text)->Ok_0.1;
            assert(rest =~= seq![]);
        }
    }
}

/// A shortcut and its five fields parse to the same schedule.
pub proof fn law_shortcuts_in_whole_texts(name: Seq<char>, text: Seq<char>)
    requires
        crate::schedule::shortcut(name) == Some(Some(text)),
    ensures
        same_schedule(seq!['@'] + name, text),
{
    law_shortcuts(name);
    let short = seq!['@'] + name;
    let f = crate::schedule::prefix_of(text)->Ok_0.0->0;
    assert(alike(f, f));
    assert forall|s: Schedule, t: Schedule|
        #![trigger parses_to(short, s), parses_to(text, t)]
        parses_to(short, s) && parses_to(text, t) implies s == t by {
        let d = choose|d: Seq<Seq<u32>>|
            crate::schedule::admissible(f, d) && s.described_by(f, d);
        let e = choose|e: Seq<Seq<u32>>|
            crate::schedule::admissible(f, e) && t.described_by(f, e);
        law_alike_is_the_same(f, f, d, e, s, t);
    }
}

/// What the shortcuts stand for.
pub proof fn law_shortcut_names()
    ensures
        crate::schedule::shortcut("yearly"@) == Some(Some("0 0 1 1 *"@)),
        crate::schedule::shortcut("annually"@) == Some(Some("0 0 1 1 *"@)),
        crate::schedule::shortcut("monthly"@) == Some(Some("0 0 1 * *"@)),
        crate::schedule::shortcut("weekly"@) == Some(Some("0 0 * * 0"@)),
        crate::schedule::shortcut("daily"@) == Some(Some("0 0 * * *"@)),
        crate::schedule::shortcut("midnight"@) == Some(Some("0 0 * * *"@)),
        crate::schedule::shortcut("hourly"@) == Some(Some("0 * * * *"@)),
        crate::schedule::shortcut("reboot"@) == Some(None::<Seq<char>>),
{
    reveal_strlit("reboot");
    reveal_strlit("yearly");
    reveal_strlit("annually");
    reveal_strlit("monthly");
    reveal_strlit("weekly");
    reveal_strlit("daily");
    reveal_strlit("midnight");
    reveal_strlit("hourly");
    assert(crate::text::lower_seq("yearly"@) =~= "yearly"@);
    assert(crate::text::lower_seq("annually"@) =~= "annually"@);
    assert(crate::text::lower_seq("monthly"@) =~= "monthly"@);
    assert(crate::text::lower_seq("weekly"@) =~= "weekly"@);
    assert(crate::text::lower_seq("daily"@) =~= "daily"@);
    assert(crate::text::lower_seq("midnight"@) =~= "midnight"@);
    assert(crate::text::lower_seq("hourly"@) =~= "hourly"@);
    assert(crate::text::lower_seq("reboot"@) =~= "reboot"@);
    assert("reboot"@[0] == 'r' && "yearly"@[0] == 'y' && "weekly"@[0] == 'w' && "hourly"@[0] == 'h');
    assert("annually"@[0] == 'a' && "midnight"@[0] == 'm');
    assert("monthly"@.len() == 7 && "daily"@.len() == 5);
}

proof fn lemma_first_bad(words: Seq<Seq<char>>, j: int, k: int)
    requires
        0 <= j <= k < 5,
        forall|i: int|
            0 <= i < k ==> crate::schedule::field_of(#[trigger] words[i], Field::at(i)) is Some,
        crate::schedule::field_of(words[k], Field::at(k)) is None,
    ensures
        fields_of(words, j) == Err::<(Seq<FieldModel>, Seq<char>), crate::schedule::ScheduleError>(
            Field::at(k).err(),
        ),
    decreases k - j,
{
    if j < k {
        assert(crate::schedule::field_of(words[j], Field::at(j)) is Some);
        lemma_first_bad(words, j + 1, k);
    }
}

/// The first word that is no field in its place is the one that is told.
pub proof fn law_first_bad_word(words: Seq<Seq<char>>, k: int)
    requires
        field_words(words),
        0 <= k < 5,
        forall|i: int|
            0 <= i < k ==> crate::schedule::field_of(#[trigger] words[i], Field::at(i)) is Some,
        crate::schedule::field_of(words[k], Field::at(k)) is None,
    ensures
        crate::schedule::prefix_of(words_text(words, 0)) == Err::<
            (Option<Seq<FieldModel>>, Seq<char>),
            crate::schedule::ScheduleError,
        >(Field::at(k).err()),
{
    lemma_line(words);
    lemma_first_bad(words, 0, k);
}

/// A number outside the bounds of a field is no value of it.
pub proof fn lemma_bad_number(n: nat, field: Field)
    requires
        !(field.min() <= n <= field.max()),
        n <= i32::MAX,
    ensures
        crate::schedule::field_of(crate::text::decimal_text(n), field) is None,
{
    let s = crate::text::decimal_text(n);
    lemma_decimal_plain(n);
    lemma_plain(s);
    law_numbers_are_read_back(n);
    lemma_value_part(s, field);
    lemma_list(s, seq![], field);
}

/// The text of a shortcut begins with its first field.
pub proof fn lemma_shortcut_start(name: Seq<char>, text: Seq<char>)
    requires
        crate::schedule::shortcut(name) == Some(Some(text)),
    ensures
        crate::text::trim_start(text) == text,
        text.len() > 0 && text[0] != '@',
{
    lemma_shortcut_text(text);
}

/// What two bounds with a tilde between them say.
pub proof fn lemma_chance_part(low: Seq<char>, high: Seq<char>, step: Seq<char>, field: Field)
    requires
        plain(low),
        plain(high),
    ensures
        ({
            let base = joined_by(low, '~', high);
            let range = match (
                crate::schedule::bound_of(low, field, field.min()),
                crate::schedule::bound_of(high, field, field.max()),
            ) {
                (Some(a), Some(b)) => crate::schedule::within(a, b, field),
                _ => None,
            };
            &&& crate::schedule::part_of(base, field) == match range {
                Some((a, b)) => Some(Part::Random { low: a, high: b }),
                None => None,
            }
            &&& match crate::schedule::number(step) {
                Some(n) if n > 0 => crate::schedule::part_of(stepped_text(base, step), field)
                    == match range {
                    Some((a, b)) => Some(Part::RandomStep { low: a, high: b, step: n as u32 }),
                    None => None,
                },
                _ => true,
            }
        }),
{
    let base = joined_by(low, '~', high);
    lemma_plain(low);
    lemma_plain(high);
    lemma_cut(low, '~', high);
    assert(base[low.len() as int] == '~');
    assert forall|i: int| 0 <= i < base.len() implies #[trigger] base[i] != '/' && base[i]
        != '*' by {
        if i < low.len() {
            assert(base[i] == low[i]);
        } else if i > low.len() {
            assert(base[i] == high[i - low.len() - 1]);
        }
    }
    assert(!base.contains('/'));
    assert(base != seq!['*']) by {
        if base == seq!['*'] {
            assert(base[0] == '*');
        }
    }
    lemma_uncut(base, '/');
    lemma_cut(base, '/', step);
}

// ---------------------------------------------------------------------------
// What is no element of a list
// ---------------------------------------------------------------------------

/// A step must be a positive number.
pub proof fn law_bad_steps(base: Seq<char>, step: Seq<char>, field: Field)
    requires
        !base.contains('/'),
        step.len() == 0 || (exists|i: int|
            0 <= i < step.len() && !crate::text::digit(#[trigger] step[i])) || step
            == crate::text::decimal_text(0),
    ensures
        crate::schedule::part_of(stepped_text(base, step), field) is None,
{
    lemma_cut(base, '/', step);
    law_numbers_are_read_back(0);
}

/// A range must not go backwards, and both its ends must be values of the field.
pub proof fn law_bad_ranges(low: nat, high: nat, field: Field)
    requires
        low <= i32::MAX,
        high <= i32::MAX,
    ensures
        crate::schedule::part_of(
            range_text(crate::text::decimal_text(low), crate::text::decimal_text(high)),
            field,
        ) is Some <==> field.min() <= low <= high <= field.max(),
{
    let a = crate::text::decimal_text(low);
    let b = crate::text::decimal_text(high);
    lemma_decimal_plain(low);
    lemma_decimal_plain(high);
    law_numbers_are_read_back(low);
    law_numbers_are_read_back(high);
    lemma_range_part(a, b, crate::text::decimal_text(1), field);
}

/// A word of letters is a value exactly if at least three of them begin a name of
/// the field.
pub proof fn law_unknown_names(s: Seq<char>, field: Field)
    requires
        s.len() > 0,
        crate::schedule::all_letters(s),
    ensures
        crate::schedule::value_of(s, field) is Some <==> s.len() >= 3 && exists|i: int|
            0 <= i < field.name_list().len() && crate::text::has_prefix(
                #[trigger] field.name_list()[i],
                crate::text::lower_seq(s),
            ),
{
    assert(crate::text::letter(s[0]));
    assert(!crate::text::digit(s[0]));
    assert(crate::schedule::number(s) is None);
    let list = field.name_list();
    let p = crate::text::lower_seq(s);
    lemma_first_named_found(list, p);
}

proof fn lemma_first_named_found(list: Seq<Seq<char>>, p: Seq<char>)
    ensures
        0 <= crate::schedule::first_named(list, p) <= list.len(),
        crate::schedule::first_named(list, p) < list.len() <==> exists|i: int|
            0 <= i < list.len() && crate::text::has_prefix(#[trigger] list[i], p),
    decreases list.len(),
{
    if list.len() > 0 {
        if crate::text::has_prefix(list[0], p) {
        } else {
            let t = list.skip(1);
            lemma_first_named_found(t, p);
            if exists|i: int| 0 <= i < list.len() && crate::text::has_prefix(#[trigger] list[i], p) {
                let i = choose|i: int|
                    0 <= i < list.len() && crate::text::has_prefix(#[trigger] list[i], p);
                assert(t[i - 1] == list[i]);
            }
            if exists|i: int| 0 <= i < t.len() && crate::text::has_prefix(#[trigger] t[i], p) {
                let i = choose|i: int|
                    0 <= i < t.len() && crate::text::has_prefix(#[trigger] t[i], p);
                assert(list[i + 1] == t[i]);
            }
        }
    }
}

/// A list is bad as soon as one of its elements is, be it that it is empty.
pub proof fn law_bad_elements(a: Seq<char>, rest: Seq<char>, field: Field)
    requires
        !a.contains(','),
    ensures
        a.len() == 0 ==> crate::schedule::parts_of(joined_by(a, ',', rest), field) is None,
        a.len() > 0 && crate::schedule::part_of(a, field) is None ==> crate::schedule::parts_of(
            joined_by(a, ',', rest),
            field,
        ) is None,
        a.len() > 0 && crate::schedule::parts_of(rest, field) is None ==> crate::schedule::parts_of(
            joined_by(a, ',', rest),
            field,
        ) is None,
        crate::schedule::parts_of(seq![], field) is None,
{
    lemma_cut(a, ',', rest);
    let none = Seq::<char>::empty();
    crate::text::lemma_first_of_is(none, ',', 0);
    let whole = joined_by(a, ',', rest);
    assert(whole.take(a.len() as int) =~= a);
    assert(whole.skip(a.len() as int + 1) =~= rest);
    if a.len() > 0 {
        lemma_list(a, rest, field);
    }
}

/// A field counts as a wildcard exactly if it begins with a star.
pub proof fn law_star_fields(word: Seq<char>, field: Field)
    requires
        crate::schedule::field_of(word, field) is Some,
    ensures
        (crate::schedule::field_of(word, field)->0).star <==> word.len() > 0 && word[0] == '*',
        crate::schedule::parts_of(word, field) == Some(
            (crate::schedule::field_of(word, field)->0).parts,
        ),
{
}

} // verus!
