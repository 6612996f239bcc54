//! Laws about time specifications as a whole: at which times what is written
//! fires.

use vstd::prelude::*;

use crate::calendar::WallTime;
use crate::notation::{admits, decided, field_words, parses_to, words_text};
use crate::schedule::{Field, FieldModel, Part, Schedule, ScheduleError};

verus! {

/// Can the number stand in the field at position `k`: minutes to 59, hours to 23,
/// days from 1 to 31, months from 1 to 12, days of the week to 7?
pub open spec fn in_place(k: int, n: nat) -> bool {
    &&& k == 0 ==> n <= 59
    &&& k == 1 ==> n <= 23
    &&& k == 2 ==> 1 <= n <= 31
    &&& k == 3 ==> 1 <= n <= 12
    &&& k == 4 ==> n <= 7
}

proof fn lemma_in_place(k: int, n: nat)
    requires
        0 <= k < 5,
    ensures
        in_place(k, n) <==> Field::at(k).min() <= n <= Field::at(k).max(),
{
}

/// What the schedule of five words does, in terms of what the words select.
proof fn lemma_fires(words: Seq<Seq<char>>, fs: Seq<FieldModel>, s: Schedule, t: WallTime)
    requires
        field_words(words),
        fs.len() == 5,
        forall|k: int|
            0 <= k < 5 ==> crate::schedule::field_of(#[trigger] words[k], Field::at(k)) == Some(
                fs[k],
            ) && decided(fs[k].parts),
        parses_to(words_text(words, 0), s),
    ensures
        s.fires(t) <==> {
            &&& admits(fs[0].parts, t.minute as int)
            &&& admits(fs[1].parts, t.hour as int)
            &&& admits(fs[3].parts, t.month as int)
            &&& if fs[2].star || fs[4].star {
                admits(fs[2].parts, t.day as int) && crate::notation::admits_day(
                    fs[4].parts,
                    t.weekday(),
                )
            } else {
                admits(fs[2].parts, t.day as int) || crate::notation::admits_day(
                    fs[4].parts,
                    t.weekday(),
                )
            }
        },
        s.star(0) == fs[0].star,
        s.star(1) == fs[1].star,
{
    crate::notation::law_words_are_fields(words);
    let f = crate::schedule::prefix_of(words_text(words, 0))->Ok_0.0->0;
    assert forall|k: int| 0 <= k < 5 implies f[k] == fs[k] by {
        assert(crate::schedule::field_of(words[k], Field::at(k)) == Some(fs[k]));
    }
    let draws = choose|draws: Seq<Seq<u32>>|
        crate::schedule::admissible(f, draws) && s.described_by(f, draws);
    assert(decided(fs[0].parts) && decided(fs[1].parts) && decided(fs[2].parts) && decided(
        fs[3].parts,
    ) && decided(fs[4].parts)) by {
        assert(crate::schedule::field_of(words[0], Field::at(0)) == Some(fs[0]));
        assert(crate::schedule::field_of(words[1], Field::at(1)) == Some(fs[1]));
        assert(crate::schedule::field_of(words[2], Field::at(2)) == Some(fs[2]));
        assert(crate::schedule::field_of(words[3], Field::at(3)) == Some(fs[3]));
        assert(crate::schedule::field_of(words[4], Field::at(4)) == Some(fs[4]));
    }
    crate::notation::lemma_chosen(fs[0].parts, draws[0], t.minute as int);
    crate::notation::lemma_chosen(fs[1].parts, draws[1], t.hour as int);
    crate::notation::lemma_chosen(fs[2].parts, draws[2], t.day as int);
    crate::notation::lemma_chosen(fs[3].parts, draws[3], t.month as int);
    crate::notation::lemma_chosen(fs[4].parts, draws[4], t.weekday());
    crate::notation::lemma_chosen(fs[4].parts, draws[4], 7);
    assert(s.has(0, t.minute as int) == crate::schedule::chosen(
        f[0].parts,
        draws[0],
        t.minute as int,
    ));
    assert(s.has(1, t.hour as int) == crate::schedule::chosen(f[1].parts, draws[1], t.hour as int));
    assert(s.has(2, t.day as int) == crate::schedule::chosen(f[2].parts, draws[2], t.day as int));
    assert(s.has(3, t.month as int) == crate::schedule::chosen(
        f[3].parts,
        draws[3],
        t.month as int,
    ));
}

proof fn lemma_one_range(low: nat, high: nat, step: nat, v: int)
    requires
        low <= high <= 59,
        1 <= step <= i32::MAX,
    ensures
        admits(
            seq![Part::Range { low: low as u32, high: high as u32, step: step as u32 }],
            v,
        ) <==> low <= v <= high && (v - low) % (step as int) == 0,
{
    let p = Part::Range { low: low as u32, high: high as u32, step: step as u32 };
    let parts = seq![p];
    assert(parts[0] == p);
    if crate::schedule::selects(p, v) {
        assert(crate::schedule::selects(parts[0], v));
    }
}

/// A number for a number, or a star.
pub open spec fn number_or_star(n: Option<nat>) -> Seq<char> {
    match n {
        Some(n) => crate::text::decimal_text(n),
        None => seq!['*'],
    }
}

/// The five fields of numbers and stars.
pub open spec fn numbers_and_stars(v: Seq<Option<nat>>) -> Seq<Seq<char>> {
    v.map_values(|n: Option<nat>| number_or_star(n))
}

/// A specification of numbers and stars fires in the minutes, hours and months
/// that it names, a star standing for all of them. Of the two fields for the day,
/// those that are no star count: if there is one, the day must be the one it
/// names, and if there are two, either will do. Sunday is 0 and 7.
pub proof fn law_numbers_and_stars(v: Seq<Option<nat>>, s: Schedule, t: WallTime)
    requires
        v.len() == 5,
        forall|k: int| 0 <= k < 5 ==> ((#[trigger] v[k]) matches Some(n) ==> in_place(k, n)),
        parses_to(words_text(numbers_and_stars(v), 0), s),
        t.valid(),
    ensures
        s.fires(t) <==> {
            &&& v[0] matches Some(n) ==> t.minute == n
            &&& v[1] matches Some(n) ==> t.hour == n
            &&& v[3] matches Some(n) ==> t.month == n
            &&& match (v[2], v[4]) {
                (None, None) => true,
                (Some(d), None) => t.day == d,
                (None, Some(w)) => t.weekday() == if w == 7 {
                    0
                } else {
                    w as int
                },
                (Some(d), Some(w)) => t.day == d || t.weekday() == if w == 7 {
                    0
                } else {
                    w as int
                },
            }
        },
        s.wild() <==> v[0] is None || v[1] is None,
{
    let words = numbers_and_stars(v);
    let fs = Seq::new(
        5,
        |k: int|
            match v[k] {
                Some(n) => FieldModel {
                    parts: seq![Part::Range { low: n as u32, high: n as u32, step: 1 }],
                    star: false,
                },
                None => FieldModel {
                    parts: seq![
                        Part::Range { low: Field::at(k).min(), high: Field::at(k).max(), step: 1 },
                    ],
                    star: true,
                },
            },
    );
    assert forall|k: int| 0 <= k < 5 implies crate::notation::is_word(#[trigger] words[k])
        && words[k][0] != '@' && crate::schedule::field_of(words[k], Field::at(k)) == Some(fs[k])
        && decided(fs[k].parts) by {
        assert(words[k] == number_or_star(v[k]));
        match v[k] {
            Some(n) => {
                lemma_in_place(k, n);
                crate::notation::lemma_decimal_word(n);
                crate::notation::lemma_number_field(n, Field::at(k));
                crate::notation::lemma_decimal(n);
                assert(crate::text::digit(words[k][0]));
            },
            None => {
                crate::notation::lemma_star_field(Field::at(k));
                assert(words[k][0] == '*');
            },
        }
    }
    assert(crate::notation::is_word(words[0]) && words[0][0] != '@');
    lemma_fires(words, fs, s, t);
    lemma_number_or_star(v[0], 0, t.minute as int);
    lemma_number_or_star(v[1], 1, t.hour as int);
    lemma_number_or_star(v[2], 2, t.day as int);
    lemma_number_or_star(v[3], 3, t.month as int);
    lemma_number_or_star(v[4], 4, t.weekday());
    lemma_number_or_star(v[4], 4, 7);
}

proof fn lemma_number_or_star(n: Option<nat>, k: int, v: int)
    requires
        0 <= k < 5,
        n matches Some(m) ==> in_place(k, m),
    ensures
        n matches Some(m) ==> (admits(
            seq![Part::Range { low: m as u32, high: m as u32, step: 1 }],
            v,
        ) <==> v == m),
        n is None ==> (admits(
            seq![Part::Range { low: Field::at(k).min(), high: Field::at(k).max(), step: 1 }],
            v,
        ) <==> Field::at(k).min() <= v <= Field::at(k).max()),
{
    match n {
        Some(m) => {
            lemma_one_range(m, m, 1, v);
        },
        None => {
            lemma_one_range(Field::at(k).min() as nat, Field::at(k).max() as nat, 1, v);
        },
    }
}

/// The text `low-high/step`.
pub open spec fn stepped_range(r: (nat, nat, nat)) -> Seq<char> {
    crate::text::decimal_text(r.0) + seq!['-'] + crate::text::decimal_text(r.1) + seq!['/']
        + crate::text::decimal_text(r.2)
}

/// Is the number one of those that `low-high/step` counts?
pub open spec fn counts(r: (nat, nat, nat), v: int) -> bool {
    r.0 <= v <= r.1 && (v - r.0) % (r.2 as int) == 0
}

/// A specification of ranges fires at the times of which each range counts the
/// minute, the hour and the month, and one of the two ranges for the day does.
pub proof fn law_ranges_with_steps(r: Seq<(nat, nat, nat)>, s: Schedule, t: WallTime)
    requires
        r.len() == 5,
        forall|k: int|
            0 <= k < 5 ==> in_place(k, (#[trigger] r[k]).0) && r[k].0 <= r[k].1 && in_place(
                k,
                r[k].1,
            ) && 1 <= r[k].2 <= i32::MAX,
        parses_to(words_text(r.map_values(|x: (nat, nat, nat)| stepped_range(x)), 0), s),
    ensures
        s.fires(t) <==> {
            &&& counts(r[0], t.minute as int)
            &&& counts(r[1], t.hour as int)
            &&& counts(r[3], t.month as int)
            &&& counts(r[2], t.day as int) || counts(r[4], t.weekday()) || t.weekday() == 0
                && counts(r[4], 7)
        },
        !s.wild(),
{
    let words = r.map_values(|x: (nat, nat, nat)| stepped_range(x));
    let fs = Seq::new(
        5,
        |k: int|
            FieldModel {
                parts: seq![
                    Part::Range { low: r[k].0 as u32, high: r[k].1 as u32, step: r[k].2 as u32 },
                ],
                star: false,
            },
    );
    assert forall|k: int| 0 <= k < 5 implies crate::notation::is_word(#[trigger] words[k])
        && words[k][0] != '@' && crate::schedule::field_of(words[k], Field::at(k)) == Some(fs[k])
        && decided(fs[k].parts) by {
        assert(in_place(k, r[k].0));
        lemma_in_place(k, r[k].0);
        lemma_in_place(k, r[k].1);
        lemma_stepped_word(r[k], Field::at(k));
        assert(words[k] == stepped_range(r[k]));
    }
    assert(crate::notation::is_word(words[0]) && words[0][0] != '@');
    assert forall|k: int| 0 <= k < 5 implies r[k].0 <= r[k].1 <= 59 && 1 <= (#[trigger] r[k]).2
        <= i32::MAX by {
        assert(in_place(k, r[k].0));
        lemma_in_place(k, r[k].1);
    }
    lemma_fires(words, fs, s, t);
    lemma_one_range(r[0].0, r[0].1, r[0].2, t.minute as int);
    lemma_one_range(r[1].0, r[1].1, r[1].2, t.hour as int);
    lemma_one_range(r[2].0, r[2].1, r[2].2, t.day as int);
    lemma_one_range(r[3].0, r[3].1, r[3].2, t.month as int);
    lemma_one_range(r[4].0, r[4].1, r[4].2, t.weekday());
    lemma_one_range(r[4].0, r[4].1, r[4].2, 7);
}

proof fn lemma_stepped_word(r: (nat, nat, nat), field: Field)
    requires
        field.min() <= r.0 <= r.1 <= field.max(),
        1 <= r.2 <= i32::MAX,
    ensures
        crate::notation::is_word(stepped_range(r)),
        stepped_range(r)[0] != '@',
        crate::schedule::field_of(stepped_range(r), field) == Some(
            FieldModel {
                parts: seq![
                    Part::Range { low: r.0 as u32, high: r.1 as u32, step: r.2 as u32 },
                ],
                star: false,
            },
        ),
{
    let a = crate::text::decimal_text(r.0);
    let b = crate::text::decimal_text(r.1);
    let c = crate::text::decimal_text(r.2);
    let range = crate::notation::range_text(a, b);
    let word = crate::notation::stepped_text(range, c);
    assert(stepped_range(r) =~= word);
    crate::notation::law_written_range(field, r.0, r.1, r.2);
    crate::notation::lemma_decimal_word(r.0);
    crate::notation::lemma_decimal_word(r.1);
    crate::notation::lemma_decimal_word(r.2);
    crate::notation::lemma_joined_word(a, '-', b);
    crate::notation::lemma_joined_word(range, '/', c);
    crate::notation::lemma_decimal(r.0);
    crate::notation::lemma_decimal_plain(r.0);
    crate::notation::lemma_decimal_plain(r.1);
    crate::notation::lemma_decimal_plain(r.2);
    assert(crate::text::digit(a[0]));
    assert(word[0] == a[0]);
    assert(!word.contains(',')) by {
        assert forall|i: int| 0 <= i < word.len() implies word[i] != ',' by {
            if i < a.len() {
                assert(word[i] == a[i]);
            } else if i > a.len() && i < a.len() + 1 + b.len() {
                assert(word[i] == b[i - a.len() - 1]);
            } else if i > a.len() + 1 + b.len() {
                assert(word[i] == c[i - a.len() - b.len() - 2]);
            }
        }
    }
    crate::notation::lemma_list(word, seq![], field);
}

/// The text `*/step`.
pub open spec fn stepped_star(step: nat) -> Seq<char> {
    seq!['*', '/'] + crate::text::decimal_text(step)
}

/// A specification of stars with steps fires every so many minutes, hours, days
/// and months, counted from the first of each; since both fields for the day
/// begin with a star, both of them must count the day.
pub proof fn law_stars_with_steps(n: Seq<nat>, s: Schedule, t: WallTime)
    requires
        n.len() == 5,
        forall|k: int| 0 <= k < 5 ==> 1 <= #[trigger] n[k] <= i32::MAX,
        parses_to(words_text(n.map_values(|x: nat| stepped_star(x)), 0), s),
        t.valid(),
    ensures
        s.fires(t) <==> {
            &&& t.minute as int % n[0] as int == 0
            &&& t.hour as int % n[1] as int == 0
            &&& (t.day - 1) % n[2] as int == 0
            &&& (t.month - 1) % n[3] as int == 0
            &&& t.weekday() % n[4] as int == 0
        },
        s.wild(),
{
    let words = n.map_values(|x: nat| stepped_star(x));
    let fs = Seq::new(
        5,
        |k: int|
            FieldModel {
                parts: seq![
                    Part::Range {
                        low: Field::at(k).min(),
                        high: Field::at(k).max(),
                        step: n[k] as u32,
                    },
                ],
                star: true,
            },
    );
    assert forall|k: int| 0 <= k < 5 implies crate::notation::is_word(#[trigger] words[k])
        && words[k][0] != '@' && crate::schedule::field_of(words[k], Field::at(k)) == Some(fs[k])
        && decided(fs[k].parts) by {
        assert(1 <= n[k] <= i32::MAX);
        lemma_star_word(n[k], Field::at(k));
        assert(words[k] == stepped_star(n[k]));
    }
    assert(crate::notation::is_word(words[0]) && words[0][0] != '@');
    assert(1 <= n[0] <= i32::MAX && 1 <= n[1] <= i32::MAX && 1 <= n[2] <= i32::MAX && 1 <= n[3]
        <= i32::MAX && 1 <= n[4] <= i32::MAX);
    lemma_fires(words, fs, s, t);
    lemma_one_range(0, 59, n[0], t.minute as int);
    lemma_one_range(0, 23, n[1], t.hour as int);
    lemma_one_range(1, 31, n[2], t.day as int);
    lemma_one_range(1, 12, n[3], t.month as int);
    lemma_one_range(0, 7, n[4], t.weekday());
    lemma_one_range(0, 7, n[4], 7);
    vstd::arithmetic::div_mod::lemma_small_mod(0, n[4]);
}

proof fn lemma_star_word(step: nat, field: Field)
    requires
        1 <= step <= i32::MAX,
    ensures
        crate::notation::is_word(stepped_star(step)),
        stepped_star(step)[0] == '*',
        crate::schedule::field_of(stepped_star(step), field) == Some(
            FieldModel {
                parts: seq![
                    Part::Range { low: field.min(), high: field.max(), step: step as u32 },
                ],
                star: true,
            },
        ),
{
    let star = seq!['*'];
    let by = crate::text::decimal_text(step);
    let word = crate::notation::stepped_text(star, by);
    assert(stepped_star(step) =~= word);
    assert(star[0] == '*');
    crate::notation::law_written_range(field, field.min() as nat, field.max() as nat, step);
    crate::notation::lemma_decimal_word(step);
    crate::notation::lemma_joined_word(star, '/', by);
    crate::notation::lemma_decimal_plain(step);
    assert(!word.contains(',')) by {
        assert forall|i: int| 0 <= i < word.len() implies word[i] != ',' by {
            if i >= 2 {
                assert(word[i] == by[i - 2]);
            }
        }
    }
    crate::notation::lemma_list(word, seq![], field);
}

/// The numbers, with commas between them.
pub open spec fn listed_numbers(values: Seq<nat>) -> Seq<char> {
    crate::notation::comma_text(crate::notation::number_texts(values))
}

/// A specification of lists fires at the times whose minute, hour and month are
/// on their lists, and whose day of the month or day of the week is on its own.
pub proof fn law_lists(v: Seq<Seq<nat>>, s: Schedule, t: WallTime)
    requires
        v.len() == 5,
        forall|k: int| 0 <= k < 5 ==> (#[trigger] v[k]).len() > 0,
        forall|k: int, i: int| 0 <= k < 5 && 0 <= i < v[k].len() ==> in_place(k, #[trigger] v[k][i]),
        parses_to(words_text(v.map_values(|x: Seq<nat>| listed_numbers(x)), 0), s),
        t.valid(),
    ensures
        s.fires(t) <==> {
            &&& v[0].contains(t.minute as nat)
            &&& v[1].contains(t.hour as nat)
            &&& v[3].contains(t.month as nat)
            &&& v[2].contains(t.day as nat) || v[4].contains(t.weekday() as nat) || t.weekday()
                == 0 && v[4].contains(7)
        },
        !s.wild(),
{
    let words = v.map_values(|x: Seq<nat>| listed_numbers(x));
    let fs = Seq::new(
        5,
        |k: int| FieldModel { parts: crate::notation::single_parts(v[k]), star: false },
    );
    assert forall|k: int| 0 <= k < 5 implies crate::notation::is_word(#[trigger] words[k])
        && words[k][0] != '@' && crate::schedule::field_of(words[k], Field::at(k)) == Some(fs[k])
        && decided(fs[k].parts) by {
        assert(v[k].len() > 0);
        assert forall|i: int| 0 <= i < v[k].len() implies Field::at(k).min() <= #[trigger] v[k][i]
            <= Field::at(k).max() by {
            assert(in_place(k, v[k][i]));
        }
        lemma_listed_word(v[k], Field::at(k));
        assert(words[k] == listed_numbers(v[k]));
    }
    assert(crate::notation::is_word(words[0]) && words[0][0] != '@');
    lemma_fires(words, fs, s, t);
    lemma_listed_values(v, 0, t.minute as int);
    lemma_listed_values(v, 1, t.hour as int);
    lemma_listed_values(v, 2, t.day as int);
    lemma_listed_values(v, 3, t.month as int);
    lemma_listed_values(v, 4, t.weekday());
    lemma_listed_values(v, 4, 7);
}

proof fn lemma_listed_word(values: Seq<nat>, field: Field)
    requires
        values.len() > 0,
        forall|i: int| 0 <= i < values.len() ==> field.min() <= #[trigger] values[i] <= field.max(),
    ensures
        crate::notation::is_word(listed_numbers(values)),
        listed_numbers(values)[0] != '@',
        crate::schedule::field_of(listed_numbers(values), field) == Some(
            FieldModel { parts: crate::notation::single_parts(values), star: false },
        ),
{
    let list = crate::notation::number_texts(values);
    crate::notation::lemma_number_texts(values, field);
    crate::notation::law_lists_of_values(list, values, field);
    assert forall|i: int| 0 <= i < list.len() implies crate::notation::is_word(
        #[trigger] list[i],
    ) by {
        crate::notation::lemma_decimal_word(values[i]);
    }
    crate::notation::lemma_comma_word(list);
    crate::notation::lemma_decimal(values[0]);
    assert(crate::text::digit(list[0][0]));
}

proof fn lemma_listed_values(v: Seq<Seq<nat>>, k: int, x: int)
    requires
        v.len() == 5,
        0 <= k < 5,
        0 <= x,
        forall|k: int, i: int| 0 <= k < 5 && 0 <= i < v[k].len() ==> in_place(k, #[trigger] v[k][i]),
    ensures
        admits(crate::notation::single_parts(v[k]), x) <==> v[k].contains(x as nat),
{
    let values = v[k];
    let parts = crate::notation::single_parts(values);
    assert forall|i: int| 0 <= i < values.len() implies (crate::schedule::selects(
        #[trigger] parts[i],
        x,
    ) <==> x == values[i]) by {
        assert(in_place(k, v[k][i]));
        assert(values[i] <= 59);
        vstd::arithmetic::div_mod::lemma_small_mod(0, 1);
    }
    if values.contains(x as nat) {
        let i = choose|i: int| 0 <= i < values.len() && values[i] == x as nat;
        assert(crate::schedule::selects(parts[i], x));
    }
    if admits(parts, x) {
        let i = choose|i: int| 0 <= i < parts.len() && crate::schedule::selects(
            #[trigger] parts[i],
            x,
        );
        assert(values[i] == x);
    }
}

// ---------------------------------------------------------------------------
// What is a specification
// ---------------------------------------------------------------------------

proof fn lemma_is_spec(words: Seq<Seq<char>>)
    requires
        field_words(words),
        forall|k: int|
            0 <= k < 5 ==> crate::schedule::field_of(#[trigger] words[k], Field::at(k)) is Some,
    ensures
        crate::notation::is_spec(words_text(words, 0)),
{
    crate::notation::law_words_are_fields(words);
}

/// Numbers in their places and stars make a specification.
pub proof fn law_numbers_and_stars_are_read(v: Seq<Option<nat>>)
    requires
        v.len() == 5,
        forall|k: int| 0 <= k < 5 ==> ((#[trigger] v[k]) matches Some(n) ==> in_place(k, n)),
    ensures
        crate::notation::is_spec(words_text(numbers_and_stars(v), 0)),
{
    let words = numbers_and_stars(v);
    assert forall|k: int| 0 <= k < 5 implies crate::notation::is_word(#[trigger] words[k])
        && words[k][0] != '@' && crate::schedule::field_of(words[k], Field::at(k)) is Some by {
        assert(words[k] == number_or_star(v[k]));
        match v[k] {
            Some(n) => {
                lemma_in_place(k, n);
                crate::notation::lemma_decimal_word(n);
                crate::notation::lemma_number_field(n, Field::at(k));
            },
            None => {
                crate::notation::lemma_star_field(Field::at(k));
                assert(words[k][0] == '*');
            },
        }
    }
    assert(crate::notation::is_word(words[0]) && words[0][0] != '@');
    lemma_is_spec(words);
}

/// Ranges of numbers in their places make a specification.
pub proof fn law_ranges_are_read(r: Seq<(nat, nat, nat)>)
    requires
        r.len() == 5,
        forall|k: int|
            0 <= k < 5 ==> in_place(k, (#[trigger] r[k]).0) && r[k].0 <= r[k].1 && in_place(
                k,
                r[k].1,
            ) && 1 <= r[k].2 <= i32::MAX,
    ensures
        crate::notation::is_spec(
            words_text(r.map_values(|x: (nat, nat, nat)| stepped_range(x)), 0),
        ),
{
    let words = r.map_values(|x: (nat, nat, nat)| stepped_range(x));
    assert forall|k: int| 0 <= k < 5 implies crate::notation::is_word(#[trigger] words[k])
        && words[k][0] != '@' && crate::schedule::field_of(words[k], Field::at(k)) is Some by {
        assert(in_place(k, r[k].0));
        lemma_in_place(k, r[k].0);
        lemma_in_place(k, r[k].1);
        lemma_stepped_word(r[k], Field::at(k));
        assert(words[k] == stepped_range(r[k]));
    }
    assert(crate::notation::is_word(words[0]) && words[0][0] != '@');
    lemma_is_spec(words);
}

/// Stars with steps make a specification.
pub proof fn law_stars_are_read(n: Seq<nat>)
    requires
        n.len() == 5,
        forall|k: int| 0 <= k < 5 ==> 1 <= #[trigger] n[k] <= i32::MAX,
    ensures
        crate::notation::is_spec(words_text(n.map_values(|x: nat| stepped_star(x)), 0)),
{
    let words = n.map_values(|x: nat| stepped_star(x));
    assert forall|k: int| 0 <= k < 5 implies crate::notation::is_word(#[trigger] words[k])
        && words[k][0] != '@' && crate::schedule::field_of(words[k], Field::at(k)) is Some by {
        assert(1 <= n[k] <= i32::MAX);
        lemma_star_word(n[k], Field::at(k));
        assert(words[k] == stepped_star(n[k]));
    }
    assert(crate::notation::is_word(words[0]) && words[0][0] != '@');
    lemma_is_spec(words);
}

/// Lists of numbers in their places make a specification.
pub proof fn law_lists_are_read(v: Seq<Seq<nat>>)
    requires
        v.len() == 5,
        forall|k: int| 0 <= k < 5 ==> (#[trigger] v[k]).len() > 0,
        forall|k: int, i: int| 0 <= k < 5 && 0 <= i < v[k].len() ==> in_place(k, #[trigger] v[k][i]),
    ensures
        crate::notation::is_spec(words_text(v.map_values(|x: Seq<nat>| listed_numbers(x)), 0)),
{
    let words = v.map_values(|x: Seq<nat>| listed_numbers(x));
    assert forall|k: int| 0 <= k < 5 implies crate::notation::is_word(#[trigger] words[k])
        && words[k][0] != '@' && crate::schedule::field_of(words[k], Field::at(k)) is Some by {
        assert(v[k].len() > 0);
        assert forall|i: int| 0 <= i < v[k].len() implies Field::at(k).min() <= #[trigger] v[k][i]
            <= Field::at(k).max() by {
            assert(in_place(k, v[k][i]));
        }
        lemma_listed_word(v[k], Field::at(k));
        assert(words[k] == listed_numbers(v[k]));
    }
    assert(crate::notation::is_word(words[0]) && words[0][0] != '@');
    lemma_is_spec(words);
}

/// The error that says which field is bad.
pub open spec fn bad_field(k: int) -> ScheduleError {
    if k == 0 {
        ScheduleError::BadMinute
    } else if k == 1 {
        ScheduleError::BadHour
    } else if k == 2 {
        ScheduleError::BadDayOfMonth
    } else if k == 3 {
        ScheduleError::BadMonth
    } else {
        ScheduleError::BadDayOfWeek
    }
}

/// A number that is too large or too small for its place makes the specification
/// bad, and the first such number is the one that is told.
pub proof fn law_numbers_out_of_place(v: Seq<Option<nat>>, k: int)
    requires
        v.len() == 5,
        0 <= k < 5,
        forall|j: int| 0 <= j < k ==> ((#[trigger] v[j]) matches Some(n) ==> in_place(j, n)),
        v[k] matches Some(n) && !in_place(k, n) && n <= i32::MAX,
    ensures
        crate::schedule::prefix_of(words_text(numbers_and_stars(v), 0)) == Err::<
            (Option<Seq<FieldModel>>, Seq<char>),
            ScheduleError,
        >(bad_field(k)),
{
    let words = numbers_and_stars(v);
    assert forall|j: int| 0 <= j < 5 implies crate::notation::is_word(#[trigger] words[j])
        && words[j][0] != '@' by {
        assert(words[j] == number_or_star(v[j]));
        match v[j] {
            Some(n) => {
                crate::notation::lemma_decimal_word(n);
            },
            None => {
                assert(words[j][0] == '*');
            },
        }
    }
    assert(crate::notation::is_word(words[0]) && words[0][0] != '@');
    assert forall|j: int| 0 <= j < k implies crate::schedule::field_of(
        #[trigger] words[j],
        Field::at(j),
    ) is Some by {
        assert(words[j] == number_or_star(v[j]));
        match v[j] {
            Some(n) => {
                lemma_in_place(j, n);
                crate::notation::lemma_number_field(n, Field::at(j));
            },
            None => {
                crate::notation::lemma_star_field(Field::at(j));
            },
        }
    }
    let n = v[k]->0;
    assert(words[k] == number_or_star(v[k]));
    lemma_in_place(k, n);
    crate::notation::lemma_bad_number(n, Field::at(k));
    crate::notation::law_first_bad_word(words, k);
}

// ---------------------------------------------------------------------------
// Spaces
// ---------------------------------------------------------------------------

/// The words from position `k` on, each with the white space behind it, and then
/// the rest of the line.
pub open spec fn spaced(
    words: Seq<Seq<char>>,
    spaces: Seq<Seq<char>>,
    rest: Seq<char>,
    k: int,
) -> Seq<char>
    decreases 5 - k,
{
    if k >= 5 {
        rest
    } else {
        words[k] + spaces[k] + spaced(words, spaces, rest, k + 1)
    }
}

proof fn lemma_spaced(
    words: Seq<Seq<char>>,
    spaces: Seq<Seq<char>>,
    rest: Seq<char>,
    fs: Seq<FieldModel>,
    k: int,
)
    requires
        field_words(words),
        spaces.len() == 5,
        fs.len() == 5,
        0 <= k <= 5,
        forall|j: int| 0 <= j < 5 ==> crate::lines::blank(#[trigger] spaces[j]),
        forall|j: int| 0 <= j < 4 ==> (#[trigger] spaces[j]).len() > 0,
        spaces[4].len() > 0 || rest.len() == 0,
        rest.len() > 0 ==> !crate::text::white(rest[0]),
        forall|j: int|
            0 <= j < 5 ==> crate::schedule::field_of(#[trigger] words[j], Field::at(j)) == Some(
                fs[j],
            ),
    ensures
        crate::schedule::fields_from(spaced(words, spaces, rest, k), k) == Ok::<
            (Seq<FieldModel>, Seq<char>),
            ScheduleError,
        >((fs.skip(k), rest)),
        k < 5 ==> spaced(words, spaces, rest, k).len() > 0 && spaced(words, spaces, rest, k)[0]
            == words[k][0] && !crate::text::white(words[k][0]),
    decreases 5 - k,
{
    if k == 5 {
        assert(fs.skip(5) =~= seq![]);
    } else {
        lemma_spaced(words, spaces, rest, fs, k + 1);
        let tail = spaced(words, spaces, rest, k + 1);
        assert(crate::notation::is_word(words[k]));
        assert(crate::lines::blank(spaces[k]));
        crate::lines::lemma_first_word(words[k], spaces[k], tail);
        assert(crate::schedule::field_of(words[k], Field::at(k)) == Some(fs[k]));
        assert(seq![fs[k]] + fs.skip(k + 1) =~= fs.skip(k));
    }
}

/// Whatever white space stands before, between and behind the five fields, they
/// say the same, and what follows them is the rest of the line, as it is.
pub proof fn law_spaces_between_fields(
    lead: Seq<char>,
    words: Seq<Seq<char>>,
    spaces: Seq<Seq<char>>,
    rest: Seq<char>,
    fs: Seq<FieldModel>,
)
    requires
        crate::lines::blank(lead),
        field_words(words),
        spaces.len() == 5,
        fs.len() == 5,
        forall|j: int| 0 <= j < 5 ==> crate::lines::blank(#[trigger] spaces[j]),
        forall|j: int| 0 <= j < 4 ==> (#[trigger] spaces[j]).len() > 0,
        spaces[4].len() > 0 || rest.len() == 0,
        rest.len() > 0 ==> !crate::text::white(rest[0]),
        forall|j: int|
            0 <= j < 5 ==> crate::schedule::field_of(#[trigger] words[j], Field::at(j)) == Some(
                fs[j],
            ),
    ensures
        crate::schedule::prefix_of(lead + spaced(words, spaces, rest, 0)) == Ok::<
            (Option<Seq<FieldModel>>, Seq<char>),
            ScheduleError,
        >((Some(fs), rest)),
{
    lemma_spaced(words, spaces, rest, fs, 0);
    crate::lines::lemma_skip_blank(lead, spaced(words, spaces, rest, 0));
    assert(fs.skip(0) =~= fs);
}

/// A shortcut may stand in place of the five fields; what follows it is the rest
/// of the line, as it is.
pub proof fn law_spaces_behind_shortcuts(
    lead: Seq<char>,
    name: Seq<char>,
    space: Seq<char>,
    rest: Seq<char>,
)
    requires
        crate::lines::blank(lead),
        crate::lines::blank(space),
        space.len() > 0 || rest.len() == 0,
        rest.len() > 0 ==> !crate::text::white(rest[0]),
        forall|i: int| 0 <= i < name.len() ==> !crate::text::white(#[trigger] name[i]),
    ensures
        ({
            let line = lead + seq!['@'] + name + space + rest;
            match crate::schedule::shortcut(name) {
                None => crate::schedule::prefix_of(line) == Err::<
                    (Option<Seq<FieldModel>>, Seq<char>),
                    ScheduleError,
                >(ScheduleError::BadTimeSpecifier),
                Some(None) => crate::schedule::prefix_of(line) == Ok::<
                    (Option<Seq<FieldModel>>, Seq<char>),
                    ScheduleError,
                >((None, rest)),
                Some(Some(text)) => crate::schedule::prefix_of(text) matches Ok((fields, _))
                    && crate::schedule::prefix_of(line) == Ok::<
                    (Option<Seq<FieldModel>>, Seq<char>),
                    ScheduleError,
                >((fields, rest)),
            }
        }),
{
    let body = seq!['@'] + (name + space + rest);
    assert(lead + seq!['@'] + name + space + rest =~= lead + body);
    assert(body[0] == '@');
    crate::lines::lemma_skip_blank(lead, body);
    assert(body.skip(1) =~= name + space + rest);
    crate::lines::lemma_first_word(name, space, rest);
    if let Some(Some(text)) = crate::schedule::shortcut(name) {
        crate::notation::law_shortcuts(name);
        crate::notation::lemma_shortcut_start(name, text);
    }
}

// ---------------------------------------------------------------------------
// Chance, names and numbers
// ---------------------------------------------------------------------------

/// The least value of the field at position `k`.
pub open spec fn least(k: int) -> nat {
    if k == 2 || k == 3 {
        1
    } else {
        0
    }
}

/// The largest value of the field at position `k`.
pub open spec fn most(k: int) -> nat {
    if k == 0 {
        59
    } else if k == 1 {
        23
    } else if k == 2 {
        31
    } else if k == 3 {
        12
    } else {
        7
    }
}

/// `low~high` leaves the choice of one value between the two to chance, and
/// `low~high/step` that of the first of every so many values. The bounds must be in
/// order; they may lie outside of the field as long as some value between them does
/// not, and only such values are chosen from.
#[verifier::spinoff_prover]
#[verifier::rlimit(60)]
pub proof fn law_written_chance(k: int, low: nat, high: nat, step: nat)
    requires
        0 <= k < 5,
        low <= i32::MAX,
        high <= i32::MAX,
        1 <= step <= i32::MAX,
    ensures
        ({
            let range = crate::text::decimal_text(low) + seq!['~'] + crate::text::decimal_text(
                high,
            );
            let stepped = range + seq!['/'] + crate::text::decimal_text(step);
            let first = if low < least(k) {
                least(k)
            } else {
                low
            };
            let last = if high > most(k) {
                most(k)
            } else {
                high
            };
            let good = low <= high && first <= last;
            &&& good ==> crate::schedule::part_of(range, Field::at(k)) == Some(
                Part::Random { low: first as u32, high: last as u32 },
            )
            &&& good ==> crate::schedule::part_of(stepped, Field::at(k)) == Some(
                Part::RandomStep { low: first as u32, high: last as u32, step: step as u32 },
            )
            &&& !good ==> crate::schedule::part_of(range, Field::at(k)) is None
            &&& !good ==> crate::schedule::part_of(stepped, Field::at(k)) is None
        }),
{
    let field = Field::at(k);
    lemma_bound(low, field);
    lemma_bound(high, field);
    lemma_chance(
        crate::text::decimal_text(low),
        crate::text::decimal_text(high),
        low as i32,
        high as i32,
        step,
        field,
    );
    assert(field.min() == least(k) && field.max() == most(k));
}

/// A lower bound that is left out is the smallest value of the field.
#[verifier::spinoff_prover]
#[verifier::rlimit(60)]
pub proof fn law_chance_from_the_start(k: int, high: nat)
    requires
        0 <= k < 5,
        in_place(k, high),
    ensures
        crate::schedule::part_of(seq!['~'] + crate::text::decimal_text(high), Field::at(k)) == Some(
            Part::Random {
                low: least(k) as u32,
                high: high as u32,
            },
        ),
{
    let field = Field::at(k);
    let b = crate::text::decimal_text(high);
    let none = Seq::<char>::empty();
    lemma_in_place(k, high);
    lemma_bound(high, field);
    lemma_no_bound(field);
    lemma_chance(none, b, field.min() as i32, high as i32, 1, field);
    assert(none + seq!['~'] + b =~= seq!['~'] + b);
}

/// An upper bound that is left out is the largest value of the field.
#[verifier::spinoff_prover]
#[verifier::rlimit(60)]
pub proof fn law_chance_to_the_end(k: int, low: nat)
    requires
        0 <= k < 5,
        in_place(k, low),
    ensures
        crate::schedule::part_of(crate::text::decimal_text(low) + seq!['~'], Field::at(k)) == Some(
            Part::Random {
                low: low as u32,
                high: most(k) as u32,
            },
        ),
{
    let field = Field::at(k);
    let a = crate::text::decimal_text(low);
    let none = Seq::<char>::empty();
    lemma_in_place(k, low);
    lemma_bound(low, field);
    lemma_no_bound(field);
    lemma_chance(a, none, low as i32, field.max() as i32, 1, field);
    assert(a + seq!['~'] + none =~= a + seq!['~']);
}

proof fn lemma_bound(n: nat, field: Field)
    requires
        n <= i32::MAX,
    ensures
        crate::notation::plain(crate::text::decimal_text(n)),
        forall|default: u32| #[trigger]
            crate::schedule::bound_of(crate::text::decimal_text(n), field, default) == Some(
                n as i32,
            ),
{
    crate::notation::lemma_decimal_plain(n);
    crate::notation::law_numbers_are_read_back(n);
}

proof fn lemma_no_bound(field: Field)
    ensures
        crate::notation::plain(Seq::<char>::empty()),
        forall|default: u32| #[trigger]
            crate::schedule::bound_of(Seq::<char>::empty(), field, default) == Some(
                default as i32,
            ),
{
}

/// What a tilde between two bounds says.
#[verifier::spinoff_prover]
#[verifier::rlimit(60)]
proof fn lemma_chance(
    low: Seq<char>,
    high: Seq<char>,
    x: i32,
    y: i32,
    step: nat,
    field: Field,
)
    requires
        crate::notation::plain(low),
        crate::notation::plain(high),
        crate::schedule::bound_of(low, field, field.min()) == Some(x),
        crate::schedule::bound_of(high, field, field.max()) == Some(y),
        1 <= step <= i32::MAX,
    ensures
        crate::schedule::part_of(low + seq!['~'] + high, field) == match crate::schedule::within(
            x,
            y,
            field,
        ) {
            Some((a, b)) => Some(Part::Random { low: a, high: b }),
            None => None,
        },
        crate::schedule::part_of(
            low + seq!['~'] + high + seq!['/'] + crate::text::decimal_text(step),
            field,
        ) == match crate::schedule::within(x, y, field) {
            Some((a, b)) => Some(Part::RandomStep { low: a, high: b, step: step as u32 }),
            None => None,
        },
{
    let by = crate::text::decimal_text(step);
    crate::notation::law_numbers_are_read_back(step);
    crate::notation::lemma_chance_part(low, high, by, field);
    assert(crate::notation::joined_by(low, '~', high) == low + seq!['~'] + high);
    assert(crate::notation::stepped_text(low + seq!['~'] + high, by) == low + seq!['~'] + high
        + seq!['/'] + by);
}

/// Wherever chance falls, the value lies between the bounds. With a step it lies in
/// the first step, and every further step up to the upper bound is taken from there.
pub proof fn law_choices(low: u32, high: u32, step: u32, draw: u32)
    requires
        low <= high <= 59,
        1 <= step,
    ensures
        crate::schedule::request(Part::Random { low, high }) == (low, high),
        crate::schedule::request(Part::RandomStep { low, high, step }).0 == low,
        crate::schedule::request(Part::RandomStep { low, high, step }).1 <= high,
        crate::schedule::request(Part::RandomStep { low, high, step }).1 - low < step,
        high - low < step ==> crate::schedule::request(Part::RandomStep { low, high, step }).1
            == high,
        high - low >= step ==> crate::schedule::request(Part::RandomStep { low, high, step }).1
            == low + step - 1,
        forall|v: int|
            crate::schedule::selects(
                #[trigger] crate::schedule::fixed(Part::Random { low, high }, draw),
                v,
            ) <==> v == draw,
        forall|v: int|
            crate::schedule::selects(
                #[trigger] crate::schedule::fixed(Part::RandomStep { low, high, step }, draw),
                v,
            ) <==> draw <= v <= high && (v - draw) % (step as int) == 0,
{
    assert forall|v: int|
        crate::schedule::selects(
            #[trigger] crate::schedule::fixed(Part::Random { low, high }, draw),
            v,
        ) <==> v == draw by {
        vstd::arithmetic::div_mod::lemma_small_mod(0, 1);
    }
}

/// Numbers that do not fit are read as C reads them into an `int`: the lowest 32
/// bits count, and all numbers beyond 63 bits are the same one.
pub proof fn law_large_numbers(n: nat, m: nat)
    ensures
        n <= i64::MAX ==> (crate::schedule::number(crate::text::decimal_text(n)) matches Some(r)
            && (n - r) % 0x1_0000_0000 == 0),
        n >= i64::MAX && m >= i64::MAX ==> crate::schedule::number(crate::text::decimal_text(n))
            == crate::schedule::number(crate::text::decimal_text(m)),
{
    crate::notation::lemma_decimal(n);
    crate::notation::lemma_decimal(m);
}

/// The names of the months, and those of the days, which begin with Sunday.
pub proof fn law_names()
    ensures
        Field::Month.name_list() == seq![
            "january"@,
            "february"@,
            "march"@,
            "april"@,
            "may"@,
            "june"@,
            "july"@,
            "august"@,
            "september"@,
            "october"@,
            "november"@,
            "december"@,
        ],
        Field::DayOfWeek.name_list() == seq![
            "sunday"@,
            "monday"@,
            "tuesday"@,
            "wednesday"@,
            "thursday"@,
            "friday"@,
            "saturday"@,
        ],
        Field::Minute.name_list().len() == 0,
        Field::Hour.name_list().len() == 0,
        Field::DayOfMonth.name_list().len() == 0,
{
}

// ---------------------------------------------------------------------------
// Searching and warnings
// ---------------------------------------------------------------------------

/// The next time a schedule fires is the first one: it fires then, in a later
/// minute, and in no minute between. If there is none, no minute up to the limit
/// fires.
pub proof fn law_next_time(
    s: Schedule,
    after: WallTime,
    max_years: u32,
    r: Option<WallTime>,
    w: WallTime,
)
    requires
        call_ensures(Schedule::next_after, (&s, &after, max_years), r),
        after.valid(),
        12 * max_years <= u32::MAX,
        w.valid(),
        after.minute_number() < w.minute_number(),
        w.minute_number() <= crate::calendar::months_later(
            after,
            12 * max_years,
        ).minute_number(),
        after.year + max_years <= crate::calendar::MAX_YEAR,
    ensures
        r matches Some(t) ==> s.fires(t) && t.valid() && t.second == 0 && after.minute_number()
            < t.minute_number(),
        r matches Some(t) ==> (w.minute_number() < t.minute_number() ==> !s.fires(w)),
        r is None ==> !s.fires(w),
        s.fires(w) ==> r is Some && r->0.minute_number() <= w.minute_number(),
{
}

/// Every step beyond the largest value of its field gives a warning that tells
/// both, in order, and nothing else does.
pub proof fn law_step_warnings(parts: Seq<Part>, p: Part, k: int)
    requires
        0 <= k < 5,
    ensures
        ({
            let field = Field::at(k);
            let most = if k == 0 {
                59u32
            } else if k == 1 {
                23
            } else if k == 2 {
                31
            } else if k == 3 {
                12
            } else {
                7
            };
            let step = match p {
                Part::Range { step, .. } => step,
                Part::Random { .. } => 1,
                Part::RandomStep { step, .. } => step,
            };
            let before = crate::schedule::list_warnings(parts, field);
            let after = crate::schedule::list_warnings(parts.push(p), field);
            &&& step > most ==> after.len() == before.len() + 1 && after.drop_last() == before
                && after.last().step == step && after.last().max == most
            &&& step <= most ==> after == before
            &&& crate::schedule::list_warnings(seq![], field).len() == 0
        }),
{
    assert(parts.push(p).drop_last() =~= parts);
    let field = Field::at(k);
    let after = crate::schedule::list_warnings(parts.push(p), field);
    let before = crate::schedule::list_warnings(parts, field);
    if after.len() > before.len() {
        assert(after.drop_last() =~= before);
    }
}

/// The warnings about a line are those about its five fields, in their order; a
/// line that is no specification gives none.
pub proof fn law_line_warnings(line: Seq<char>)
    ensures
        crate::schedule::prefix_of(line) matches Ok((Some(f), _)) ==> crate::schedule::line_warnings(
            line,
        ) == crate::schedule::list_warnings(f[0].parts, Field::Minute)
            + crate::schedule::list_warnings(f[1].parts, Field::Hour)
            + crate::schedule::list_warnings(f[2].parts, Field::DayOfMonth)
            + crate::schedule::list_warnings(f[3].parts, Field::Month)
            + crate::schedule::list_warnings(f[4].parts, Field::DayOfWeek),
        crate::schedule::prefix_of(line) is Err ==> crate::schedule::line_warnings(line).len() == 0,
{
    if let Ok((Some(f), _)) = crate::schedule::prefix_of(line) {
        reveal_with_fuel(crate::schedule::field_warnings, 6);
        let a = crate::schedule::list_warnings(f[0].parts, Field::Minute);
        assert(Seq::<crate::schedule::StepWarning>::empty() + a =~= a);
    }
}

/// Warnings are given about job lines only, line by line; a minus sign before the
/// time does not keep them back.
pub proof fn law_warned_jobs(
    lines: Seq<crate::crontab::Line>,
    n: int,
    text: Seq<char>,
    ended: bool,
)
    requires
        0 <= n < lines.len(),
        text.len() > 0,
        !crate::text::white(text[0]),
    ensures
        crate::crontab::warnings_in(lines, n + 1) == crate::crontab::warnings_in(lines, n)
            + crate::crontab::warnings_about(lines[n]),
        crate::crontab::warnings_in(lines, 0).len() == 0,
        text[0] == '#' ==> crate::crontab::warnings_about(
            crate::crontab::Line { text, ended },
        ).len() == 0,
        crate::crontab::env_line(text) is Some ==> crate::crontab::warnings_about(
            crate::crontab::Line { text, ended },
        ).len() == 0,
        text[0] != '#' && text[0] != '-' && crate::crontab::env_line(text) is None
            ==> crate::crontab::warnings_about(crate::crontab::Line { text, ended })
            == crate::schedule::line_warnings(text),
        text[0] == '-' && text.len() > 1 && !crate::text::white(text[1]) && crate::crontab::env_line(
            text,
        ) is None ==> crate::crontab::warnings_about(crate::crontab::Line { text, ended })
            == crate::schedule::line_warnings(text.skip(1)),
{
    crate::lines::lemma_starts(text);
    if text.len() > 1 && !crate::text::white(text[1]) {
        assert(text.skip(1)[0] == text[1]);
        crate::lines::lemma_starts(text.skip(1));
    }
}

/// The fields of numbers and stars.
pub open spec fn read_fields_of(v: Seq<Option<nat>>) -> Seq<FieldModel> {
    Seq::new(
        5,
        |k: int|
            match v[k] {
                Some(n) => FieldModel {
                    parts: seq![Part::Range { low: n as u32, high: n as u32, step: 1 }],
                    star: false,
                },
                None => FieldModel {
                    parts: seq![
                        Part::Range { low: Field::at(k).min(), high: Field::at(k).max(), step: 1 },
                    ],
                    star: true,
                },
            },
    )
}

pub proof fn lemma_read_fields(v: Seq<Option<nat>>)
    requires
        v.len() == 5,
        forall|k: int| 0 <= k < 5 ==> ((#[trigger] v[k]) matches Some(n) ==> in_place(k, n)),
    ensures
        ({
            let words = numbers_and_stars(v);
            &&& field_words(words)
            &&& '0' <= words[0][0] <= '9' || words[0][0] == '*'
            &&& forall|k: int|
                0 <= k < 5 ==> crate::schedule::field_of(#[trigger] words[k], Field::at(k)) == Some(
                    read_fields_of(v)[k],
                )
            &&& crate::schedule::prefix_of(words_text(words, 0)) == Ok::<
                (Option<Seq<FieldModel>>, Seq<char>),
                ScheduleError,
            >((Some(read_fields_of(v)), seq![]))
        }),
{
    let words = numbers_and_stars(v);
    let fs = read_fields_of(v);
    assert forall|k: int| 0 <= k < 5 implies crate::notation::is_word(#[trigger] words[k]) && (
    '0' <= words[k][0] <= '9' || words[k][0] == '*') && crate::schedule::field_of(
        words[k],
        Field::at(k),
    ) == Some(fs[k]) by {
        assert(words[k] == number_or_star(v[k]));
        match v[k] {
            Some(n) => {
                lemma_in_place(k, n);
                crate::notation::lemma_decimal_word(n);
                crate::notation::lemma_number_field(n, Field::at(k));
                crate::notation::lemma_decimal(n);
                assert(crate::text::digit(words[k][0]));
            },
            None => {
                crate::notation::lemma_star_field(Field::at(k));
                assert(words[k][0] == '*');
            },
        }
    }
    assert(crate::notation::is_word(words[0]) && words[0][0] != '@');
    crate::notation::law_words_are_fields(words);
    let (f, rest) = crate::schedule::prefix_of(words_text(words, 0))->Ok_0;
    assert(rest =~= seq![]);
    assert forall|k: int| 0 <= k < 5 implies (f->0)[k] == fs[k] by {
        assert(crate::schedule::field_of(words[k], Field::at(k)) == Some(fs[k]));
    }
    assert(f->0 =~= fs);
}

/// A whole text parses exactly if it is a specification with nothing behind it, to
/// a schedule that it describes.
pub proof fn law_parsed_schedules(text: &str, r: Result<Schedule, ScheduleError>)
    requires
        call_ensures(Schedule::parse, (text,), r),
    ensures
        r is Ok <==> crate::notation::is_spec(text@),
        r matches Ok(s) ==> parses_to(text@, s),
        crate::schedule::prefix_of(text@) matches Err(e) ==> r == Err::<Schedule, ScheduleError>(e),
        crate::schedule::prefix_of(text@) matches Ok((_, rest)) && rest.len() > 0 ==> r == Err::<
            Schedule,
            ScheduleError,
        >(ScheduleError::BadTimeSpecifier),
{
}

/// The choices that a specification asks for are those of its parts: the bounds of
/// a random value, those of a random first value, and none for any other part.
pub proof fn law_requests(fields: Seq<FieldModel>, requests: Seq<Vec<(u32, u32)>>, k: int, i: int)
    requires
        crate::schedule::asks(fields, requests),
        0 <= k < fields.len(),
        0 <= i < fields[k].parts.len(),
    ensures
        requests.len() == fields.len(),
        requests[k]@.len() == fields[k].parts.len(),
        fields[k].parts[i] matches Part::Random { low, high } ==> requests[k]@[i] == (low, high),
        fields[k].parts[i] is Range ==> requests[k]@[i] == (0u32, 0u32),
        fields[k].parts[i] matches Part::RandomStep { low, high, step } ==> (low <= high && step > 0
            ==> requests[k]@[i].0 == low && low <= requests[k]@[i].1 <= high),
{
    assert(requests[k]@.len() == fields[k].parts.len());
    assert(requests[k]@[i] == crate::schedule::request(fields[k].parts[i]));
}

/// A line that ends before its fifth field is bad, and the first field that is
/// missing is told.
pub proof fn law_missing_fields(lead: Seq<char>, words: Seq<Seq<char>>, k: int)
    requires
        crate::lines::blank(lead),
        field_words(words),
        0 <= k < 5,
        forall|j: int|
            0 <= j < k ==> crate::schedule::field_of(#[trigger] words[j], Field::at(j)) is Some,
    ensures
        crate::schedule::prefix_of(lead + some_words(words, 0, k)) == Err::<
            (Option<Seq<FieldModel>>, Seq<char>),
            ScheduleError,
        >(bad_field(k)),
{
    lemma_some_words(words, 0, k);
    let text = some_words(words, 0, k);
    if k > 0 {
        assert(crate::notation::is_word(words[0]));
    }
    crate::lines::lemma_skip_blank(lead, text);
}

/// The words from position `j` up to `k`, each with a space behind it.
pub open spec fn some_words(words: Seq<Seq<char>>, j: int, k: int) -> Seq<char>
    decreases k - j,
{
    if j >= k {
        seq![]
    } else {
        words[j] + seq![' '] + some_words(words, j + 1, k)
    }
}

proof fn lemma_some_words(words: Seq<Seq<char>>, j: int, k: int)
    requires
        field_words(words),
        0 <= j <= k < 5,
        forall|j: int|
            0 <= j < k ==> crate::schedule::field_of(#[trigger] words[j], Field::at(j)) is Some,
    ensures
        crate::schedule::fields_from(some_words(words, j, k), j) == Err::<
            (Seq<FieldModel>, Seq<char>),
            ScheduleError,
        >(bad_field(k)),
        j < k ==> some_words(words, j, k).len() > 0 && some_words(words, j, k)[0] == words[j][0]
            && !crate::text::white(words[j][0]),
    decreases k - j,
{
    if j == k {
        let none = Seq::<char>::empty();
        crate::text::lemma_first_white_is(none, 0);
        assert(crate::schedule::first_word(none) =~= seq![]);
    } else {
        lemma_some_words(words, j + 1, k);
        let tail = some_words(words, j + 1, k);
        assert(crate::notation::is_word(words[j]));
        crate::text::law_white_space(' ');
        crate::lines::lemma_first_word(words[j], seq![' '], tail);
        assert(crate::schedule::field_of(words[j], Field::at(j)) is Some);
    }
}

} // verus!
