//! Laws about how crontab lines are written: what each kind of line says.

use vstd::prelude::*;

use crate::crontab::{
    Delay, Entry, EntryModel, EnvModel, ErrorModel, Flags, Format, JobModel, LimitError, Line,
    TabModel, Tally,
};

verus! {

// ---------------------------------------------------------------------------
// Assignments
// ---------------------------------------------------------------------------

/// Is all of the text white space?
pub open spec fn blank(s: Seq<char>) -> bool {
    forall|i: int| 0 <= i < s.len() ==> crate::text::white(#[trigger] s[i])
}

/// A variable's name is a letter or an underscore, and then any number of
/// letters, digits and underscores.
pub proof fn law_variable_names(name: Seq<char>)
    ensures
        crate::crontab::var_name(name) <==> {
            &&& name.len() > 0
            &&& !('0' <= name[0] <= '9')
            &&& forall|i: int|
                0 <= i < name.len() ==> {
                    ||| 'a' <= #[trigger] name[i] <= 'z'
                    ||| 'A' <= name[i] <= 'Z'
                    ||| '0' <= name[i] <= '9'
                    ||| name[i] == '_'
                }
        },
{
    if crate::crontab::var_name(name) {
        assert forall|i: int| 0 <= i < name.len() implies {
            ||| 'a' <= #[trigger] name[i] <= 'z'
            ||| 'A' <= name[i] <= 'Z'
            ||| '0' <= name[i] <= '9'
            ||| name[i] == '_'
        } by {
            if i > 0 {
                assert(crate::crontab::name_char(name[i]));
            }
        }
    }
}

proof fn lemma_name_char(name: Seq<char>, i: int)
    requires
        crate::crontab::var_name(name),
        0 <= i < name.len(),
    ensures
        name[i] != '=',
        !crate::text::white(name[i]),
{
    if i > 0 {
        assert(crate::crontab::name_char(name[i]));
    }
}

proof fn lemma_name_stop(s: Seq<char>, n: int)
    requires
        0 <= n < s.len(),
        s[n] == '=' || crate::text::white(s[n]),
        forall|i: int| 0 <= i < n ==> #[trigger] s[i] != '=' && !crate::text::white(s[i]),
    ensures
        crate::crontab::name_stop(s) == n,
    decreases n,
{
    if n > 0 {
        assert(s[0] != '=' && !crate::text::white(s[0]));
        let t = s.skip(1);
        assert forall|i: int| 0 <= i < n - 1 implies #[trigger] t[i] != '=' && !crate::text::white(
            t[i],
        ) by {
            assert(s[i + 1] != '=');
        }
        lemma_name_stop(t, n - 1);
    }
}

pub proof fn lemma_skip_blank(lead: Seq<char>, s: Seq<char>)
    requires
        blank(lead),
        s.len() > 0 ==> !crate::text::white(s[0]),
    ensures
        crate::text::trim_start(lead + s) == s,
{
    let all = lead + s;
    assert forall|i: int| 0 <= i < lead.len() implies crate::text::white(all[i]) by {
        assert(all[i] == lead[i]);
    }
    crate::text::lemma_lead_white_is(all, lead.len() as int);
    assert(all.skip(lead.len() as int) =~= s);
}

/// What an assignment comes down to: its name, and the value that is read from
/// the text behind the sign.
proof fn lemma_assignment(
    lead: Seq<char>,
    name: Seq<char>,
    left: Seq<char>,
    right: Seq<char>,
    rest: Seq<char>,
)
    requires
        blank(lead),
        blank(left),
        blank(right),
        crate::crontab::var_name(name),
        rest.len() > 0 ==> !crate::text::white(rest[0]),
    ensures
        crate::crontab::env_line(lead + name + left + seq!['='] + right + rest) == match
            crate::crontab::env_line_value(rest) {
            Some(v) => Some((name, v)),
            None => None,
        },
{
    let whole = lead + name + left + seq!['='] + right + rest;
    let signed = seq!['='] + (right + rest);
    let tail = left + signed;
    let line = name + tail;
    assert(whole =~= lead + line);
    lemma_name_char(name, 0);
    assert(line[0] == name[0]);
    lemma_skip_blank(lead, line);
    let n = name.len() as int;
    assert(line[n] == tail[0]);
    if left.len() > 0 {
        assert(tail[0] == left[0]);
    }
    assert forall|i: int| 0 <= i < n implies #[trigger] line[i] != '=' && !crate::text::white(
        line[i],
    ) by {
        lemma_name_char(name, i);
        assert(line[i] == name[i]);
    }
    lemma_name_stop(line, n);
    assert(line.take(n) =~= name);
    assert(line.skip(n) =~= tail);
    crate::text::law_white_space('=');
    lemma_skip_blank(left, signed);
    assert(signed.skip(1) =~= right + rest);
    lemma_skip_blank(right, rest);
}

/// A line `NAME = value` says just that, whatever white space stands around the
/// name and the value: the value is all of the rest, up to the last character
/// that is not white space. What it holds, be it the sign itself, a `#` or white
/// space, does not matter.
pub proof fn law_plain_assignments(
    lead: Seq<char>,
    name: Seq<char>,
    left: Seq<char>,
    right: Seq<char>,
    value: Seq<char>,
    end: Seq<char>,
)
    requires
        blank(lead),
        blank(left),
        blank(right),
        blank(end),
        crate::crontab::var_name(name),
        value.len() > 0,
        value[0] != '"',
        value[0] != '\'',
        !crate::text::white(value[0]),
        !crate::text::white(value.last()),
    ensures
        crate::crontab::env_line(lead + name + left + seq!['='] + right + value + end) == Some(
            (name, value),
        ),
{
    let rest = value + end;
    assert(rest[0] == value[0]);
    lemma_assignment(lead, name, left, right, rest);
    assert(lead + name + left + seq!['='] + right + value + end =~= lead + name + left + seq!['=']
        + right + rest);
    crate::text::law_trim(Seq::empty(), value, end);
}

/// In particular, without any white space.
pub proof fn law_short_assignments(name: Seq<char>, value: Seq<char>)
    requires
        crate::crontab::var_name(name),
        value.len() > 0,
        value[0] != '"',
        value[0] != '\'',
        !crate::text::white(value[0]),
        !crate::text::white(value.last()),
    ensures
        crate::crontab::env_line(name + seq!['='] + value) == Some((name, value)),
{
    let none = Seq::<char>::empty();
    law_plain_assignments(none, name, none, none, value, none);
    assert(none + name + none + seq!['='] + none + value + none =~= name + seq!['='] + value);
}

/// A value may be left out: it is the empty text then.
pub proof fn law_empty_assignments(
    lead: Seq<char>,
    name: Seq<char>,
    left: Seq<char>,
    right: Seq<char>,
)
    requires
        blank(lead),
        blank(left),
        blank(right),
        crate::crontab::var_name(name),
    ensures
        crate::crontab::env_line(lead + name + left + seq!['='] + right) == Some(
            (name, Seq::<char>::empty()),
        ),
{
    let none = Seq::<char>::empty();
    lemma_assignment(lead, name, left, right, none);
    assert(lead + name + left + seq!['='] + right + none =~= lead + name + left + seq!['=']
        + right);
    assert(crate::text::trim_end(none) =~= none);
}

/// The value of a line `NAME = "value"` is what stands between the quotes, which
/// may be single ones too: all of it, white space and the other kind of quote
/// included.
pub proof fn law_quoted_assignments(
    lead: Seq<char>,
    name: Seq<char>,
    left: Seq<char>,
    right: Seq<char>,
    quote: char,
    value: Seq<char>,
    end: Seq<char>,
)
    requires
        blank(lead),
        blank(left),
        blank(right),
        blank(end),
        crate::crontab::var_name(name),
        quote == '"' || quote == '\'',
        !value.contains(quote),
    ensures
        crate::crontab::env_line(
            lead + name + left + seq!['='] + right + seq![quote] + value + seq![quote] + end,
        ) == Some((name, value)),
{
    let rest = seq![quote] + value + seq![quote] + end;
    let inner = value + seq![quote] + end;
    lemma_quoted(quote, value, end);
    lemma_assignment(lead, name, left, right, rest);
    assert(lead + name + left + seq!['='] + right + seq![quote] + value + seq![quote] + end
        =~= lead + name + left + seq!['='] + right + rest);
    crate::text::law_trim(end, Seq::empty(), Seq::empty());
    assert(end + Seq::<char>::empty() + Seq::<char>::empty() =~= end);
}

proof fn lemma_quoted(quote: char, value: Seq<char>, end: Seq<char>)
    requires
        quote == '"' || quote == '\'',
        !value.contains(quote),
    ensures
        ({
            let rest = seq![quote] + value + seq![quote] + end;
            &&& rest[0] == quote
            &&& rest.skip(1) == value + seq![quote] + end
            &&& crate::text::first_of(rest.skip(1), quote) == value.len()
            &&& rest.skip(1).take(value.len() as int) == value
            &&& rest.skip(1).skip(value.len() as int + 1) == end
        }),
{
    let rest = seq![quote] + value + seq![quote] + end;
    let inner = value + seq![quote] + end;
    assert(rest.skip(1) =~= inner);
    let n = value.len() as int;
    assert(inner[n] == quote);
    assert forall|i: int| 0 <= i < n implies inner[i] != quote by {
        assert(inner[i] == value[i]);
    }
    crate::text::lemma_first_of_is(inner, quote, n);
    assert(inner.take(n) =~= value);
    assert(inner.skip(n + 1) =~= end);
}

/// A line whose value has an opening quote and no closing one, or something
/// behind the closing one, is no assignment.
pub proof fn law_bad_quotes(
    lead: Seq<char>,
    name: Seq<char>,
    left: Seq<char>,
    right: Seq<char>,
    quote: char,
    value: Seq<char>,
    end: Seq<char>,
)
    requires
        blank(lead),
        blank(left),
        blank(right),
        !blank(end),
        crate::crontab::var_name(name),
        quote == '"' || quote == '\'',
        !value.contains(quote),
    ensures
        crate::crontab::env_line(lead + name + left + seq!['='] + right + seq![quote] + value)
            is None,
        crate::crontab::env_line(
            lead + name + left + seq!['='] + right + seq![quote] + value + seq![quote] + end,
        ) is None,
{
    let short = seq![quote] + value;
    assert(short.skip(1) =~= value);
    assert forall|i: int| 0 <= i < value.len() implies value[i] != quote by {}
    crate::text::lemma_first_of_is(value, quote, value.len() as int);
    lemma_assignment(lead, name, left, right, short);
    assert(lead + name + left + seq!['='] + right + seq![quote] + value =~= lead + name + left
        + seq!['='] + right + short);
    let rest = seq![quote] + value + seq![quote] + end;
    lemma_quoted(quote, value, end);
    lemma_assignment(lead, name, left, right, rest);
    assert(lead + name + left + seq!['='] + right + seq![quote] + value + seq![quote] + end
        =~= lead + name + left + seq!['='] + right + rest);
    lemma_not_blank(end);
}

proof fn lemma_not_blank(s: Seq<char>)
    requires
        !blank(s),
    ensures
        crate::text::trim(s).len() > 0,
{
    let k = choose|k: int| 0 <= k < s.len() && !crate::text::white(#[trigger] s[k]);
    let t = crate::text::trim_start(s);
    crate::text::lemma_lead_white(s);
    let m = crate::text::lead_white(s);
    assert(m <= k) by {
        if k < m {
            assert(crate::text::white(s[k]));
        }
    }
    assert(t[k - m] == s[k]);
    lemma_trim_end_keeps(t, k - m);
}

proof fn lemma_trim_end_keeps(s: Seq<char>, k: int)
    requires
        0 <= k < s.len(),
        !crate::text::white(s[k]),
    ensures
        crate::text::trim_end(s).len() > k,
    decreases s.len(),
{
    if crate::text::white(s.last()) {
        lemma_trim_end_keeps(s.drop_last(), k);
    }
}

/// A line is an assignment only if a variable's name stands at its start.
pub proof fn law_assignments_name_a_variable(line: Seq<char>)
    ensures
        crate::crontab::env_line(line) matches Some((name, _)) ==> {
            let text = crate::text::trim_start(line);
            &&& crate::crontab::var_name(name)
            &&& name.len() < text.len()
            &&& text.take(name.len() as int) == name
            &&& text.contains('=')
        },
{
    if let Some((name, _)) = crate::crontab::env_line(line) {
        let text = crate::text::trim_start(line);
        let n = crate::crontab::name_stop(text);
        lemma_name_stop_bounds(text);
        let tail = text.skip(n);
        crate::text::lemma_lead_white(tail);
        let m = crate::text::lead_white(tail);
        assert(crate::text::trim_start(tail)[0] == tail[m]);
        assert(text[n + m] == '=');
    }
}

proof fn lemma_name_stop_bounds(s: Seq<char>)
    ensures
        0 <= crate::crontab::name_stop(s) <= s.len(),
    decreases s.len(),
{
    if s.len() > 0 && s[0] != '=' && !crate::text::white(s[0]) {
        lemma_name_stop_bounds(s.skip(1));
    }
}

// ---------------------------------------------------------------------------
// Lists of variables
// ---------------------------------------------------------------------------

/// The value of a variable is that of its first place in the list.
pub proof fn law_first_place_counts(
    name: Seq<char>,
    other: Seq<char>,
    value: Seq<char>,
    rest: EnvModel,
)
    requires
        name != other,
    ensures
        crate::crontab::env_value(seq![(name, value)] + rest, name) == Some(value),
        crate::crontab::env_value(seq![(other, value)] + rest, name) == crate::crontab::env_value(
            rest,
            name,
        ),
        crate::crontab::env_value(seq![], name) is None,
{
    let a = seq![(name, value)] + rest;
    assert(a[0] == (name, value));
    let b = seq![(other, value)] + rest;
    assert(b[0] == (other, value));
    assert(b.skip(1) =~= rest);
    crate::crontab::lemma_env_index(rest, name);
    assert(b[1 + crate::crontab::env_index(rest, name)] == rest[crate::crontab::env_index(
        rest,
        name,
    )] || crate::crontab::env_index(rest, name) == rest.len());
}

/// A variable that is set anew keeps its place, and one that was not set comes
/// last; all others stay where and what they are.
pub proof fn law_places_are_kept(env: EnvModel, name: Seq<char>, value: Seq<char>)
    ensures
        ({
            let after = crate::crontab::env_set(env, name, value);
            &&& crate::crontab::env_value(env, name) is Some ==> after.len() == env.len()
            &&& crate::crontab::env_value(env, name) is None ==> after.len() == env.len() + 1
                && after.last() == (name, value)
            &&& forall|i: int| 0 <= i < env.len() ==> (#[trigger] after[i]).0 == env[i].0
            &&& forall|i: int|
                0 <= i < env.len() && env[i].0 != name ==> #[trigger] after[i] == env[i]
        }),
{
    crate::crontab::lemma_env_index(env, name);
}

/// Only the variables for the locale, the delay and the sender of mail come from
/// the environment of the program that reads the crontab.
pub proof fn law_inherited_variables(name: Seq<char>)
    ensures
        crate::crontab::inherited(name) <==> {
            ||| name == "LANG"@
            ||| name == "LANGUAGE"@
            ||| name == "RANDOM_DELAY"@
            ||| name == "MAILFROM"@
            ||| name.len() >= 3 && name[0] == 'L' && name[1] == 'C' && name[2] == '_'
        },
{
    reveal_strlit("LC_");
    assert("LC_"@.len() == 3);
    if crate::text::has_prefix(name, "LC_"@) {
        let p = name.take(3);
        assert(name[0] == p[0] && name[1] == p[1] && name[2] == p[2]);
    }
    if name.len() >= 3 && name[0] == 'L' && name[1] == 'C' && name[2] == '_' {
        assert(name.take(3) =~= "LC_"@);
    }
}

/// They are taken over with the value that was set last, and no other is.
pub proof fn law_inherited_values(
    outer: EnvModel,
    name: Seq<char>,
    value: Seq<char>,
    other: Seq<char>,
)
    ensures
        crate::crontab::inherited(name) ==> crate::crontab::env_value(
            crate::crontab::kept(outer.push((name, value))),
            name,
        ) == Some(value),
        !crate::crontab::inherited(other) ==> crate::crontab::env_value(
            crate::crontab::kept(outer),
            other,
        ) is None,
        other != name ==> crate::crontab::env_value(
            crate::crontab::kept(outer.push((name, value))),
            other,
        ) == crate::crontab::env_value(crate::crontab::kept(outer), other),
    decreases outer.len(),
{
    let all = outer.push((name, value));
    assert(all.drop_last() =~= outer);
    crate::crontab::law_assignment(crate::crontab::kept(outer), name, value, other);
    if outer.len() > 0 {
        let (n, v) = outer.last();
        law_inherited_values(outer.drop_last(), n, v, other);
        assert(outer.drop_last().push((n, v)) =~= outer);
    }
}

// ---------------------------------------------------------------------------
// Commands
// ---------------------------------------------------------------------------

/// Without a percent sign there is no input, and with one there is: what stands
/// before it is the command, and what stands behind it is fed to the command. A
/// command that ends in a backslash would escape the sign.
pub proof fn law_percent_sets_input_apart(command: Seq<char>, rest: Seq<char>)
    requires
        command.len() > 0 ==> command.last() != '\\',
    ensures
        ({
            let (c, stdin) = crate::crontab::split(
                crate::crontab::escape(command) + seq!['%'] + rest,
            );
            &&& c == command
            &&& stdin matches Some(text) && text.len() > 0 && text.last() == '\n'
        }),
{
    lemma_split(command, rest);
}

proof fn lemma_split(command: Seq<char>, rest: Seq<char>)
    requires
        command.len() > 0 ==> command.last() != '\\',
    ensures
        crate::crontab::split(crate::crontab::escape(command) + seq!['%'] + rest) == (
            command,
            Some(crate::crontab::stdin_text(rest)),
        ),
{
    let tail = seq!['%'] + rest;
    crate::crontab::lemma_escape(command, tail);
    assert(crate::crontab::escape(command) + seq!['%'] + rest =~= crate::crontab::escape(command)
        + tail);
    assert(tail.skip(1) =~= rest);
    assert(!crate::crontab::escaped(tail));
    assert(command + Seq::<char>::empty() =~= command);
}

/// Every further percent sign ends a line of the input: the input of a command
/// is its first line and then the input it would have without that line.
pub proof fn law_input_lines(command: Seq<char>, line: Seq<char>, rest: Seq<char>)
    requires
        command.len() > 0 ==> command.last() != '\\',
        line.len() > 0 ==> line.last() != '\\',
    ensures
        ({
            let before = crate::crontab::escape(command) + seq!['%'];
            let one = crate::crontab::escape(line) + seq!['%'];
            &&& rest.len() > 0 ==> (crate::crontab::split(before + rest).1 matches Some(input)
                && crate::crontab::split(before + (one + rest)) == (
                command,
                Some(line + seq!['\n'] + input),
            ))
            &&& crate::crontab::split(before + one) == (command, Some(line + seq!['\n']))
        }),
{
    let before = crate::crontab::escape(command) + seq!['%'];
    let one = crate::crontab::escape(line) + seq!['%'];
    lemma_split(command, rest);
    lemma_split(command, one + rest);
    lemma_split(command, one);
    lemma_input_line(line, rest);
    lemma_input_line(line, Seq::empty());
    assert(one + Seq::<char>::empty() =~= one);
    assert(line + seq!['\n'] + Seq::<char>::empty() =~= line + seq!['\n']);
    if rest.len() > 0 {
        let lines = crate::crontab::stdin_lines(rest);
        assert(lines.len() > 0);
        let all = line + seq!['\n'] + lines;
        assert(all.last() == lines.last());
        assert(all.push('\n') =~= line + seq!['\n'] + lines.push('\n'));
    }
}

proof fn lemma_input_line(line: Seq<char>, rest: Seq<char>)
    requires
        line.len() > 0 ==> line.last() != '\\',
    ensures
        crate::crontab::stdin_lines(crate::crontab::escape(line) + seq!['%'] + rest) == line
            + seq!['\n'] + crate::crontab::stdin_lines(rest),
{
    let tail = seq!['%'] + rest;
    crate::crontab::lemma_escape(line, tail);
    assert(crate::crontab::escape(line) + seq!['%'] + rest =~= crate::crontab::escape(line) + tail);
    assert(tail.skip(1) =~= rest);
    assert(!crate::crontab::escaped(tail));
    assert(line + (seq!['\n'] + crate::crontab::stdin_lines(rest)) =~= line + seq!['\n']
        + crate::crontab::stdin_lines(rest));
}

// ---------------------------------------------------------------------------
// Users and options
// ---------------------------------------------------------------------------

/// A user's name is made of letters, digits and the signs `_-.$@`.
pub proof fn law_user_names(name: Seq<char>)
    ensures
        crate::crontab::user_name(name) <==> name.len() > 0 && forall|i: int|
            0 <= i < name.len() ==> {
                ||| 'a' <= #[trigger] name[i] <= 'z'
                ||| 'A' <= name[i] <= 'Z'
                ||| '0' <= name[i] <= '9'
                ||| name[i] == '_'
                ||| name[i] == '-'
                ||| name[i] == '.'
                ||| name[i] == '$'
                ||| name[i] == '@'
            },
{
    if crate::crontab::user_name(name) {
        assert forall|i: int| 0 <= i < name.len() implies {
            ||| 'a' <= #[trigger] name[i] <= 'z'
            ||| 'A' <= name[i] <= 'Z'
            ||| '0' <= name[i] <= '9'
            ||| name[i] == '_'
            ||| name[i] == '-'
            ||| name[i] == '.'
            ||| name[i] == '$'
            ||| name[i] == '@'
        } by {
            assert(crate::crontab::user_char(name[i]));
        }
    }
}

pub proof fn lemma_first_word(word: Seq<char>, space: Seq<char>, rest: Seq<char>)
    requires
        forall|i: int| 0 <= i < word.len() ==> !crate::text::white(#[trigger] word[i]),
        blank(space),
        space.len() > 0 || rest.len() == 0,
        rest.len() > 0 ==> !crate::text::white(rest[0]),
    ensures
        crate::schedule::first_word(word + space + rest) == word,
        crate::schedule::after_word(word + space + rest) == rest,
{
    let all = word + space + rest;
    let n = word.len() as int;
    assert forall|i: int| 0 <= i < n implies !crate::text::white(all[i]) by {
        assert(all[i] == word[i]);
    }
    if space.len() > 0 {
        assert(all[n] == space[0]);
    }
    crate::text::lemma_first_white_is(all, n);
    assert(all.take(n) =~= word);
    assert(all.skip(n) =~= space + rest);
    lemma_skip_blank(space, rest);
}

/// In a system crontab the word behind the time is the user, and the command
/// follows it; in a user's one the command follows the time.
pub proof fn law_user_field(user: Seq<char>, space: Seq<char>, rest: Seq<char>)
    requires
        crate::crontab::user_name(user),
        blank(space),
        space.len() > 0 || rest.len() == 0,
        rest.len() > 0 ==> !crate::text::white(rest[0]),
    ensures
        crate::crontab::user_of(user + space + rest, Format::System) == Some((Some(user), rest)),
        crate::crontab::user_of(user + space + rest, Format::User) == Some(
            (None::<Seq<char>>, user + space + rest),
        ),
{
    assert forall|i: int| 0 <= i < user.len() implies !crate::text::white(#[trigger] user[i]) by {
        assert(crate::crontab::user_char(user[i]));
    }
    lemma_first_word(user, space, rest);
}

proof fn lemma_after_flag(c: char, d: char, space: Seq<char>, rest: Seq<char>)
    requires
        c != d,
        blank(space),
        space.len() > 0,
        rest.len() > 0 ==> !crate::text::white(rest[0]),
    ensures
        crate::crontab::after_flag(seq!['-', c] + space + rest, c) == Some(rest),
        crate::crontab::after_flag(seq!['-', c] + space + rest, d) is None,
{
    let all = seq!['-', c] + space + rest;
    assert(all[0] == '-');
    assert(all[1] == c);
    assert(all[2] == space[0]);
    assert(all.skip(2) =~= space + rest);
    lemma_skip_blank(space, rest);
}

/// The options `-n` and `-q` may stand before a command, each with white space
/// behind it, in any order; `-n` may not stand there twice. Any other text is the
/// command, as it stands.
pub proof fn law_options(space: Seq<char>, rest: Seq<char>, failure_only: bool, quiet: bool)
    requires
        blank(space),
        space.len() > 0,
        rest.len() > 0 ==> !crate::text::white(rest[0]),
    ensures
        crate::crontab::flags_of(seq!['-', 'n'] + space + rest, false, quiet)
            == crate::crontab::flags_of(rest, true, quiet),
        crate::crontab::flags_of(seq!['-', 'n'] + space + rest, true, quiet) is None,
        crate::crontab::flags_of(seq!['-', 'q'] + space + rest, failure_only, quiet)
            == crate::crontab::flags_of(rest, failure_only, true),
        !(rest.len() > 2 && rest[0] == '-' && (rest[1] == 'n' || rest[1] == 'q')
            && crate::text::white(rest[2])) ==> crate::crontab::flags_of(rest, failure_only, quiet)
            == Some(Flags { mail_on_failure_only: failure_only, quiet, rest }),
{
    lemma_after_flag('n', 'q', space, rest);
    lemma_after_flag('q', 'n', space, rest);
}

// ---------------------------------------------------------------------------
// Job lines
// ---------------------------------------------------------------------------

/// A user's job line is a time and a command, and the command is all that stands
/// behind the time, as it is written. Behind a shortcut it may begin with a star.
pub proof fn law_user_job_line(
    line: Seq<char>,
    fields: Option<Seq<crate::schedule::FieldModel>>,
    command: Seq<char>,
    privileged: bool,
)
    requires
        line.len() > 0,
        !crate::text::white(line[0]),
        line[0] != '-',
        crate::schedule::prefix_of(line) == Ok::<
            (Option<Seq<crate::schedule::FieldModel>>, Seq<char>),
            crate::schedule::ScheduleError,
        >((fields, command)),
        command.len() > 0,
        command[0] != '-',
        command[0] != '*' || line[0] == '@',
    ensures
        crate::crontab::job_of(line, Format::User, privileged) == Ok::<JobModel, ErrorModel>(
            JobModel {
                fields,
                user: None,
                raw_command: command,
                mail_on_failure_only: false,
                quiet: false,
            },
        ),
{
    lemma_starts(line);
}

/// A system crontab's job line is a time, a user and a command.
pub proof fn law_system_job_line(
    line: Seq<char>,
    fields: Option<Seq<crate::schedule::FieldModel>>,
    user: Seq<char>,
    space: Seq<char>,
    command: Seq<char>,
    privileged: bool,
)
    requires
        line.len() > 0,
        !crate::text::white(line[0]),
        line[0] != '-',
        crate::crontab::user_name(user),
        blank(space),
        space.len() > 0,
        command.len() > 0,
        !crate::text::white(command[0]),
        command[0] != '-',
        crate::schedule::prefix_of(line) == Ok::<
            (Option<Seq<crate::schedule::FieldModel>>, Seq<char>),
            crate::schedule::ScheduleError,
        >((fields, user + space + command)),
    ensures
        crate::crontab::job_of(line, Format::System, privileged) == Ok::<JobModel, ErrorModel>(
            JobModel {
                fields,
                user: Some(user),
                raw_command: command,
                mail_on_failure_only: false,
                quiet: false,
            },
        ),
{
    lemma_starts(line);
    law_user_field(user, space, command);
    let rest = user + space + command;
    assert(rest[0] == user[0]);
    assert(crate::crontab::user_char(user[0]));
}

pub proof fn lemma_starts(s: Seq<char>)
    requires
        s.len() > 0 ==> !crate::text::white(s[0]),
    ensures
        crate::text::trim_start(s) == s,
{
    lemma_skip_blank(Seq::empty(), s);
    assert(Seq::<char>::empty() + s =~= s);
}

/// A bad time is reported as such, a time without a command as a bad command,
/// and so is a sixth field where a command should be.
pub proof fn law_bad_job_lines(line: Seq<char>, privileged: bool)
    requires
        line.len() > 0,
        !crate::text::white(line[0]),
        line[0] != '-',
    ensures
        crate::schedule::prefix_of(line) matches Err(e) ==> forall|format: Format|
            #[trigger] crate::crontab::job_of(line, format, privileged) == Err::<
                JobModel,
                ErrorModel,
            >(ErrorModel::Schedule(e)),
        crate::schedule::prefix_of(line) matches Ok((_, rest)) && rest.len() == 0
            ==> crate::crontab::job_of(line, Format::User, privileged) == Err::<
            JobModel,
            ErrorModel,
        >(ErrorModel::BadCommand),
        crate::schedule::prefix_of(line) matches Ok((_, rest)) && rest.len() > 0 && rest[0] == '*'
            && line[0] != '@' ==> forall|format: Format|
            #[trigger] crate::crontab::job_of(line, format, privileged) == Err::<
                JobModel,
                ErrorModel,
            >(ErrorModel::BadCommand),
{
    lemma_starts(line);
}

proof fn lemma_quiet_flags(s: Seq<char>, failure_only: bool)
    ensures
        match crate::crontab::flags_of(s, failure_only, false) {
            Some(f) => crate::crontab::flags_of(s, failure_only, true) == Some(
                Flags { quiet: true, ..f },
            ),
            None => crate::crontab::flags_of(s, failure_only, true) is None,
        },
        crate::crontab::flags_of(s, failure_only, true) matches Some(f) ==> f.quiet,
    decreases s.len(),
{
    crate::text::lemma_lead_white(s.skip(2));
    match crate::crontab::after_flag(s, 'n') {
        Some(rest) => {
            if !failure_only {
                lemma_quiet_flags(rest, true);
            }
        },
        None => {
            if let Some(rest) = crate::crontab::after_flag(s, 'q') {
                lemma_quiet_flags(rest, failure_only);
            }
        },
    }
}

/// A minus sign before the time keeps the job out of the log and changes nothing
/// else about the line. In a user's crontab only root may put it there.
pub proof fn law_hidden_jobs(
    space: Seq<char>,
    line: Seq<char>,
    format: Format,
    privileged: bool,
)
    requires
        blank(space),
        line.len() > 0,
        !crate::text::white(line[0]),
        line[0] != '-',
    ensures
        ({
            let hidden = crate::crontab::job_of(seq!['-'] + space + line, format, privileged);
            if format == Format::User && !privileged {
                hidden == Err::<JobModel, ErrorModel>(ErrorModel::BadOption)
            } else {
                match crate::crontab::job_of(line, format, privileged) {
                    Ok(job) => hidden == Ok::<JobModel, ErrorModel>(JobModel { quiet: true, ..job }),
                    Err(e) => hidden == Err::<JobModel, ErrorModel>(e),
                }
            }
        }),
{
    let all = seq!['-'] + space + line;
    assert(all[0] == '-');
    lemma_starts(all);
    lemma_starts(line);
    assert(all.skip(1) =~= space + line);
    lemma_skip_blank(space, line);
    if let Ok((_, rest)) = crate::schedule::prefix_of(line) {
        if let Some((_, tail)) = crate::crontab::user_of(rest, format) {
            lemma_quiet_flags(tail, false);
        }
    }
}

// ---------------------------------------------------------------------------
// Lines
// ---------------------------------------------------------------------------

/// A newline ends a line, and a carriage return before it does not count. What
/// follows the last newline, if anything, is a line that has not ended.
pub proof fn law_lines(line: Seq<char>, rest: Seq<char>)
    requires
        !line.contains('\n'),
        line.len() > 0 ==> line.last() != '\r',
    ensures
        crate::crontab::lines_of(line + seq!['\n'] + rest) == seq![
            Line { text: line, ended: true },
        ] + crate::crontab::lines_of(rest),
        crate::crontab::lines_of(line + seq!['\r', '\n'] + rest) == seq![
            Line { text: line, ended: true },
        ] + crate::crontab::lines_of(rest),
        line.len() > 0 ==> crate::crontab::lines_of(line) == seq![
            Line { text: line, ended: false },
        ],
        crate::crontab::lines_of(seq![]).len() == 0,
{
    let n = line.len() as int;
    let a = line + seq!['\n'] + rest;
    assert(a[n] == '\n');
    assert forall|i: int| 0 <= i < n implies a[i] != '\n' by {
        assert(a[i] == line[i]);
    }
    crate::text::lemma_first_of_is(a, '\n', n);
    assert(a.take(n) =~= line);
    assert(a.skip(n + 1) =~= rest);
    let b = line + seq!['\r', '\n'] + rest;
    assert(b[n] == '\r');
    assert(b[n + 1] == '\n');
    assert forall|i: int| 0 <= i < n + 1 implies b[i] != '\n' by {
        if i < n {
            assert(b[i] == line[i]);
        }
    }
    crate::text::lemma_first_of_is(b, '\n', n + 1);
    assert(b.take(n + 1) =~= line.push('\r'));
    assert(line.push('\r').drop_last() =~= line);
    assert(b.skip(n + 2) =~= rest);
    assert forall|i: int| 0 <= i < n implies line[i] != '\n' by {}
    crate::text::lemma_first_of_is(line, '\n', n);
}

/// Empty lines and comments say nothing, be the last one cut short. Any other
/// line that has not ended is an error.
pub proof fn law_comments(
    m: TabModel,
    lead: Seq<char>,
    text: Seq<char>,
    ended: bool,
    number: nat,
    format: Format,
    privileged: bool,
)
    requires
        blank(lead),
    ensures
        m.read(Line { text: lead, ended }, number, format, privileged) == m,
        m.read(Line { text: lead + seq!['#'] + text, ended }, number, format, privileged) == m,
        text.len() > 0 && text[0] != '#' && !crate::text::white(text[0]) ==> m.read(
            Line { text: lead + text, ended: false },
            number,
            format,
            privileged,
        ) == m.fail(number, ErrorModel::PrematureEof),
{
    lemma_skip_blank(lead, Seq::empty());
    assert(lead + Seq::<char>::empty() =~= lead);
    let comment = seq!['#'] + text;
    assert(lead + seq!['#'] + text =~= lead + comment);
    assert(comment[0] == '#');
    lemma_skip_blank(lead, comment);
    if text.len() > 0 && text[0] != '#' && !crate::text::white(text[0]) {
        lemma_skip_blank(lead, text);
    }
}

/// A line that ended and is no comment is an assignment if it has the form of
/// one, and otherwise a job, which gets all that was declared so far, or an
/// error. Nothing that was read before it changes.
pub proof fn law_lines_are_read(
    m: TabModel,
    text: Seq<char>,
    number: nat,
    format: Format,
    privileged: bool,
)
    requires
        text.len() > 0,
        !crate::text::white(text[0]),
        text[0] != '#',
    ensures
        ({
            let after = m.read(Line { text, ended: true }, number, format, privileged);
            match crate::crontab::env_line(text) {
                Some((name, value)) => after == m.declare(name, value, number),
                None => match crate::crontab::job_of(text, format, privileged) {
                    Ok(job) => {
                        &&& after.entries.len() == m.entries.len() + 1
                        &&& after.entries.drop_last() == m.entries
                        &&& after.entries.last().job == job
                        &&& after.entries.last().env == m.env
                        &&& after.entries.last().tz == m.tz
                        &&& after.entries.last().random_delay == m.random_delay
                        &&& after.entries.last().line == number
                        &&& after.errors == m.errors
                        &&& after.env == m.env
                        &&& after.tz == m.tz
                        &&& after.random_delay == m.random_delay
                        &&& after.ignored == m.ignored
                    },
                    Err(e) => {
                        &&& after.errors == m.errors.push((number, e))
                        &&& after.entries == m.entries
                        &&& after.env == m.env
                        &&& after.tz == m.tz
                        &&& after.random_delay == m.random_delay
                        &&& after.ignored == m.ignored
                    },
                },
            }
        }),
{
    lemma_starts(text);
    let after = m.read(Line { text, ended: true }, number, format, privileged);
    if after.entries.len() == m.entries.len() + 1 {
        assert(after.entries.drop_last() =~= m.entries);
    }
}

// ---------------------------------------------------------------------------
// Declarations
// ---------------------------------------------------------------------------

/// An ordinary variable is set and nothing else; the two that say who the user
/// is are not even set.
pub proof fn law_ordinary_variables(m: TabModel, name: Seq<char>, value: Seq<char>, line: nat)
    requires
        name != "CRON_TZ"@,
        name != "RANDOM_DELAY"@,
    ensures
        ({
            let after = m.declare(name, value, line);
            &&& after.tz == m.tz
            &&& after.random_delay == m.random_delay
            &&& after.ignored == m.ignored
            &&& after.entries == m.entries
            &&& after.errors == m.errors
            &&& name == "LOGNAME"@ || name == "USER"@ ==> after.env == m.env
            &&& name != "LOGNAME"@ && name != "USER"@ ==> crate::crontab::env_value(
                after.env,
                name,
            ) == Some(value)
            &&& forall|other: Seq<char>|
                other != name ==> #[trigger] crate::crontab::env_value(after.env, other)
                    == crate::crontab::env_value(m.env, other)
        }),
{
    assert forall|other: Seq<char>|
        other != name implies #[trigger] crate::crontab::env_value(
        m.declare(name, value, line).env,
        other,
    ) == crate::crontab::env_value(m.env, other) by {
        crate::crontab::law_assignment(m.env, name, value, other);
    }
    crate::crontab::law_assignment(m.env, name, value, name);
}

/// `CRON_TZ` sets the zone of the jobs that follow, and an empty value takes it
/// away again; a value that no zone can be made from is an error and leaves
/// everything as it was. The delay is not affected.
pub proof fn law_zone_declarations(m: TabModel, value: Seq<char>, line: nat)
    ensures
        ({
            let after = m.declare("CRON_TZ"@, value, line);
            let good = crate::crontab::zone_known(crate::crontab::zone_name(value))
                || crate::crontab::names_file(value) || crate::posix_tz::readable(
                crate::raw::bytes_of(value),
            );
            &&& value.len() == 0 ==> after.tz is None
            &&& value.len() > 0 && good ==> after.tz == Some(value)
            &&& value.len() == 0 || good ==> after.errors == m.errors && crate::crontab::env_value(
                after.env,
                "CRON_TZ"@,
            ) == Some(value)
            &&& value.len() > 0 && !good ==> after == m.fail(
                line,
                ErrorModel::BadTimezone(value),
            )
            &&& after.random_delay == m.random_delay
            &&& after.ignored == m.ignored
            &&& after.entries == m.entries
        }),
{
    lemma_special_names();
    crate::crontab::law_assignment(m.env, "CRON_TZ"@, value, "CRON_TZ"@);
}

proof fn lemma_special_names()
    ensures
        "CRON_TZ"@ != "RANDOM_DELAY"@,
        !crate::crontab::protected("CRON_TZ"@),
        !crate::crontab::protected("RANDOM_DELAY"@),
{
    reveal_strlit("CRON_TZ");
    reveal_strlit("RANDOM_DELAY");
    reveal_strlit("LOGNAME");
    reveal_strlit("USER");
    assert("CRON_TZ"@[0] == 'C');
    assert("RANDOM_DELAY"@[0] == 'R');
    assert("LOGNAME"@[0] == 'L');
    assert("USER"@[0] == 'U');
}

/// `RANDOM_DELAY` sets the longest delay of the jobs that follow. A number that
/// is out of range is set as a variable only, and noted; what is no number is an
/// error and leaves everything as it was.
pub proof fn law_delay_declarations(m: TabModel, value: Seq<char>, line: nat)
    ensures
        ({
            let after = m.declare("RANDOM_DELAY"@, value, line);
            &&& after.tz == m.tz
            &&& after.entries == m.entries
            &&& match crate::crontab::delay_of(value) {
                Delay::Minutes(n) => {
                    &&& after.random_delay == Some(n)
                    &&& after.ignored == m.ignored
                    &&& after.errors == m.errors
                    &&& crate::crontab::env_value(after.env, "RANDOM_DELAY"@) == Some(value)
                },
                Delay::OutOfRange => {
                    &&& after.random_delay == m.random_delay
                    &&& after.ignored == m.ignored.push(line)
                    &&& after.errors == m.errors
                    &&& crate::crontab::env_value(after.env, "RANDOM_DELAY"@) == Some(value)
                },
                Delay::Unreadable => after == m.fail(line, ErrorModel::BadRandomDelay(value)),
            }
        }),
{
    lemma_special_names();
    crate::crontab::law_assignment(m.env, "RANDOM_DELAY"@, value, "RANDOM_DELAY"@);
}

/// An error is reported with its line and changes nothing else.
pub proof fn law_errors_change_nothing(m: TabModel, line: nat, e: ErrorModel)
    ensures
        ({
            let after = m.fail(line, e);
            &&& after.errors == m.errors.push((line, e))
            &&& after.env == m.env
            &&& after.tz == m.tz
            &&& after.random_delay == m.random_delay
            &&& after.entries == m.entries
            &&& after.ignored == m.ignored
        }),
{
}

/// Before the first line there is no zone, and the delay is the one that the
/// environment sets, if that is a number of minutes.
pub proof fn law_start_of_a_crontab(outer: EnvModel)
    ensures
        ({
            let m = TabModel::starting(outer);
            &&& m.tz is None
            &&& m.entries.len() == 0
            &&& m.errors.len() == 0
            &&& m.ignored.len() == 0
            &&& m.env == crate::crontab::kept(outer)
            &&& match crate::crontab::env_value(m.env, "RANDOM_DELAY"@) {
                Some(v) => match crate::crontab::delay_of(v) {
                    Delay::Minutes(n) => m.random_delay == Some(n),
                    _ => m.random_delay is None,
                },
                None => m.random_delay is None,
            }
        }),
{
}

/// A number of minutes is read as what it says, with or without a plus sign, up
/// to the largest 32-bit number. Larger and negative numbers are out of range.
pub proof fn law_delays(n: nat)
    ensures
        ({
            let text = crate::text::decimal_text(n);
            &&& n <= 0xffff_ffff ==> crate::crontab::delay_of(text) == Delay::Minutes(n as u32)
            &&& n <= 0xffff_ffff ==> crate::crontab::delay_of(seq!['+'] + text) == Delay::Minutes(
                n as u32,
            )
            &&& n > 0xffff_ffff ==> crate::crontab::delay_of(text) == Delay::OutOfRange
            &&& n > 0xffff_ffff ==> crate::crontab::delay_of(seq!['+'] + text) == Delay::OutOfRange
            &&& n > 0 ==> crate::crontab::delay_of(seq!['-'] + text) == Delay::OutOfRange
            &&& n == 0 ==> crate::crontab::delay_of(seq!['-'] + text) == Delay::Minutes(0)
        }),
{
    let text = crate::text::decimal_text(n);
    crate::notation::lemma_decimal(n);
    assert(crate::text::digit(text[0]));
    assert((seq!['+'] + text).skip(1) =~= text);
    assert((seq!['-'] + text).skip(1) =~= text);
}

/// What holds anything but digits behind the sign is no number of minutes.
pub proof fn law_unreadable_delays(value: Seq<char>, i: int)
    requires
        value.len() == 0 || (0 <= i < value.len() && !('0' <= value[i] <= '9') && (i == 0 ==> value[0]
            != '+' && value[0] != '-')),
    ensures
        crate::crontab::delay_of(value) == Delay::Unreadable,
{
    if value.len() > 0 {
        let signed = value[0] == '+' || value[0] == '-';
        let digits = if signed {
            value.skip(1)
        } else {
            value
        };
        let k = if signed {
            i - 1
        } else {
            i
        };
        assert(digits[k] == value[i]);
        assert(!crate::text::digit(digits[k]));
    }
}

/// The part of the zone database that a value names does not count when its zone
/// is looked for.
pub proof fn law_zone_parts(name: Seq<char>)
    ensures
        crate::crontab::zone_name("posix/"@ + name) == name,
        crate::crontab::zone_name("right/"@ + name) == name,
        !(name.len() > 5 && name[5] == '/') ==> crate::crontab::zone_name(name) == name,
{
    reveal_strlit("posix/");
    reveal_strlit("right/");
    let a = "posix/"@ + name;
    let b = "right/"@ + name;
    assert(a.take(6) =~= "posix/"@);
    assert(a.skip(6) =~= name);
    assert(b.take(6) =~= "right/"@);
    assert(b.take(6)[0] == 'r');
    assert("posix/"@[0] == 'p');
    assert(b.skip(6) =~= name);
    if crate::text::has_prefix(name, "posix/"@) {
        assert(name.take(6)[5] == name[5]);
    }
    if crate::text::has_prefix(name, "right/"@) {
        assert(name.take(6)[5] == name[5]);
    }
}

/// A path, a name behind a colon, a known name and a readable POSIX string are
/// values of `CRON_TZ`, kept as they are written; nothing else is.
pub proof fn law_zone_values(value: Seq<char>, known: bool)
    requires
        value.len() > 0,
    ensures
        value[0] == '/' || value[0] == ':' || known || crate::posix_tz::readable(
            crate::raw::bytes_of(value),
        ) ==> crate::crontab::zone_setting_of(value, known) == Ok::<Option<Seq<char>>, ErrorModel>(
            Some(value),
        ),
        value[0] != '/' && value[0] != ':' && !known && !crate::posix_tz::readable(
            crate::raw::bytes_of(value),
        ) ==> crate::crontab::zone_setting_of(value, known) == Err::<Option<Seq<char>>, ErrorModel>(
            ErrorModel::BadTimezone(value),
        ),
        crate::crontab::zone_setting_of(seq![], known) == Ok::<Option<Seq<char>>, ErrorModel>(
            None,
        ),
{
}

// ---------------------------------------------------------------------------
// Limits
// ---------------------------------------------------------------------------

/// A crontab may hold a thousand variables and ten thousand jobs, and between two
/// of them no more than 32 KiB that are neither; no name, value or command may be
/// longer than 128 KiB.
pub proof fn law_limits_of_a_line(t: Tally, text: Seq<char>, ended: bool)
    requires
        text.len() > 0,
        !crate::text::white(text[0]),
    ensures
        ({
            let after = t.add_line(Line { text, ended });
            if text[0] == '#' {
                if t.garbage + text.len() + 1 > 32768 {
                    after == Err::<Tally, LimitError>(LimitError::Garbage)
                } else {
                    after matches Ok(u) && u.garbage == t.garbage + text.len() + 1 && u.variables
                        == t.variables && u.entries == t.entries
                }
            } else {
                match crate::crontab::env_line(text) {
                    Some((name, value)) => if t.variables >= 1000 {
                        after == Err::<Tally, LimitError>(LimitError::Variables)
                    } else if crate::raw::bytes_of(name).len() > 131072 || crate::raw::bytes_of(
                        value,
                    ).len() > 131072 {
                        after == Err::<Tally, LimitError>(LimitError::Field)
                    } else {
                        after matches Ok(u) && u.garbage == 0 && u.variables == t.variables + 1
                            && u.entries == t.entries
                    },
                    None => if t.entries >= 10000 {
                        after == Err::<Tally, LimitError>(LimitError::Entries)
                    } else {
                        after matches Ok(u) && u.garbage == 0 && u.variables == t.variables
                            && u.entries == t.entries + 1
                    },
                }
            }
        }),
{
    lemma_starts(text);
}

/// What is within the limits is counted, and nothing is let through that is not.
pub proof fn law_tally_is_within_limits(lines: Seq<Line>)
    ensures
        crate::crontab::tally(lines) matches Ok(t) ==> {
            &&& 0 <= t.variables <= 1000
            &&& 0 <= t.entries <= 10000
            &&& 0 <= t.garbage <= 32768
            &&& t.variables + t.entries <= lines.len()
        },
    decreases lines.len(),
{
    if lines.len() > 0 {
        law_tally_is_within_limits(lines.drop_last());
    }
}

/// Lines are tallied one after the other, and the first limit that is exceeded
/// is the one that is told.
pub proof fn law_first_limit_counts(lines: Seq<Line>, next: Line)
    ensures
        crate::crontab::tally(lines) matches Ok(t) ==> crate::crontab::tally(lines.push(next))
            == t.add_line(next),
        crate::crontab::tally(lines) matches Err(e) ==> crate::crontab::tally(lines.push(next))
            == Err::<Tally, LimitError>(e),
        crate::crontab::tally(seq![]) == Ok::<Tally, LimitError>(
            Tally { variables: 0, entries: 0, garbage: 0 },
        ),
{
    assert(lines.push(next).drop_last() =~= lines);
}

/// A crontab exceeds a limit if and only if its lines do or one of its commands
/// is too long.
pub proof fn law_limits_of_a_crontab(lines: Seq<Line>, commands: Seq<Seq<char>>)
    ensures
        crate::crontab::exceeded(lines, commands) is None <==> crate::crontab::tally(lines) is Ok
            && forall|i: int|
            0 <= i < commands.len() ==> crate::raw::bytes_of(#[trigger] commands[i]).len()
                <= 131072,
        crate::crontab::tally(lines) matches Err(e) ==> crate::crontab::exceeded(lines, commands)
            == Some(e),
{
    if crate::crontab::exceeded(lines, commands) is None {
        assert forall|i: int| 0 <= i < commands.len() implies crate::raw::bytes_of(
            #[trigger] commands[i],
        ).len() <= 131072 by {
            assert(crate::crontab::byte_len(commands[i]) <= 131072);
        }
    }
}

// ---------------------------------------------------------------------------
// Whole crontabs
// ---------------------------------------------------------------------------

/// Lines are read one after the other, and counted from 1.
pub proof fn law_lines_in_turn(
    outer: EnvModel,
    lines: Seq<Line>,
    next: Line,
    format: Format,
    privileged: bool,
)
    ensures
        crate::crontab::tab_of(outer, lines.push(next), format, privileged)
            == crate::crontab::tab_of(outer, lines, format, privileged).read(
            next,
            (lines.len() + 1) as nat,
            format,
            privileged,
        ),
        crate::crontab::tab_of(outer, seq![], format, privileged) == TabModel::starting(outer),
{
    assert(lines.push(next).drop_last() =~= lines);
}

/// An entry holds what its line says, and what was declared before it.
pub proof fn law_entries_hold_their_lines(e: Entry, m: EntryModel)
    requires
        e.fits(m),
    ensures
        e.user is Some <==> m.job.user is Some,
        e.user matches Some(u) ==> m.job.user == Some(u@),
        e.raw_command@ == m.job.raw_command,
        e.mail_on_failure_only == m.job.mail_on_failure_only,
        e.quiet == m.job.quiet,
        e.random_delay == m.random_delay,
        e.line == m.line,
        e.tz is Some <==> m.tz is Some,
        e.tz matches Some(z) ==> m.tz == Some(z@),
        e.env@.len() == m.env.len(),
        forall|i: int|
            0 <= i < m.env.len() ==> (#[trigger] e.env@[i]).0@ == m.env[i].0 && e.env@[i].1@
                == m.env[i].1,
        !m.job.raw_command.contains('%') ==> e.command@ == m.job.raw_command && e.stdin is None,
{
    crate::crontab::law_percent(m.job.raw_command);
    let env = crate::crontab::env_model(e.env@);
    assert(env.len() == e.env@.len());
    assert forall|i: int| 0 <= i < m.env.len() implies (#[trigger] e.env@[i]).0@ == m.env[i].0
        && e.env@[i].1@ == m.env[i].1 by {
        assert(env[i] == (e.env@[i].0@, e.env@[i].1@));
    }
}

/// A crontab is parsed if none of its lines is bad, and gives one entry for every
/// job line, in order, and the delay that was set last.
pub proof fn law_parsed_crontabs(
    text: &str,
    format: Format,
    r: Result<crate::crontab::Crontab, Vec<crate::crontab::ParseError>>,
)
    requires
        call_ensures(crate::crontab::Crontab::parse, (text, format), r),
    ensures
        ({
            let m = crate::crontab::tab_of(
                seq![],
                crate::crontab::lines_of(text@),
                format,
                false,
            );
            &&& r is Ok <==> m.errors.len() == 0
            &&& r matches Ok(tab) ==> {
                &&& tab.entries@.len() == m.entries.len()
                &&& forall|i: int|
                    0 <= i < m.entries.len() ==> (#[trigger] tab.entries@[i]).fits(m.entries[i])
                &&& tab.random_delay == m.random_delay
                &&& tab.ignored_delays@.len() == m.ignored.len()
            }
            &&& r matches Err(errors) ==> {
                &&& errors@.len() == m.errors.len()
                &&& forall|i: int|
                    0 <= i < m.errors.len() ==> (#[trigger] errors@[i]).line == m.errors[i].0
                        && errors@[i].error@ == m.errors[i].1
            }
        }),
{
    let m = crate::crontab::tab_of(seq![], crate::crontab::lines_of(text@), format, false);
    match r {
        Ok(tab) => {
            assert(crate::crontab::numbers_model(tab.ignored_delays@).len()
                == tab.ignored_delays@.len());
        },
        Err(errors) => {
            let list = crate::crontab::errors_model(errors@);
            assert(list.len() == errors@.len());
            assert forall|i: int| 0 <= i < m.errors.len() implies (#[trigger] errors@[i]).line
                == m.errors[i].0 && errors@[i].error@ == m.errors[i].1 by {
                assert(list[i] == errors@[i]@);
            }
        },
    }
}

proof fn lemma_five_spaces(words: Seq<Seq<char>>, command: Seq<char>)
    requires
        words.len() == 5,
    ensures
        crate::times::spaced(
            words,
            seq![seq![' '], seq![' '], seq![' '], seq![' '], seq![' ']],
            command,
            0,
        ) == crate::notation::words_text(words, 0) + seq![' '] + command,
{
    let spaces = seq![seq![' '], seq![' '], seq![' '], seq![' '], seq![' ']];
    reveal_with_fuel(crate::times::spaced, 6);
    reveal_with_fuel(crate::notation::words_text, 5);
    assert(crate::times::spaced(words, spaces, command, 0) =~= crate::notation::words_text(
        words,
        0,
    ) + seq![' '] + command);
}

/// A crontab of two lines, one that sets a variable and one with five fields and a
/// command, has one entry: it runs that command, at the times that the fields name,
/// in an environment where the variable has that value.
pub proof fn law_small_crontab(
    name: Seq<char>,
    value: Seq<char>,
    v: Seq<Option<nat>>,
    command: Seq<char>,
    text: &str,
    r: Result<crate::crontab::Crontab, Vec<crate::crontab::ParseError>>,
)
    requires
        crate::crontab::var_name(name),
        name != "CRON_TZ"@,
        name != "RANDOM_DELAY"@,
        name != "LOGNAME"@,
        name != "USER"@,
        value.len() > 0,
        value[0] != '"',
        value[0] != '\'',
        !crate::text::white(value[0]),
        !crate::text::white(value.last()),
        !value.contains('\n'),
        v.len() == 5,
        forall|k: int|
            0 <= k < 5 ==> ((#[trigger] v[k]) matches Some(n) ==> crate::times::in_place(k, n)),
        command.len() > 0,
        !crate::text::white(command[0]),
        !crate::text::white(command.last()),
        command[0] != '-',
        command[0] != '*',
        !command.contains('%'),
        !command.contains('\n'),
        text@ == name + seq!['='] + value + seq!['\n'] + crate::notation::words_text(
            crate::times::numbers_and_stars(v),
            0,
        ) + seq![' '] + command + seq!['\n'],
        call_ensures(crate::crontab::Crontab::parse, (text, Format::User), r),
    ensures
        r matches Ok(tab) && tab.entries@.len() == 1 && {
            let e = tab.entries@[0];
            &&& e.command@ == command
            &&& e.raw_command@ == command
            &&& e.stdin is None
            &&& e.user is None
            &&& e.tz is None
            &&& e.line == 2
            &&& !e.quiet
            &&& !e.mail_on_failure_only
            &&& crate::crontab::env_value(crate::crontab::env_model(e.env@), name) == Some(value)
            &&& crate::notation::parses_to(
                crate::notation::words_text(crate::times::numbers_and_stars(v), 0),
                e.schedule,
            )
        },
{
    let words = crate::times::numbers_and_stars(v);
    let first = name + seq!['='] + value;
    let second = crate::notation::words_text(words, 0) + seq![' '] + command;
    let l1 = Line { text: first, ended: true };
    let l2 = Line { text: second, ended: true };
    crate::times::lemma_read_fields(v);
    lemma_small_lines(first, second, text@, name, value, words, command);
    lemma_small_tab(name, value, v, command, l1, l2);
    let m = crate::crontab::tab_of(seq![], seq![l1, l2], Format::User, false);
    law_parsed_crontabs(text, Format::User, r);
    let e = (r->Ok_0).entries@[0];
    assert(e.fits(m.entries[0]));
    law_entries_hold_their_lines(e, m.entries[0]);
    lemma_scheduled(
        crate::notation::words_text(words, 0),
        crate::times::read_fields_of(v),
        e,
        m.entries[0],
    );
    assert(crate::crontab::env_model(e.env@) == m.entries[0].env);
}

proof fn lemma_scheduled(
    text: Seq<char>,
    fs: Seq<crate::schedule::FieldModel>,
    e: Entry,
    m: EntryModel,
)
    requires
        e.fits(m),
        m.job.fields == Some(fs),
        crate::schedule::prefix_of(text) == Ok::<
            (Option<Seq<crate::schedule::FieldModel>>, Seq<char>),
            crate::schedule::ScheduleError,
        >((Some(fs), seq![])),
    ensures
        crate::notation::parses_to(text, e.schedule),
{
}

/// The first line sets the variable.
proof fn lemma_small_first(m: TabModel, name: Seq<char>, value: Seq<char>, l: Line) -> (r: TabModel)
    requires
        crate::crontab::var_name(name),
        name != "CRON_TZ"@,
        name != "RANDOM_DELAY"@,
        name != "LOGNAME"@,
        name != "USER"@,
        value.len() > 0,
        value[0] != '"',
        value[0] != '\'',
        !crate::text::white(value[0]),
        !crate::text::white(value.last()),
        l == (Line { text: name + seq!['='] + value, ended: true }),
    ensures
        r == m.read(l, 1, Format::User, false),
        crate::crontab::env_value(r.env, name) == Some(value),
        r.tz == m.tz,
        r.entries == m.entries,
        r.errors == m.errors,
{
    let line = name + seq!['='] + value;
    law_short_assignments(name, value);
    lemma_name_char(name, 0);
    assert(line[0] == name[0]);
    law_variable_names(name);
    assert(name[0] != '#');
    law_lines_are_read(m, line, 1, Format::User, false);
    law_ordinary_variables(m, name, value, 1);
    m.read(l, 1, Format::User, false)
}

/// The second line adds the job.
proof fn lemma_small_second(
    m: TabModel,
    v: Seq<Option<nat>>,
    command: Seq<char>,
    l: Line,
) -> (r: TabModel)
    requires
        v.len() == 5,
        forall|k: int|
            0 <= k < 5 ==> ((#[trigger] v[k]) matches Some(n) ==> crate::times::in_place(k, n)),
        command.len() > 0,
        !crate::text::white(command[0]),
        command[0] != '-',
        command[0] != '*',
        l == (Line {
            text: crate::notation::words_text(crate::times::numbers_and_stars(v), 0) + seq![' ']
                + command,
            ended: true,
        }),
    ensures
        r == m.read(l, 2, Format::User, false),
        r.errors == m.errors,
        r.entries.len() == m.entries.len() + 1,
        r.entries.last().env == m.env,
        r.entries.last().tz == m.tz,
        r.entries.last().line == 2,
        r.entries.last().job == (JobModel {
            fields: Some(crate::times::read_fields_of(v)),
            user: None,
            raw_command: command,
            mail_on_failure_only: false,
            quiet: false,
        }),
{
    lemma_small_job(v, command, l.text, false);
    law_lines_are_read(m, l.text, 2, Format::User, false);
    m.read(l, 2, Format::User, false)
}

proof fn lemma_small_tab(
    name: Seq<char>,
    value: Seq<char>,
    v: Seq<Option<nat>>,
    command: Seq<char>,
    l1: Line,
    l2: Line,
)
    requires
        crate::crontab::var_name(name),
        name != "CRON_TZ"@,
        name != "RANDOM_DELAY"@,
        name != "LOGNAME"@,
        name != "USER"@,
        value.len() > 0,
        value[0] != '"',
        value[0] != '\'',
        !crate::text::white(value[0]),
        !crate::text::white(value.last()),
        v.len() == 5,
        forall|k: int|
            0 <= k < 5 ==> ((#[trigger] v[k]) matches Some(n) ==> crate::times::in_place(k, n)),
        command.len() > 0,
        !crate::text::white(command[0]),
        command[0] != '-',
        command[0] != '*',
        l1 == (Line { text: name + seq!['='] + value, ended: true }),
        l2 == (Line {
            text: crate::notation::words_text(crate::times::numbers_and_stars(v), 0) + seq![' ']
                + command,
            ended: true,
        }),
    ensures
        ({
            let m = crate::crontab::tab_of(seq![], seq![l1, l2], Format::User, false);
            &&& m.errors.len() == 0
            &&& m.entries.len() == 1
            &&& crate::crontab::env_value(m.entries[0].env, name) == Some(value)
            &&& m.entries[0].tz is None
            &&& m.entries[0].line == 2
            &&& m.entries[0].job == (JobModel {
                fields: Some(crate::times::read_fields_of(v)),
                user: None,
                raw_command: command,
                mail_on_failure_only: false,
                quiet: false,
            })
        }),
{
    let m0 = TabModel::starting(seq![]);
    let m1 = lemma_small_first(m0, name, value, l1);
    let m2 = lemma_small_second(m1, v, command, l2);
    assert(m0.errors.len() == 0 && m0.entries.len() == 0 && m0.tz is None);
    lemma_two_lines(m0, m1, m2, l1, l2);
    assert(m2.entries.last() == m2.entries[0]);
}

proof fn lemma_two_lines(m0: TabModel, m1: TabModel, m2: TabModel, l1: Line, l2: Line)
    requires
        m0 == TabModel::starting(seq![]),
        m1 == m0.read(l1, 1, Format::User, false),
        m2 == m1.read(l2, 2, Format::User, false),
    ensures
        crate::crontab::tab_of(seq![], seq![l1, l2], Format::User, false) == m2,
{
    let none = Seq::<Line>::empty();
    law_lines_in_turn(seq![], none, l1, Format::User, false);
    law_lines_in_turn(seq![], seq![l1], l2, Format::User, false);
    assert(none.push(l1) =~= seq![l1]);
    assert(seq![l1].push(l2) =~= seq![l1, l2]);
}

proof fn lemma_small_lines(
    first: Seq<char>,
    second: Seq<char>,
    text: Seq<char>,
    name: Seq<char>,
    value: Seq<char>,
    words: Seq<Seq<char>>,
    command: Seq<char>,
)
    requires
        crate::crontab::var_name(name),
        value.len() > 0,
        !crate::text::white(value.last()),
        !value.contains('\n'),
        command.len() > 0,
        !crate::text::white(command.last()),
        !command.contains('\n'),
        crate::notation::field_words(words),
        first == name + seq!['='] + value,
        second == crate::notation::words_text(words, 0) + seq![' '] + command,
        text == name + seq!['='] + value + seq!['\n'] + crate::notation::words_text(words, 0)
            + seq![' '] + command + seq!['\n'],
    ensures
        crate::crontab::lines_of(text) == seq![
            Line { text: first, ended: true },
            Line { text: second, ended: true },
        ],
{
    let none = Seq::<char>::empty();
    let tail = second + seq!['\n'] + none;
    assert(text =~= first + seq!['\n'] + tail);
    assert(!first.contains('\n')) by {
        if first.contains('\n') {
            let i = choose|i: int| 0 <= i < first.len() && first[i] == '\n';
            if i < name.len() {
                lemma_name_char(name, i);
                assert(first[i] == name[i]);
            } else if i > name.len() {
                assert(first[i] == value[i - name.len() - 1]);
                assert(value.contains('\n'));
            }
        }
    }
    assert(first.last() == value.last());
    assert(second.last() == command.last());
    lemma_words_on_one_line(words, 0);
    let spec_text = crate::notation::words_text(words, 0);
    assert(!second.contains('\n')) by {
        if second.contains('\n') {
            let i = choose|i: int| 0 <= i < second.len() && second[i] == '\n';
            if i < spec_text.len() {
                assert(second[i] == spec_text[i]);
                assert(spec_text.contains('\n'));
            } else if i > spec_text.len() {
                assert(second[i] == command[i - spec_text.len() - 1]);
                assert(command.contains('\n'));
            }
        }
    }
    law_lines(first, tail);
    law_lines(second, none);
    assert(crate::crontab::lines_of(none) =~= seq![]);
    assert(crate::crontab::lines_of(text) =~= seq![
        Line { text: first, ended: true },
        Line { text: second, ended: true },
    ]);
}

proof fn lemma_words_on_one_line(words: Seq<Seq<char>>, k: int)
    requires
        crate::notation::field_words(words),
        0 <= k < 5,
    ensures
        !crate::notation::words_text(words, k).contains('\n'),
    decreases 5 - k,
{
    let s = crate::notation::words_text(words, k);
    assert(crate::notation::is_word(words[k]));
    if k < 4 {
        lemma_words_on_one_line(words, k + 1);
        let rest = crate::notation::words_text(words, k + 1);
        assert(s == words[k] + seq![' '] + rest);
        if s.contains('\n') {
            let i = choose|i: int| 0 <= i < s.len() && s[i] == '\n';
            if i < words[k].len() {
                assert(s[i] == words[k][i]);
            } else if i > words[k].len() {
                assert(s[i] == rest[i - words[k].len() - 1]);
                assert(rest.contains('\n'));
            }
        }
    } else {
        if s.contains('\n') {
            let i = choose|i: int| 0 <= i < s.len() && s[i] == '\n';
            assert(!crate::text::white(words[k][i]));
        }
    }
}

proof fn lemma_small_job(
    v: Seq<Option<nat>>,
    command: Seq<char>,
    line: Seq<char>,
    privileged: bool,
)
    requires
        v.len() == 5,
        forall|k: int|
            0 <= k < 5 ==> ((#[trigger] v[k]) matches Some(n) ==> crate::times::in_place(k, n)),
        command.len() > 0,
        !crate::text::white(command[0]),
        command[0] != '-',
        command[0] != '*',
        line == crate::notation::words_text(crate::times::numbers_and_stars(v), 0) + seq![' ']
            + command,
    ensures
        line.len() > 0,
        !crate::text::white(line[0]),
        line[0] != '#',
        line[0] != '-',
        crate::crontab::env_line(line) is None,
        crate::crontab::job_of(line, Format::User, privileged) == Ok::<JobModel, ErrorModel>(
            JobModel {
                fields: Some(crate::times::read_fields_of(v)),
                user: None,
                raw_command: command,
                mail_on_failure_only: false,
                quiet: false,
            },
        ),
{
    let words = crate::times::numbers_and_stars(v);
    let fs = crate::times::read_fields_of(v);
    let spaces = seq![seq![' '], seq![' '], seq![' '], seq![' '], seq![' ']];
    crate::times::lemma_read_fields(v);
    lemma_five_spaces(words, command);
    assert forall|j: int| 0 <= j < 5 implies blank(#[trigger] spaces[j]) && spaces[j].len() > 0 by {
        crate::text::law_white_space(' ');
    }
    let none = Seq::<char>::empty();
    crate::times::law_spaces_between_fields(none, words, spaces, command, fs);
    assert(none + line =~= line);
    assert(crate::notation::is_word(words[0]));
    assert(line[0] == words[0][0]) by {
        reveal_with_fuel(crate::notation::words_text, 2);
    }
    lemma_no_assignment(line);
    law_user_job_line(line, Some(fs), command, privileged);
}

proof fn lemma_no_assignment(line: Seq<char>)
    requires
        line.len() > 0,
        !crate::text::white(line[0]),
        '0' <= line[0] <= '9' || line[0] == '*',
    ensures
        crate::crontab::env_line(line) is None,
{
    law_assignments_name_a_variable(line);
    lemma_starts(line);
    if let Some((name, _)) = crate::crontab::env_line(line) {
        law_variable_names(name);
        assert(line.take(name.len() as int)[0] == line[0]);
    }
}

/// With bad lines skipped, the same lines give the same entries, and the errors come
/// with them.
pub proof fn law_parsed_lines(
    text: &str,
    format: Format,
    privileged: bool,
    outer: Vec<(String, String)>,
    r: crate::crontab::Parsed,
)
    requires
        call_ensures(crate::crontab::Crontab::parse_lines, (text, format, privileged, &outer), r),
    ensures
        ({
            let m = crate::crontab::tab_of(
                crate::crontab::env_model(outer@),
                crate::crontab::lines_of(text@),
                format,
                privileged,
            );
            &&& r.crontab.entries@.len() == m.entries.len()
            &&& forall|i: int|
                0 <= i < m.entries.len() ==> (#[trigger] r.crontab.entries@[i]).fits(m.entries[i])
            &&& r.crontab.random_delay == m.random_delay
            &&& r.errors@.len() == m.errors.len()
        }),
{
    assert(crate::crontab::errors_model(r.errors@).len() == r.errors@.len());
}

// ---------------------------------------------------------------------------
// Messages
// ---------------------------------------------------------------------------

/// Every error says what is bad, and those about a value show it.
pub proof fn law_error_messages(v: Seq<char>, e: crate::schedule::ScheduleError)
    ensures
        ErrorModel::BadUsername.text() == "bad username"@,
        ErrorModel::BadCommand.text() == "bad command"@,
        ErrorModel::BadOption.text() == "bad option"@,
        ErrorModel::BadTimezone(v).text() == "bad CRON_TZ value \""@ + v + "\""@,
        ErrorModel::BadRandomDelay(v).text() == "bad RANDOM_DELAY value \""@ + v + "\""@,
        ErrorModel::PrematureEof.text() == "premature EOF"@,
        ErrorModel::PrematureEof.log_text() == "missing newline before EOF"@,
        ErrorModel::Schedule(e).text() == e.text(),
        ErrorModel::Schedule(e).log_text() == e.text(),
        ErrorModel::BadTimezone(v).log_text() == ErrorModel::BadTimezone(v).text(),
        crate::schedule::ScheduleError::BadMinute.text() == "bad minute"@,
        crate::schedule::ScheduleError::BadHour.text() == "bad hour"@,
        crate::schedule::ScheduleError::BadDayOfMonth.text() == "bad day-of-month"@,
        crate::schedule::ScheduleError::BadMonth.text() == "bad month"@,
        crate::schedule::ScheduleError::BadDayOfWeek.text() == "bad day-of-week"@,
        crate::schedule::ScheduleError::BadTimeSpecifier.text() == "bad time specifier"@,
{
}

/// A parse error is told with the number of its line.
pub proof fn law_parse_error_message(e: crate::crontab::ParseError, r: String)
    requires
        call_ensures(crate::crontab::ParseError::message, (&e,), r),
    ensures
        r@ == "line "@ + crate::text::decimal_text(e.line as nat) + ": "@ + e.error@.text(),
{
}

/// A refused crontab is told by the name of its file, the line and what is bad, or
/// by the limit that it exceeds.
pub proof fn law_refusal_message(f: crate::command::Refusal, source: Seq<char>)
    ensures
        f matches crate::command::Refusal::Syntax(e) ==> f.line(source) == "\""@ + source + "\":"@
            + crate::text::decimal_text(e.line as nat) + ": "@ + e.error@.text(),
        f matches crate::command::Refusal::Limit(e) ==> f.line(source) == e.text(),
{
}

} // verus!
