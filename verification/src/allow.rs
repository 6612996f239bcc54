//! `cron.allow` / `cron.deny` access control:
//!
//! * root is always allowed;
//! * if `cron.allow` exists, only users listed in it may use crontab;
//! * otherwise, if `cron.deny` exists, users listed in it may not;
//! * otherwise everyone may.
//!
//! A list that exists but cannot be read denies everyone but root.

use vstd::prelude::*;

use crate::text::{chars_of, find_char, same, trimmed};

verus! {

/// What is known of a list file.
#[derive(Debug, Clone, PartialEq, Eq)]
pub enum ListFile {
    Missing,
    /// It exists but cannot be read.
    Unreadable,
    Text(String),
}

/// Does a line of the text name the user? White space around the name does
/// not count, nor do comments.
pub open spec fn names_user(text: Seq<char>, user: Seq<char>) -> bool {
    exists|i: int|
        0 <= i < crate::crontab::lines_of(text).len() && is_user_line(
            #[trigger] crate::crontab::lines_of(text)[i],
            user,
        )
}

pub open spec fn is_user_line(line: crate::crontab::Line, user: Seq<char>) -> bool {
    let t = crate::text::trim(line.text);
    t.len() > 0 && t[0] != '#' && t == user
}

/// May the user use crontab?
pub open spec fn allowed(user: Seq<char>, uid: u32, allow: ListFile, deny: ListFile) -> bool {
    ||| uid == 0
    ||| match allow {
        ListFile::Text(t) => names_user(t@, user),
        ListFile::Unreadable => false,
        ListFile::Missing => match deny {
            ListFile::Text(t) => !names_user(t@, user),
            ListFile::Unreadable => false,
            ListFile::Missing => true,
        },
    }
}

fn is_name_line(line: &[char], user: &[char]) -> (r: bool)
    ensures
        forall|ended: bool|
            r == is_user_line((crate::crontab::Line { text: line@, ended }), user@),
{
    let t = trimmed(line);
    t.len() > 0 && t[0] != '#' && same(t, user)
}

pub fn list_contains(text: &str, user: &str) -> (r: bool)
    ensures
        r == names_user(text@, user@),
{
    let chars = chars_of(text);
    let s = chars.as_slice();
    let name = chars_of(user);
    let ghost all = crate::crontab::lines_of(s@);
    let mut pos: usize = 0;
    let ghost mut done: int = 0;
    assert(s@.skip(0) =~= s@);
    assert(all.take(0) + all =~= all);
    while pos < s.len()
        invariant
            pos <= s@.len(),
            name@ == user@,
            all == crate::crontab::lines_of(s@),
            s@ == text@,
            0 <= done <= all.len(),
            all.take(done) + crate::crontab::lines_of(s@.skip(pos as int)) == all,
            forall|i: int| 0 <= i < done ==> !is_user_line(#[trigger] all[i], user@),
        decreases s@.len() - pos,
    {
        let rest = &s[pos..s.len()];
        assert(rest@ =~= s@.skip(pos as int));
        let n = find_char(rest, '\n');
        let ended = n < rest.len();
        let stop: usize = if ended && n > 0 && rest[n - 1] == '\r' {
            n - 1
        } else {
            n
        };
        let line = &rest[0..stop];
        let ghost tail = crate::crontab::lines_of(rest@);
        proof {
            if ended {
                assert(line@ =~= crate::crontab::without_cr(rest@.take(n as int)));
            } else {
                assert(line@ =~= rest@);
            }
            assert(tail[0] == (crate::crontab::Line { text: line@, ended }));
            assert(all[done] == (all.take(done) + tail)[done]);
            assert(all.len() == done + tail.len());
        }
        if is_name_line(line, name.as_slice()) {
            assert(is_user_line(all[done], user@));
            return true;
        }
        assert(!is_user_line(all[done], user@));
        proof {
            if ended {
                assert(rest@.skip(n + 1) =~= s@.skip(pos + n + 1));
                assert(tail.skip(1) =~= crate::crontab::lines_of(rest@.skip(n + 1)));
            } else {
                assert(s@.skip(s@.len() as int) =~= seq![]);
                assert(tail.skip(1) =~= seq![]);
            }
            assert(all.take(done + 1) + tail.skip(1) =~= all.take(done) + tail);
            done = done + 1;
        }
        pos = if ended {
            pos + n + 1
        } else {
            s.len()
        };
    }
    assert(s@.skip(pos as int) =~= seq![]);
    assert(all.take(done) + Seq::<crate::crontab::Line>::empty() =~= all.take(done));
    assert(done == all.len());
    false
}

pub fn user_allowed(user: &str, uid: u32, allow: &ListFile, deny: &ListFile) -> (r: bool)
    ensures
        r == allowed(user@, uid, *allow, *deny),
{
    if uid == 0 {
        return true;
    }
    match allow {
        ListFile::Text(t) => list_contains(t.as_str(), user),
        ListFile::Unreadable => false,
        ListFile::Missing => match deny {
            ListFile::Text(t) => !list_contains(t.as_str(), user),
            ListFile::Unreadable => false,
            ListFile::Missing => true,
        },
    }
}

/// Root is always allowed, and an unreadable list lets nobody else in unless
/// a readable `cron.allow` decides.
pub proof fn law_fails_closed(user: Seq<char>, uid: u32, allow: ListFile, deny: ListFile)
    ensures
        uid == 0 ==> allowed(user, uid, allow, deny),
        uid != 0 && allow is Unreadable ==> !allowed(user, uid, allow, deny),
        uid != 0 && allow is Missing && deny is Unreadable ==> !allowed(user, uid, allow, deny),
{
}

/// When `cron.allow` exists, `cron.deny` does not matter.
pub proof fn law_allow_wins(
    user: Seq<char>,
    uid: u32,
    allow: ListFile,
    deny: ListFile,
    other: ListFile,
)
    requires
        !(allow is Missing),
    ensures
        allowed(user, uid, allow, deny) == allowed(user, uid, allow, other),
{
}

proof fn lemma_first_line(line: Seq<char>, rest: Seq<char>, user: Seq<char>)
    requires
        !line.contains('\n'),
        line.len() > 0 ==> line.last() != '\r',
    ensures
        names_user(line + seq!['\n'] + rest, user) <==> {
            let t = crate::text::trim(line);
            ||| t.len() > 0 && t[0] != '#' && t == user
            ||| names_user(rest, user)
        },
{
    let all = crate::crontab::lines_of(line + seq!['\n'] + rest);
    let tail = crate::crontab::lines_of(rest);
    let first = crate::crontab::Line { text: line, ended: true };
    crate::lines::law_lines(line, rest);
    assert(all == seq![first] + tail);
    assert(all[0] == first);
    if is_user_line(first, user) {
        assert(is_user_line(all[0], user));
    }
    if names_user(rest, user) {
        let i = choose|i: int| 0 <= i < tail.len() && is_user_line(#[trigger] tail[i], user);
        assert(all[i + 1] == tail[i]);
    }
    if names_user(line + seq!['\n'] + rest, user) {
        let i = choose|i: int| 0 <= i < all.len() && is_user_line(#[trigger] all[i], user);
        if i > 0 {
            assert(tail[i - 1] == all[i]);
        }
    }
}

/// A line with a user's name on it, and white space around it at most, lists the
/// user, wherever in the file it stands.
pub proof fn law_listed_users(
    lead: Seq<char>,
    user: Seq<char>,
    end: Seq<char>,
    rest: Seq<char>,
)
    requires
        crate::lines::blank(lead),
        crate::lines::blank(end),
        user.len() > 0,
        user[0] != '#',
        !crate::text::white(user[0]),
        !crate::text::white(user.last()),
        !(lead + user + end).contains('\n'),
        (lead + user + end).last() != '\r',
    ensures
        names_user(lead + user + end + seq!['\n'] + rest, user),
{
    crate::text::law_trim(lead, user, end);
    lemma_first_line(lead + user + end, rest, user);
}

/// A comment lists nobody, and neither does a line that names somebody else, be it
/// that the name only begins or ends with the user's: the other lines decide.
pub proof fn law_other_lines_do_not_count(line: Seq<char>, rest: Seq<char>, user: Seq<char>)
    requires
        !line.contains('\n'),
        line.len() > 0 ==> line.last() != '\r',
        crate::text::trim(line) != user || user.len() == 0 || user[0] == '#',
    ensures
        names_user(line + seq!['\n'] + rest, user) == names_user(rest, user),
        !names_user(seq![], user),
{
    lemma_first_line(line, rest, user);
}

/// Who may use crontab: root always; if there is a list of those who may, they
/// and nobody else; if there is only a list of those who may not, all others; and
/// everybody if there is neither.
pub proof fn law_access(user: Seq<char>, uid: u32, list: String, other: ListFile)
    ensures
        allowed(user, 0, other, ListFile::Text(list)),
        uid != 0 ==> allowed(user, uid, ListFile::Text(list), other) == names_user(list@, user),
        uid != 0 ==> allowed(user, uid, ListFile::Missing, ListFile::Text(list)) == !names_user(
            list@,
            user,
        ),
        allowed(user, uid, ListFile::Missing, ListFile::Missing),
{
}

} // verus!
