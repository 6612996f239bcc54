//! Texts that carry bytes.
//!
//! A crontab need not be UTF-8, and its commands reach the shell byte for byte.
//! Here an ASCII byte stands for itself, and any other byte for a private-use
//! character at the end of the code space, so that a text gives back the bytes
//! it was made from.

use vstd::prelude::*;

verus! {

/// `char::from_u32`: the character with the given code, if there is one. Codes
/// from `0x10ff00` to `0x10ffff` all have one.
#[verifier::external_body]
fn character(code: u32) -> (r: Option<char>)
    requires
        0x10ff00 <= code <= 0x10ffff,
    ensures
        r == Some(code as char),
{
    char::from_u32(code)
}

/// The character that stands for a byte.
pub open spec fn byte_char(b: u8) -> char {
    if b < 0x80 {
        b as char
    } else {
        (0x10ff00 + b) as char
    }
}

/// The text that stands for the bytes.
pub open spec fn text_of(bytes: Seq<u8>) -> Seq<char> {
    bytes.map_values(|b: u8| byte_char(b))
}

/// The bytes that a character stands for; one that stands for no single byte
/// is written in UTF-8.
pub open spec fn char_bytes(c: char) -> Seq<u8> {
    if (c as u32) < 0x80 {
        seq![c as u8]
    } else if c as u32 >= 0x10ff80 {
        seq![(c as u32 - 0x10ff00) as u8]
    } else {
        vstd::utf8::encode_utf8(seq![c])
    }
}

/// The bytes that a text stands for.
pub open spec fn bytes_of(s: Seq<char>) -> Seq<u8>
    decreases s.len(),
{
    if s.len() == 0 {
        seq![]
    } else {
        bytes_of(s.drop_last()) + char_bytes(s.last())
    }
}

/// A text gives back the bytes it was made from.
pub proof fn law_bytes_come_back(bytes: Seq<u8>)
    ensures
        bytes_of(text_of(bytes)) == bytes,
    decreases bytes.len(),
{
    if bytes.len() > 0 {
        let b = bytes.last();
        law_bytes_come_back(bytes.drop_last());
        assert(text_of(bytes).drop_last() =~= text_of(bytes.drop_last()));
        assert(text_of(bytes).last() == byte_char(b));
        assert(char_bytes(byte_char(b)) =~= seq![b]);
        assert(bytes.drop_last() + seq![b] =~= bytes);
    } else {
        assert(bytes =~= seq![]);
    }
}

/// The text that stands for the bytes.
pub fn text_from(bytes: &[u8]) -> (r: String)
    ensures
        r@ == text_of(bytes@),
{
    let mut out = String::new();
    let mut i: usize = 0;
    while i < bytes.len()
        invariant
            i <= bytes@.len(),
            out@ == text_of(bytes@.take(i as int)),
        decreases bytes@.len() - i,
    {
        let b: u8 = bytes[i];
        let c = if b < 0x80 {
            b as char
        } else {
            character(0x10ff00 + b as u32).unwrap()
        };
        out.push(c);
        assert(text_of(bytes@.take(i + 1)) =~= text_of(bytes@.take(i as int)).push(byte_char(b)));
        i += 1;
    }
    assert(bytes@.take(bytes@.len() as int) =~= bytes@);
    out
}

fn push_char(out: &mut Vec<u8>, c: char)
    ensures
        final(out)@ == old(out)@ + char_bytes(c),
{
    let code: u32 = c as u32;
    if code < 0x80 {
        out.push(code as u8);
    } else if code >= 0x10ff80 {
        out.push((code - 0x10ff00) as u8);
    } else {
        let mut one = String::new();
        one.push(c);
        assert(one@ =~= seq![c]);
        out.extend_from_slice(one.as_str().as_bytes());
    }
    assert(out@ =~= old(out)@ + char_bytes(c));
}

/// The bytes that a text stands for.
pub fn bytes_from(text: &str) -> (r: Vec<u8>)
    ensures
        r@ == bytes_of(text@),
{
    let chars = crate::text::chars_of(text);
    let mut out: Vec<u8> = Vec::new();
    let mut i: usize = 0;
    assert(chars@.take(0) =~= seq![]);
    while i < chars.len()
        invariant
            i <= chars@.len(),
            out@ == bytes_of(chars@.take(i as int)),
        decreases chars@.len() - i,
    {
        assert(chars@.take(i + 1).drop_last() =~= chars@.take(i as int));
        push_char(&mut out, chars[i]);
        i += 1;
    }
    assert(chars@.take(chars@.len() as int) =~= chars@);
    out
}

/// The bytes of two texts, one behind the other, are those of the first and
/// then those of the second.
pub proof fn law_bytes_of_joined_texts(a: Seq<char>, b: Seq<char>)
    ensures
        bytes_of(a + b) == bytes_of(a) + bytes_of(b),
    decreases b.len(),
{
    if b.len() == 0 {
        assert(a + b =~= a);
        assert(bytes_of(a) + Seq::<u8>::empty() =~= bytes_of(a));
    } else {
        law_bytes_of_joined_texts(a, b.drop_last());
        assert((a + b).drop_last() =~= a + b.drop_last());
        assert((a + b).last() == b.last());
        let last = char_bytes(b.last());
        assert((bytes_of(a) + bytes_of(b.drop_last())) + last =~= bytes_of(a) + (bytes_of(
            b.drop_last(),
        ) + last));
    }
}

proof fn lemma_ascii(c: char)
    requires
        c <= '\x7f',
    ensures
        char_bytes(c) == seq![c as u8],
        (c as u8) as char == c,
        (c as u8) < 0x80,
{
}

/// An ASCII text is its own bytes, and comes back from them.
pub proof fn law_ascii_is_kept(s: Seq<char>)
    requires
        forall|i: int| 0 <= i < s.len() ==> #[trigger] s[i] <= '\x7f',
    ensures
        bytes_of(s).len() == s.len(),
        forall|i: int| 0 <= i < s.len() ==> #[trigger] bytes_of(s)[i] == s[i] as u8,
        text_of(bytes_of(s)) == s,
    decreases s.len(),
{
    let b = bytes_of(s);
    if s.len() > 0 {
        let t = s.drop_last();
        assert forall|i: int| 0 <= i < t.len() implies #[trigger] t[i] <= '\x7f' by {
            assert(s[i] <= '\x7f');
        }
        law_ascii_is_kept(t);
        assert(s[s.len() - 1] <= '\x7f');
        lemma_ascii(s.last());
        assert(b == bytes_of(t) + seq![s.last() as u8]);
        assert forall|i: int| 0 <= i < s.len() implies #[trigger] b[i] == s[i] as u8 by {
            if i < t.len() {
                assert(b[i] == bytes_of(t)[i]);
                assert(t[i] == s[i]);
            }
        }
    }
    assert forall|i: int| 0 <= i < s.len() implies #[trigger] text_of(b)[i] == s[i] by {
        assert(b[i] == s[i] as u8);
        assert(s[i] <= '\x7f');
        lemma_ascii(s[i]);
    }
    assert(text_of(b) =~= s);
}

} // verus!
