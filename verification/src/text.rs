//! Facts about UTF-8 text and the few string operations the library needs.
use vstd::prelude::*;
use vstd::utf8::{
    encode_utf8, encode_utf8_decode_utf8, encode_utf8_valid_utf8, is_char_boundary,
    is_char_boundary_iff_not_is_continuation_byte, is_continuation_byte, length_of_first_scalar,
    pop_first_scalar, valid_utf8,
};

use crate::order::same_bytes;

verus! {

/// The UTF-8 bytes of a text.
pub open spec fn utf8(text: Seq<char>) -> Seq<u8> {
    encode_utf8(text)
}

/// The bytes of a text put together are the bytes of its parts put together.
pub proof fn lemma_utf8_concat(a: Seq<char>, b: Seq<char>)
    ensures
        utf8(a + b) == utf8(a) + utf8(b),
    decreases a.len(),
{
    if a.len() == 0 {
        assert(a + b =~= b);
        assert(utf8(a) + utf8(b) =~= utf8(b));
    } else {
        let rest = a.drop_first();
        lemma_utf8_concat(rest, b);
        assert((a + b).drop_first() =~= rest + b);
        assert(utf8(a + b) =~= utf8(a) + utf8(b));
    }
}

/// Two texts with the same bytes are the same.
pub proof fn lemma_utf8_injective(a: Seq<char>, b: Seq<char>)
    requires
        utf8(a) == utf8(b),
    ensures
        a == b,
{
    encode_utf8_decode_utf8(a);
    encode_utf8_decode_utf8(b);
}

/// An ASCII byte starts a character, and the character ends with it.
pub proof fn lemma_ascii_is_boundary(bytes: Seq<u8>, at: int)
    requires
        valid_utf8(bytes),
        0 <= at < bytes.len(),
        bytes[at] < 0x80,
    ensures
        is_char_boundary(bytes, at),
{
    is_char_boundary_iff_not_is_continuation_byte(bytes, at);
    let b = bytes[at];
    assert(b < 0x80 ==> !is_continuation_byte(b)) by (bit_vector);
}

/// Right behind a leading ASCII byte a character starts.
pub proof fn lemma_after_ascii_is_boundary(bytes: Seq<u8>)
    requires
        valid_utf8(bytes),
        0 < bytes.len(),
        bytes[0] < 0x80,
    ensures
        is_char_boundary(bytes, 1),
{
    let b = bytes[0];
    assert(b < 0x80 ==> vstd::utf8::is_leading_byte_width_1(b)) by (bit_vector);
    assert(length_of_first_scalar(bytes) == 1);
    assert(is_char_boundary(pop_first_scalar(bytes), 0));
}

/// Appends a text.
pub fn append_text(out: &mut String, more: &str)
    ensures
        final(out)@ == old(out)@ + more@,
        utf8(final(out)@) == utf8(old(out)@) + utf8(more@),
{
    proof {
        lemma_utf8_concat(out@, more@);
    }
    out.append(more);
}

/// Whether two texts are the same.
pub fn same_text(a: &str, b: &str) -> (same: bool)
    ensures
        same == (a@ == b@),
        same == (utf8(a@) == utf8(b@)),
{
    let same = same_bytes(a.as_bytes(), b.as_bytes());
    proof {
        if utf8(a@) == utf8(b@) {
            lemma_utf8_injective(a@, b@);
        }
    }
    same
}

/// The length of a text in bytes.
pub fn byte_len(text: &str) -> (n: usize)
    ensures
        n == utf8(text@).len(),
{
    text.as_bytes().len()
}

/// Splits a text in front of an ASCII byte.
pub fn split_before_ascii<'a>(text: &'a str, at: usize) -> (parts: (&'a str, &'a str))
    requires
        at < utf8(text@).len(),
        utf8(text@)[at as int] < 0x80,
    ensures
        utf8(parts.0@) == utf8(text@).take(at as int),
        utf8(parts.1@) == utf8(text@).skip(at as int),
{
    proof {
        encode_utf8_valid_utf8(text@);
        lemma_ascii_is_boundary(utf8(text@), at as int);
    }
    let parts = text.split_at(at);
    assert(utf8(parts.0@) =~= utf8(text@).take(at as int));
    assert(utf8(parts.1@) =~= utf8(text@).skip(at as int));
    parts
}

/// Drops a leading ASCII byte.
pub fn drop_leading_ascii<'a>(text: &'a str) -> (rest: &'a str)
    requires
        0 < utf8(text@).len(),
        utf8(text@)[0] < 0x80,
    ensures
        utf8(rest@) == utf8(text@).skip(1),
{
    proof {
        encode_utf8_valid_utf8(text@);
        lemma_after_ascii_is_boundary(utf8(text@));
    }
    let parts = text.split_at(1);
    assert(utf8(parts.1@) =~= utf8(text@).skip(1));
    parts.1
}

/// A decimal number as text.
pub open spec fn decimal(value: nat) -> Seq<char>
    decreases value,
{
    if value < 10 {
        seq![(('0' as u32) + value) as char]
    } else {
        decimal(value / 10) + decimal(value % 10)
    }
}

fn digit(value: u64) -> (text: &'static str)
    requires
        value < 10,
    ensures
        text@ == decimal(value as nat),
{
    proof {
        reveal_strlit("0");
        reveal_strlit("1");
        reveal_strlit("2");
        reveal_strlit("3");
        reveal_strlit("4");
        reveal_strlit("5");
        reveal_strlit("6");
        reveal_strlit("7");
        reveal_strlit("8");
        reveal_strlit("9");
    }
    let text: &'static str = if value == 0 {
        "0"
    } else if value == 1 {
        "1"
    } else if value == 2 {
        "2"
    } else if value == 3 {
        "3"
    } else if value == 4 {
        "4"
    } else if value == 5 {
        "5"
    } else if value == 6 {
        "6"
    } else if value == 7 {
        "7"
    } else if value == 8 {
        "8"
    } else {
        "9"
    };
    assert(text@ =~= decimal(value as nat));
    text
}

/// Appends a number as text.
pub fn append_number(out: &mut String, value: u64)
    ensures
        final(out)@ == old(out)@ + decimal(value as nat),
    decreases value,
{
    if value < 10 {
        append_text(out, digit(value));
    } else {
        append_number(out, value / 10);
        append_text(out, digit(value % 10));
        assert(out@ =~= old(out)@ + decimal(value as nat));
    }
}

} // verus!
