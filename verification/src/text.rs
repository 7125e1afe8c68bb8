//! Cutting a `str` at byte positions while reasoning about its characters.
//!
//! The grammar of the header is stated over sequences of characters, while the
//! executable code scans the UTF-8 bytes of the input, where every position
//! can be reached in constant time. Every character the grammar cares about is
//! ASCII, so the two views meet wherever a cut is made: an ASCII byte is a
//! character of its own, and a byte that is not ASCII belongs to a character
//! that is not ASCII either.

use vstd::prelude::*;
use vstd::string::*;
use vstd::utf8::*;

verus! {

/// The encoding of a concatenation is the concatenation of the encodings.
pub proof fn lemma_encode_concat(a: Seq<char>, b: Seq<char>)
    ensures
        encode_utf8(a + b) == encode_utf8(a) + encode_utf8(b),
    decreases a.len(),
{
    if a.len() == 0 {
        assert(a + b =~= b);
        assert(encode_utf8(a) + encode_utf8(b) =~= encode_utf8(b));
    } else {
        assert((a + b).drop_first() =~= a.drop_first() + b);
        lemma_encode_concat(a.drop_first(), b);
        assert(encode_utf8(a + b) =~= encode_utf8(a) + encode_utf8(b));
    }
}

/// Only the empty text has an empty encoding.
pub proof fn lemma_encode_empty(chars: Seq<char>)
    ensures
        encode_utf8(chars).len() == 0 <==> chars.len() == 0,
{
    if chars.len() > 0 {
        encode_utf8_first_scalar(chars);
    }
}

/// How the first byte of an encoding relates to the first character: the byte
/// starts a character, it is ASCII exactly when the character is, and then it
/// is that character, followed by the encoding of the rest.
pub proof fn lemma_first_byte(chars: Seq<char>)
    requires
        chars.len() > 0,
    ensures
        encode_utf8(chars).len() > 0,
        !is_continuation_byte(encode_utf8(chars)[0]),
        encode_utf8(chars)[0] <= 0x7f <==> chars[0] <= '\u{7f}',
        encode_utf8(chars)[0] <= 0x7f ==> {
            &&& chars[0] == encode_utf8(chars)[0] as char
            &&& chars[0] as u8 == encode_utf8(chars)[0]
            &&& encode_utf8(chars.drop_first()) == encode_utf8(chars).skip(1)
        },
{
    let bytes = encode_utf8(chars);
    let b = bytes[0];
    let c = chars[0] as u32;
    encode_utf8_first_scalar(chars);
    char_is_scalar(chars[0]);
    char_u32_cast(chars[0], c);
    assert(c as int == chars[0] as int);
    assert(valid_first_scalar(bytes));
    assert(decode_first_codepoint(bytes) == c);
    if b <= 0x7f {
        assert(b & 0x7f == b) by (bit_vector)
            requires
                b <= 0x7f,
        ;
        assert(is_leading_byte_width_1(b));
        assert(c == b as u32);
        assert(has_width_1_encoding(c));
        assert(encode_scalar(c).len() == 1);
        assert(bytes =~= encode_scalar(c) + encode_utf8(chars.drop_first()));
        assert(encode_utf8(chars.drop_first()) =~= bytes.skip(1));
        assert(chars[0] == b as char);
    } else {
        assert(!is_leading_byte_width_1(b));
        assert(length_of_first_codepoint(bytes) >= 2);
        assert(c >= 0x80);
    }
}

/// Where an encoding begins with `n` ASCII bytes, the text begins with the
/// same `n` characters, and the bytes after them encode the characters after
/// them.
pub proof fn lemma_ascii_prefix(chars: Seq<char>, n: int)
    requires
        0 <= n <= encode_utf8(chars).len(),
        forall|j: int| 0 <= j < n ==> #[trigger] encode_utf8(chars)[j] <= 0x7f,
    ensures
        n <= chars.len(),
        forall|j: int| 0 <= j < n ==> #[trigger] chars[j] == encode_utf8(chars)[j] as char,
        forall|j: int| 0 <= j < n ==> #[trigger] chars[j] as u8 == encode_utf8(chars)[j],
        encode_utf8(chars.skip(n)) == encode_utf8(chars).skip(n),
        encode_utf8(chars.take(n)) == encode_utf8(chars).take(n),
    decreases n,
{
    let bytes = encode_utf8(chars);
    if n == 0 {
        assert(chars.skip(0) =~= chars);
        assert(bytes.skip(0) =~= bytes);
        assert(chars.take(0) =~= Seq::<char>::empty());
        assert(bytes.take(0) =~= encode_utf8(Seq::<char>::empty()));
    } else {
        lemma_encode_empty(chars);
        assert(bytes[0] <= 0x7f);
        lemma_first_byte(chars);
        let tail = chars.drop_first();
        assert forall|j: int| 0 <= j < n - 1 implies #[trigger] encode_utf8(tail)[j] <= 0x7f by {
            assert(encode_utf8(tail)[j] == bytes[j + 1]);
        }
        lemma_ascii_prefix(tail, n - 1);
        assert forall|j: int| 0 <= j < n implies #[trigger] chars[j] == bytes[j] as char by {
            if j > 0 {
                assert(chars[j] == tail[j - 1]);
                assert(encode_utf8(tail)[j - 1] == bytes[j]);
            }
        }
        assert forall|j: int| 0 <= j < n implies #[trigger] chars[j] as u8 == bytes[j] by {
            if j > 0 {
                assert(chars[j] == tail[j - 1]);
                assert(encode_utf8(tail)[j - 1] == bytes[j]);
            }
        }
        assert(chars.skip(n) =~= tail.skip(n - 1));
        assert(bytes.skip(n) =~= bytes.skip(1).skip(n - 1));
        assert(chars =~= chars.take(n) + chars.skip(n));
        lemma_encode_concat(chars.take(n), chars.skip(n));
        assert(chars.take(n).drop_first() =~= tail.take(n - 1));
        assert(encode_utf8(chars.take(n)) =~= bytes.take(n)) by {
            lemma_first_byte(chars.take(n));
            assert(encode_utf8(chars.take(n)).skip(1) == encode_utf8(tail).take(n - 1));
            assert(encode_utf8(chars.take(n))[0] == bytes[0]);
            assert(encode_utf8(chars.take(n)) =~= seq![bytes[0]] + encode_utf8(
                chars.take(n),
            ).skip(1));
            assert(bytes.take(n) =~= seq![bytes[0]] + bytes.skip(1).take(n - 1));
        }
    }
}

/// An ASCII character of a text is one of the bytes of its encoding.
pub proof fn lemma_ascii_char_has_byte(chars: Seq<char>, j: int)
    requires
        0 <= j < chars.len(),
        chars[j] <= '\u{7f}',
    ensures
        exists|k: int|
            0 <= k < encode_utf8(chars).len() && #[trigger] encode_utf8(chars)[k] == chars[j] as u8,
{
    let head = chars.take(j);
    let tail = chars.skip(j);
    assert(chars =~= head + tail);
    lemma_encode_concat(head, tail);
    lemma_first_byte(tail);
    let k = encode_utf8(head).len() as int;
    assert(encode_utf8(chars)[k] == encode_utf8(tail)[0]);
}

/// Cuts `s` in two before byte `mid`, which must begin a character or be the
/// end of `s`.
pub fn split_at_boundary(s: &str, mid: usize) -> (parts: (&str, &str))
    requires
        mid <= s.spec_bytes().len(),
        mid < s.spec_bytes().len() ==> !is_continuation_byte(s.spec_bytes()[mid as int]),
    ensures
        s@ == parts.0@ + parts.1@,
        parts.0.spec_bytes() == s.spec_bytes().take(mid as int),
        parts.1.spec_bytes() == s.spec_bytes().skip(mid as int),
{
    broadcast use group_utf8_lib;

    let ghost bytes = s.spec_bytes();
    proof {
        if mid < bytes.len() {
            is_char_boundary_iff_not_is_continuation_byte(bytes, mid as int);
        } else {
            is_char_boundary_start_end_of_seq(bytes);
        }
    }
    let parts = s.split_at(mid);
    proof {
        decode_utf8_split(bytes, mid as int);
        assert(decode_utf8(encode_utf8(s@)) == s@);
        assert(decode_utf8(encode_utf8(parts.0@)) == parts.0@);
        assert(decode_utf8(encode_utf8(parts.1@)) == parts.1@);
        assert(bytes.take(mid as int) =~= bytes.subrange(0, mid as int));
        assert(bytes.skip(mid as int) =~= bytes.subrange(mid as int, bytes.len() as int));
    }
    parts
}

/// Cuts `s` after its first `n` bytes, all of which must be ASCII: the first
/// part holds the first `n` characters of `s`, the second the rest.
pub fn split_ascii_prefix(s: &str, n: usize) -> (parts: (&str, &str))
    requires
        n <= s.spec_bytes().len(),
        forall|j: int| 0 <= j < n ==> #[trigger] s.spec_bytes()[j] <= 0x7f,
    ensures
        n <= s@.len(),
        parts.0@ == s@.take(n as int),
        parts.1@ == s@.skip(n as int),
        parts.1.spec_bytes() == s.spec_bytes().skip(n as int),
{
    broadcast use group_utf8_lib;

    let ghost bytes = s.spec_bytes();
    proof {
        lemma_ascii_prefix(s@, n as int);
        if n < bytes.len() {
            lemma_encode_empty(s@.skip(n as int));
            lemma_first_byte(s@.skip(n as int));
            assert(bytes.skip(n as int)[0] == bytes[n as int]);
        }
    }
    let parts = split_at_boundary(s, n);
    proof {
        assert(decode_utf8(encode_utf8(parts.0@)) == parts.0@);
        assert(decode_utf8(encode_utf8(parts.1@)) == parts.1@);
        assert(decode_utf8(encode_utf8(s@.take(n as int))) == s@.take(n as int));
        assert(decode_utf8(encode_utf8(s@.skip(n as int))) == s@.skip(n as int));
    }
    parts
}

} // verus!
