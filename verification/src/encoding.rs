//! How the model over characters relates to the UTF-8 bytes that the
//! executable code scans.
//!
//! A `str` denotes a `Seq<char>`; in memory it is the UTF-8 encoding of that
//! sequence. The lemmas here let a scan over bytes conclude facts about
//! characters: encoding and decoding respect concatenation, an ASCII
//! character is one byte that occurs nowhere inside another character, and
//! a run of bytes that is itself an encoding can only occur at character
//! boundaries.

use crate::text::{is_substring, occurs_at};
use vstd::prelude::*;
use vstd::utf8::*;

verus! {

/// The encoding of a concatenation is the concatenation of the encodings.
pub proof fn lemma_encode_concat(a: Seq<char>, b: Seq<char>)
    ensures
        encode_utf8(a + b) == encode_utf8(a) + encode_utf8(b),
    decreases a.len(),
{
    if a.len() == 0 {
        assert(a + b =~= b);
        assert(encode_utf8(a) + encode_utf8(b) =~= encode_utf8(b));
    } else {
        assert((a + b).drop_first() =~= a.drop_first() + b);
        lemma_encode_concat(a.drop_first(), b);
    }
}

/// Two character sequences with the same encoding are the same sequence.
pub proof fn lemma_encode_injective(a: Seq<char>, b: Seq<char>)
    requires
        encode_utf8(a) == encode_utf8(b),
    ensures
        a == b,
{
    encode_utf8_decode_utf8(a);
    encode_utf8_decode_utf8(b);
}

/// If the encoding of `whole` is the encoding of `left` followed by that of
/// `right`, then `whole` is `left` followed by `right`.
pub proof fn lemma_split_encoding(whole: Seq<char>, left: Seq<char>, right: Seq<char>)
    requires
        encode_utf8(whole) == encode_utf8(left) + encode_utf8(right),
    ensures
        whole == left + right,
{
    lemma_encode_concat(left, right);
    lemma_encode_injective(whole, left + right);
}

/// An ASCII character is encoded as the one byte that is its code.
pub proof fn lemma_encode_ascii(c: char)
    requires
        c <= '\u{7f}',
    ensures
        encode_utf8(seq![c]) == seq![c as u8],
{
    is_ascii_chars_encode_utf8(seq![c]);
}

/// Where a character sequence holds an ASCII character, its encoding holds
/// that character's byte, between the encodings of what precedes and what
/// follows.
pub proof fn lemma_encode_around_ascii(chars: Seq<char>, k: int)
    requires
        0 <= k < chars.len(),
        chars[k] <= '\u{7f}',
    ensures
        encode_utf8(chars) == encode_utf8(chars.subrange(0, k)) + seq![chars[k] as u8]
            + encode_utf8(chars.subrange(k + 1, chars.len() as int)),
{
    let before = chars.subrange(0, k);
    let after = chars.subrange(k + 1, chars.len() as int);
    assert(chars =~= before + seq![chars[k]] + after);
    lemma_encode_concat(before + seq![chars[k]], after);
    lemma_encode_concat(before, seq![chars[k]]);
    lemma_encode_ascii(chars[k]);
}

/// A character sequence whose encoding avoids the byte of an ASCII
/// character does not hold that character.
pub proof fn lemma_absent_byte_absent_char(chars: Seq<char>, c: char)
    requires
        c <= '\u{7f}',
        forall|j: int| 0 <= j < encode_utf8(chars).len() ==> encode_utf8(chars)[j] != c as u8,
    ensures
        forall|k: int| 0 <= k < chars.len() ==> chars[k] != c,
{
    assert forall|k: int| 0 <= k < chars.len() implies chars[k] != c by {
        if chars[k] == c {
            lemma_encode_around_ascii(chars, k);
            let at = encode_utf8(chars.subrange(0, k)).len() as int;
            assert(encode_utf8(chars)[at] == c as u8);
        }
    }
}

/// A character sequence whose encoding is the single byte of an ASCII
/// character is that character alone.
pub proof fn lemma_single_ascii_byte(chars: Seq<char>, c: char)
    requires
        c <= '\u{7f}',
        encode_utf8(chars) == seq![c as u8],
    ensures
        chars == seq![c],
{
    lemma_encode_ascii(c);
    lemma_encode_injective(chars, seq![c]);
}

/// In valid UTF-8, an ASCII byte is a whole character: a character starts
/// at it, and whatever follows it is valid UTF-8 by itself, so the first
/// position of that remainder is a character boundary.
pub proof fn lemma_ascii_byte_boundaries(bytes: Seq<u8>, at: int)
    requires
        valid_utf8(bytes),
        0 <= at < bytes.len(),
        bytes[at] <= 0x7f,
    ensures
        is_char_boundary(bytes, at),
        is_char_boundary(bytes.subrange(at, bytes.len() as int), 1),
{
    is_char_boundary_iff_not_is_continuation_byte(bytes, at);
    valid_utf8_split(bytes, at);
    reveal_with_fuel(is_char_boundary, 2);
}

/// If valid UTF-8 starts with a run of bytes that is valid UTF-8 by itself,
/// then what follows that run is valid UTF-8 too.
pub proof fn lemma_valid_after_valid_prefix(bytes: Seq<u8>, prefix: Seq<u8>)
    requires
        valid_utf8(bytes),
        valid_utf8(prefix),
        prefix.len() <= bytes.len(),
        bytes.subrange(0, prefix.len() as int) == prefix,
    ensures
        valid_utf8(bytes.subrange(prefix.len() as int, bytes.len() as int)),
    decreases prefix.len(),
{
    if prefix.len() == 0 {
        assert(bytes.subrange(0, bytes.len() as int) =~= bytes);
    } else {
        // Both start with the same character, as its width is read off its
        // first byte.
        assert(bytes[0] == bytes.subrange(0, prefix.len() as int)[0]);
        let bytes_rest = pop_first_scalar(bytes);
        let prefix_rest = pop_first_scalar(prefix);
        assert(bytes_rest.subrange(0, prefix_rest.len() as int) =~= prefix_rest);
        lemma_valid_after_valid_prefix(bytes_rest, prefix_rest);
        assert(bytes_rest.subrange(prefix_rest.len() as int, bytes_rest.len() as int)
            =~= bytes.subrange(prefix.len() as int, bytes.len() as int));
    }
}

/// One character sequence occurs in another exactly when its encoding
/// occurs in the other's encoding: an encoding cannot start or end in the
/// middle of a character of the text it is found in.
pub proof fn lemma_substring_of_encoding(needle: Seq<char>, hay: Seq<char>)
    ensures
        is_substring(encode_utf8(needle), encode_utf8(hay)) <==> is_substring(needle, hay),
{
    let n = encode_utf8(needle);
    let h = encode_utf8(hay);
    if is_substring(needle, hay) {
        let at = choose|at: int| occurs_at(needle, hay, at);
        let before = hay.subrange(0, at);
        let after = hay.subrange(at + needle.len(), hay.len() as int);
        assert(hay =~= before + needle + after);
        lemma_encode_concat(before + needle, after);
        lemma_encode_concat(before, needle);
        let start = encode_utf8(before).len() as int;
        assert(h.subrange(start, start + n.len()) =~= n);
        assert(occurs_at(n, h, start));
    }
    if is_substring(n, h) {
        let start = choose|start: int| occurs_at(n, h, start);
        if needle.len() == 0 {
            assert(hay.subrange(0, 0) =~= needle);
            assert(occurs_at(needle, hay, 0));
        } else {
            encode_utf8_valid_utf8(needle);
            encode_utf8_valid_utf8(hay);
            is_char_boundary_iff_not_is_continuation_byte(h, start);
            valid_utf8_split(h, start);
            let left = h.subrange(0, start);
            let tail = h.subrange(start, h.len() as int);
            assert(tail.subrange(0, n.len() as int) =~= n);
            lemma_valid_after_valid_prefix(tail, n);
            let right = tail.subrange(n.len() as int, tail.len() as int);
            let before = decode_utf8(left);
            let after = decode_utf8(right);
            decode_utf8_encode_utf8(left);
            decode_utf8_encode_utf8(right);
            assert(h =~= left + n + right);
            lemma_encode_concat(before + needle, after);
            lemma_encode_concat(before, needle);
            lemma_encode_injective(hay, before + needle + after);
            assert(hay.subrange(before.len() as int, (before.len() + needle.len()) as int)
                =~= needle);
            assert(occurs_at(needle, hay, before.len() as int));
        }
    }
}

} // verus!
