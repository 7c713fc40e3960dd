//! How character offsets into a text relate to byte offsets into its UTF-8
//! encoding, and how to cut a text at such offsets in constant time.

use vstd::prelude::*;
use vstd::utf8::{
    encode_scalar, encode_utf8, encode_utf8_decode_utf8, encode_utf8_first_scalar,
    encode_utf8_valid_utf8, is_char_boundary, pop_first_scalar,
};

verus! {

/// The number of bytes that encode `c`.
pub open spec fn encoded_width(c: char) -> nat {
    encode_scalar(c as u32).len()
}

/// The byte offset at which the character at offset `index` begins: the
/// length of the encoding of the `index` characters before it.
pub open spec fn byte_offset(chars: Seq<char>, index: int) -> nat {
    encode_utf8(chars.take(index)).len()
}

/// The encoding of a text is the encoding of its parts, one after the other.
pub proof fn lemma_encode_concat(a: Seq<char>, b: Seq<char>)
    ensures
        encode_utf8(a + b) == encode_utf8(a) + encode_utf8(b),
    decreases a.len(),
{
    if a.len() > 0 {
        lemma_encode_concat(a.drop_first(), b);
        assert((a + b).drop_first() =~= a.drop_first() + b);
    }
}

/// A text has no more characters than its encoding has bytes.
pub proof fn lemma_encode_length(chars: Seq<char>)
    ensures
        chars.len() <= encode_utf8(chars).len(),
    decreases chars.len(),
{
    if chars.len() > 0 {
        lemma_encode_length(chars.drop_first());
    }
}

/// Two texts with the same encoding are the same text.
pub proof fn lemma_encode_injective(a: Seq<char>, b: Seq<char>)
    requires
        encode_utf8(a) == encode_utf8(b),
    ensures
        a == b,
{
    encode_utf8_decode_utf8(a);
    encode_utf8_decode_utf8(b);
}

/// The end of the encoding of a prefix is a character boundary of the
/// encoding of the whole.
pub proof fn lemma_boundary_after_prefix(a: Seq<char>, b: Seq<char>)
    ensures
        is_char_boundary(encode_utf8(a + b), encode_utf8(a).len() as int),
    decreases a.len(),
{
    let bytes = encode_utf8(a + b);
    encode_utf8_valid_utf8(a + b);
    if a.len() > 0 {
        let rest = a.drop_first();
        assert((a + b).drop_first() =~= rest + b);
        encode_utf8_first_scalar(a + b);
        assert(pop_first_scalar(bytes) =~= encode_utf8(rest + b));
        lemma_boundary_after_prefix(rest, b);
    }
}

/// Cutting a text at a character offset cuts its encoding at the byte offset
/// of that character, which is a character boundary.
pub proof fn lemma_byte_offset_splits(chars: Seq<char>, index: int)
    requires
        0 <= index <= chars.len(),
    ensures
        byte_offset(chars, index) <= encode_utf8(chars).len(),
        is_char_boundary(encode_utf8(chars), byte_offset(chars, index) as int),
        encode_utf8(chars).subrange(0, byte_offset(chars, index) as int) == encode_utf8(
            chars.take(index),
        ),
        encode_utf8(chars).subrange(
            byte_offset(chars, index) as int,
            encode_utf8(chars).len() as int,
        ) == encode_utf8(chars.skip(index)),
{
    let head = chars.take(index);
    let tail = chars.skip(index);
    assert(head + tail =~= chars);
    lemma_encode_concat(head, tail);
    lemma_boundary_after_prefix(head, tail);
    assert(encode_utf8(chars).subrange(
        byte_offset(chars, index) as int,
        encode_utf8(chars).len() as int,
    ) =~= encode_utf8(tail));
}

/// The byte offset of a character grows with its character offset, by the
/// width of each character passed.
pub proof fn lemma_byte_offset_step(chars: Seq<char>, index: int)
    requires
        0 <= index < chars.len(),
    ensures
        byte_offset(chars, index + 1) == byte_offset(chars, index) + encoded_width(chars[index]),
        byte_offset(chars, index + 1) <= encode_utf8(chars).len(),
{
    let one = seq![chars[index]];
    assert(chars.take(index + 1) =~= chars.take(index) + one);
    lemma_encode_concat(chars.take(index), one);
    assert(encode_utf8(one) =~= encode_scalar(chars[index] as u32)) by {
        reveal_with_fuel(encode_utf8, 2);
    }
    lemma_byte_offset_splits(chars, index + 1);
}

/// The number of bytes that encode `c`.
pub(crate) fn utf8_width(c: char) -> (width: usize)
    ensures
        width == encoded_width(c),
        1 <= width <= 4,
{
    if c <= '\u{7f}' {
        1
    } else if c <= '\u{7ff}' {
        2
    } else if c <= '\u{ffff}' {
        3
    } else {
        4
    }
}

/// The part of `text` that begins at byte offset `offset`, where the
/// character at offset `index` begins.
pub(crate) fn text_from<'a>(text: &'a str, offset: usize, Ghost(index): Ghost<int>) -> (rest:
    &'a str)
    requires
        0 <= index <= text@.len(),
        offset == byte_offset(text@, index),
    ensures
        rest@ == text@.skip(index),
{
    proof {
        lemma_byte_offset_splits(text@, index);
    }
    let (_, rest) = text.split_at(offset);
    proof {
        lemma_encode_injective(rest@, text@.skip(index));
    }
    rest
}

/// The part of `text` that ends before byte offset `offset`, where the
/// character at offset `index` begins.
pub(crate) fn text_until<'a>(text: &'a str, offset: usize, Ghost(index): Ghost<int>) -> (head:
    &'a str)
    requires
        0 <= index <= text@.len(),
        offset == byte_offset(text@, index),
    ensures
        head@ == text@.take(index),
{
    proof {
        lemma_byte_offset_splits(text@, index);
    }
    let (head, _) = text.split_at(offset);
    proof {
        lemma_encode_injective(head@, text@.take(index));
    }
    head
}

} // verus!
