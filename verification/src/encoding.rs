use vstd::prelude::*;
use vstd::utf8::*;

verus! {

/// The encoding of a text in two parts is the encoding of the first part
/// followed by that of the second.
pub proof fn lemma_encode_concat(a: Seq<char>, b: Seq<char>)
    ensures
        encode_utf8(a + b) == encode_utf8(a) + encode_utf8(b),
    decreases a.len(),
{
    if a.len() == 0 {
        assert(a + b =~= b);
        assert(encode_utf8(a) + encode_utf8(b) =~= encode_utf8(b));
    } else {
        lemma_encode_concat(a.drop_first(), b);
        assert((a + b).drop_first() =~= a.drop_first() + b);
        assert(encode_utf8(a + b) =~= encode_utf8(a) + encode_utf8(b));
    }
}

/// A text of one character is encoded as that character is.
pub proof fn lemma_encode_one(c: char)
    ensures
        encode_utf8(seq![c]) == encode_scalar(c as u32),
{
    reveal_with_fuel(encode_utf8, 2);
    assert(seq![c].drop_first() =~= Seq::<char>::empty());
    assert(encode_utf8(seq![c]) =~= encode_scalar(c as u32));
}

/// An ASCII character is encoded as the one byte of its code. Every other
/// character is encoded in two to four bytes, none of which is an ASCII
/// byte.
pub proof fn lemma_scalar_bytes(c: char)
    ensures
        1 <= encode_scalar(c as u32).len() <= 4,
        c as u32 <= 0x7f ==> encode_scalar(c as u32) == seq![c as u8],
        c as u32 > 0x7f ==> forall|j: int|
            0 <= j < encode_scalar(c as u32).len() ==> #[trigger] encode_scalar(c as u32)[j]
                >= 0x80,
{
    let e = encode_scalar(c as u32);
    lemma_encode_one(c);
    char_is_scalar(c);
    encode_utf8_first_scalar(seq![c]);
    if c as u32 <= 0x7f {
        is_ascii_chars_encode_utf8(seq![c]);
        assert(e =~= seq![c as u8]);
    } else {
        assert(length_of_first_codepoint(e) == e.len());
        assert(valid_leading_and_continuation_bytes_first_codepoint(e));
    }
}

/// The byte of an ASCII character is that of a carriage return or a line
/// feed exactly when the character is one.
pub proof fn lemma_ascii_terminators(c: char)
    requires
        c as u32 <= 0x7f,
    ensures
        c as u8 == 0x0Du8 <==> c == '\r',
        c as u8 == 0x0Au8 <==> c == '\n',
{
}

/// The offset at which the encoding of the character `k` of `text` starts
/// in the encoding of `text`.
pub open spec fn offset_of(text: Seq<char>, k: int) -> int {
    encode_utf8(text.take(k)).len() as int
}

/// The encoding of a text holds the encoding of each of its characters, one
/// after the other.
pub proof fn lemma_scalar_in_bytes(text: Seq<char>, k: int)
    requires
        0 <= k < text.len(),
    ensures
        0 <= offset_of(text, k),
        offset_of(text, k + 1) == offset_of(text, k) + encode_scalar(text[k] as u32).len(),
        offset_of(text, k + 1) <= encode_utf8(text).len(),
        encode_utf8(text).subrange(offset_of(text, k), offset_of(text, k + 1)) == encode_scalar(
            text[k] as u32,
        ),
{
    let head = text.take(k);
    let tail = text.skip(k + 1);
    let e = encode_scalar(text[k] as u32);
    lemma_encode_one(text[k]);
    lemma_encode_concat(head, seq![text[k]]);
    assert(text.take(k + 1) =~= head + seq![text[k]]);
    lemma_encode_concat(text.take(k + 1), tail);
    assert(text =~= text.take(k + 1) + tail);
    assert(encode_utf8(text).subrange(offset_of(text, k), offset_of(text, k + 1)) =~= e);
}

/// The two terminators are encoded as the bytes that stand for them.
pub proof fn lemma_terminator_bytes()
    ensures
        encode_utf8("\r\n"@) == seq![0x0Du8, 0x0Au8],
        encode_utf8("\n"@) == seq![0x0Au8],
{
    reveal_strlit("\r\n");
    reveal_strlit("\n");
    is_ascii_chars_encode_utf8("\r\n"@);
    is_ascii_chars_encode_utf8("\n"@);
    assert(encode_utf8("\r\n"@) =~= seq![0x0Du8, 0x0Au8]);
    assert(encode_utf8("\n"@) =~= seq![0x0Au8]);
}

/// An ASCII byte of a UTF-8 text starts a character.
pub proof fn lemma_ascii_is_boundary(bytes: Seq<u8>, i: int)
    requires
        valid_utf8(bytes),
        0 <= i < bytes.len(),
        bytes[i] <= 0x7f,
    ensures
        is_char_boundary(bytes, i),
{
    is_char_boundary_iff_not_is_continuation_byte(bytes, i);
}

/// After one or two leading ASCII bytes of a UTF-8 text a character starts.
pub proof fn lemma_boundary_after_ascii(bytes: Seq<u8>, width: int)
    requires
        valid_utf8(bytes),
        1 <= width <= 2,
        width <= bytes.len(),
        forall|k: int| 0 <= k < width ==> bytes[k] <= 0x7f,
    ensures
        is_char_boundary(bytes, width),
{
    reveal_with_fuel(is_char_boundary, 3);
    reveal_with_fuel(valid_utf8, 3);
    let rest = pop_first_scalar(bytes);
    assert(rest =~= bytes.subrange(1, bytes.len() as int));
    if width == 2 {
        assert(rest[0] == bytes[1]);
        assert(pop_first_scalar(rest) =~= rest.subrange(1, rest.len() as int));
    }
}

} // verus!
