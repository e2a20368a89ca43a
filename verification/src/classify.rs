//! Character classes of the language, and byte offsets of characters in UTF-8 text.

use vstd::prelude::*;
use vstd::utf8::{
    encode_scalar, encode_utf8, encode_utf8_first_scalar, encode_utf8_valid_utf8, is_char_boundary,
    pop_first_scalar,
};

verus! {

/// Whether `c` has the Unicode property `Alphabetic`, as `char::is_alphabetic` decides it.
pub uninterp spec fn unicode_alphabetic(c: char) -> bool;

/// Whether `c` is alphabetic or numeric in Unicode, as `char::is_alphanumeric` decides it.
pub uninterp spec fn unicode_alphanumeric(c: char) -> bool;

/// Whether `c` has the Unicode property `White_Space`, as `char::is_whitespace` decides it.
pub uninterp spec fn unicode_whitespace(c: char) -> bool;

/// `char::is_alphabetic` is a function of the character alone; its result is
/// named `unicode_alphabetic`, and nothing more is claimed of it.
pub assume_specification[ char::is_alphabetic ](c: char) -> (b: bool)
    ensures
        b == unicode_alphabetic(c),
;

/// `char::is_alphanumeric` is a function of the character alone; its result is
/// named `unicode_alphanumeric`, and nothing more is claimed of it.
pub assume_specification[ char::is_alphanumeric ](c: char) -> (b: bool)
    ensures
        b == unicode_alphanumeric(c),
;

/// `char::is_whitespace` is a function of the character alone; its result is
/// named `unicode_whitespace`, and nothing more is claimed of it.
pub assume_specification[ char::is_whitespace ](c: char) -> (b: bool)
    ensures
        b == unicode_whitespace(c),
;

/// The decimal digits `0` to `9`.
pub open spec fn is_digit(c: char) -> bool {
    '0' <= c && c <= '9'
}

/// The number a decimal digit stands for.
pub open spec fn digit_value(c: char) -> nat
    recommends
        is_digit(c),
{
    (c as u32 - '0' as u32) as nat
}

/// A character that may open an identifier: alphabetic, or the underscore.
pub open spec fn is_ident_start(c: char) -> bool {
    unicode_alphabetic(c) || c == '_'
}

/// A character that may continue an identifier: alphanumeric, or the underscore.
pub open spec fn is_ident_continue(c: char) -> bool {
    unicode_alphanumeric(c) || c == '_'
}

/// A name that can be an identifier: not empty, and opened by an alphabetic
/// character or an underscore, never by a digit.
pub open spec fn is_identifier_name(name: Seq<char>) -> bool {
    name.len() > 0 && is_ident_start(name[0]) && !is_digit(name[0])
}

/// The number of bytes that `c` takes in UTF-8.
pub open spec fn utf8_width(c: char) -> nat {
    if c as u32 <= 0x7F {
        1
    } else if c as u32 <= 0x7FF {
        2
    } else if c as u32 <= 0xFFFF {
        3
    } else {
        4
    }
}

/// The byte offset at which the character of index `i` starts when `text` is
/// written in UTF-8: the widths of the characters before it, added up.
pub open spec fn byte_offset(text: Seq<char>, i: int) -> nat
    decreases i,
{
    if i <= 0 {
        0
    } else {
        byte_offset(text, i - 1) + utf8_width(text[i - 1])
    }
}

/// Decides `is_digit`.
pub fn decimal_digit(c: char) -> (b: bool)
    ensures
        b == is_digit(c),
{
    '0' <= c && c <= '9'
}

/// The value of a decimal digit.
pub fn decimal_value(c: char) -> (v: u8)
    requires
        is_digit(c),
    ensures
        v == digit_value(c),
        v <= 9,
{
    (c as u32 - '0' as u32) as u8
}

/// Decides `is_ident_start`.
pub fn ident_start(c: char) -> (b: bool)
    ensures
        b == is_ident_start(c),
{
    c.is_alphabetic() || c == '_'
}

/// Decides `is_ident_continue`.
pub fn ident_continue(c: char) -> (b: bool)
    ensures
        b == is_ident_continue(c),
{
    c.is_alphanumeric() || c == '_'
}

/// Decides `unicode_whitespace`.
pub fn whitespace(c: char) -> (b: bool)
    ensures
        b == unicode_whitespace(c),
{
    c.is_whitespace()
}

/// Computes `utf8_width`.
pub fn char_width(c: char) -> (w: usize)
    ensures
        w == utf8_width(c),
        1 <= w <= 4,
{
    let code: u32 = c as u32;
    if code <= 0x7F {
        1
    } else if code <= 0x7FF {
        2
    } else if code <= 0xFFFF {
        3
    } else {
        4
    }
}

/// The width of a character is the length of its UTF-8 encoding.
pub proof fn lemma_width_is_encoded_length(c: char)
    ensures
        encode_scalar(c as u32).len() == utf8_width(c),
{
}

/// Byte offsets grow strictly with the character index.
pub proof fn lemma_byte_offset_grows(text: Seq<char>, i: int, j: int)
    requires
        0 <= i <= j <= text.len(),
    ensures
        byte_offset(text, i) + (j - i) <= byte_offset(text, j),
    decreases j - i,
{
    if i < j {
        lemma_byte_offset_grows(text, i, j - 1);
    }
}

/// Offsets in a text that lost its first character are offsets of the whole
/// text, less that character's width.
pub proof fn lemma_byte_offset_drop_first(text: Seq<char>, i: int)
    requires
        1 <= i <= text.len(),
    ensures
        byte_offset(text, i) == utf8_width(text[0]) + byte_offset(text.drop_first(), i - 1),
    decreases i,
{
    if i > 1 {
        lemma_byte_offset_drop_first(text, i - 1);
        assert(text.drop_first()[i - 2] == text[i - 1]);
    } else {
        assert(byte_offset(text, 0) == 0);
        assert(byte_offset(text.drop_first(), 0) == 0);
    }
}

/// The offset past the last character is the length of the text's UTF-8 encoding.
pub proof fn lemma_byte_offset_of_end(text: Seq<char>)
    ensures
        byte_offset(text, text.len() as int) == encode_utf8(text).len(),
    decreases text.len(),
{
    if text.len() > 0 {
        lemma_width_is_encoded_length(text[0]);
        lemma_byte_offset_drop_first(text, text.len() as int);
        lemma_byte_offset_of_end(text.drop_first());
    }
}

/// The offset of a position depends only on the characters before it.
pub proof fn lemma_byte_offset_of_prefix(text: Seq<char>, n: int, i: int)
    requires
        0 <= i <= n <= text.len(),
    ensures
        byte_offset(text.take(n), i) == byte_offset(text, i),
    decreases i,
{
    if i > 0 {
        lemma_byte_offset_of_prefix(text, n, i - 1);
    }
}

/// The encoding of two texts put together is their encodings put together.
pub proof fn lemma_encoding_of_concat(a: Seq<char>, b: Seq<char>)
    ensures
        encode_utf8(a + b) == encode_utf8(a) + encode_utf8(b),
    decreases a.len(),
{
    if a.len() == 0 {
        assert(a + b =~= b);
        assert(encode_utf8(a) + encode_utf8(b) =~= encode_utf8(b));
    } else {
        assert((a + b).drop_first() =~= a.drop_first() + b);
        lemma_encoding_of_concat(a.drop_first(), b);
        assert(encode_utf8(a + b) =~= encode_utf8(a) + encode_utf8(b));
    }
}

/// The bytes between the offsets of two positions are the UTF-8 encoding of
/// the characters between the positions.
pub proof fn lemma_bytes_between_offsets(text: Seq<char>, i: int, j: int)
    requires
        0 <= i <= j <= text.len(),
    ensures
        byte_offset(text, i) <= byte_offset(text, j) <= encode_utf8(text).len(),
        encode_utf8(text).subrange(byte_offset(text, i) as int, byte_offset(text, j) as int)
            == encode_utf8(text.subrange(i, j)),
{
    let head = text.take(i);
    let body = text.subrange(i, j);
    let tail = text.skip(j);
    assert(text.take(j) =~= head + body);
    assert(text =~= text.take(j) + tail);
    lemma_encoding_of_concat(head, body);
    lemma_encoding_of_concat(text.take(j), tail);
    lemma_byte_offset_of_prefix(text, i, i);
    lemma_byte_offset_of_prefix(text, j, j);
    lemma_byte_offset_of_end(head);
    lemma_byte_offset_of_end(text.take(j));
    assert(encode_utf8(text).subrange(byte_offset(text, i) as int, byte_offset(text, j) as int)
        =~= encode_utf8(body));
}

/// The offset of every position is a character boundary of the encoded text.
pub proof fn lemma_byte_offset_is_char_boundary(text: Seq<char>, i: int)
    requires
        0 <= i <= text.len(),
    ensures
        is_char_boundary(encode_utf8(text), byte_offset(text, i) as int),
    decreases i,
{
    let bytes = encode_utf8(text);
    encode_utf8_valid_utf8(text);
    if i > 0 {
        let rest = text.drop_first();
        lemma_byte_offset_drop_first(text, i);
        lemma_width_is_encoded_length(text[0]);
        lemma_byte_offset_grows(text, i, text.len() as int);
        lemma_byte_offset_of_end(text);
        encode_utf8_first_scalar(text);
        assert(pop_first_scalar(bytes) =~= encode_utf8(rest));
        lemma_byte_offset_is_char_boundary(rest, i - 1);
    }
}

} // verus!
