//! The grammar of header names, header values and methods, as predicates on
//! text and bytes.

use vstd::prelude::*;
use vstd::utf8::{decode_utf8, encode_utf8};

verus! {

/// A character that may stand in a token: a letter, a digit, or one of
/// ``! # $ % & ' * + - . ^ _ ` | ~``.
pub open spec fn is_token_char(c: char) -> bool {
    ('a' <= c && c <= 'z') || ('A' <= c && c <= 'Z') || ('0' <= c && c <= '9') || c == '!' || c
        == '#' || c == '$' || c == '%' || c == '&' || c == '\'' || c == '*' || c == '+' || c == '-'
        || c == '.' || c == '^' || c == '_' || c == '`' || c == '|' || c == '~'
}

/// The longest header name, in characters.
pub open spec fn max_name_len() -> nat {
    65535
}

/// A header name: between one and `max_name_len()` token characters.
pub open spec fn is_header_name(name: Seq<char>) -> bool {
    &&& 0 < name.len() <= max_name_len()
    &&& forall|i: int| 0 <= i < name.len() ==> is_token_char(#[trigger] name[i])
}

/// The lower-case form of a letter; any other character is left as it is.
pub open spec fn lower_char(c: char) -> char {
    if 'A' <= c && c <= 'Z' {
        ((c as u8) + 32) as char
    } else {
        c
    }
}

/// A header name as it is kept: every letter in lower case.
pub open spec fn lower_name(name: Seq<char>) -> Seq<char> {
    name.map_values(|c: char| lower_char(c))
}

/// A method: one or more token characters. Case is kept.
pub open spec fn is_method(method: Seq<char>) -> bool {
    &&& 0 < method.len()
    &&& forall|i: int| 0 <= i < method.len() ==> is_token_char(#[trigger] method[i])
}

/// A byte that may stand in a header value: a tab, or anything from the
/// space upwards except the delete character.
pub open spec fn is_value_byte(b: u8) -> bool {
    (b >= 32 && b != 127) || b == 9
}

/// A byte that can be written out as text: a tab or a printable ASCII
/// character.
pub open spec fn is_text_byte(b: u8) -> bool {
    (32 <= b && b < 127) || b == 9
}

/// Bytes that form a header value.
pub open spec fn is_header_value(bytes: Seq<u8>) -> bool {
    forall|i: int| 0 <= i < bytes.len() ==> is_value_byte(#[trigger] bytes[i])
}

/// Bytes that can be written out as text.
pub open spec fn is_text(bytes: Seq<u8>) -> bool {
    forall|i: int| 0 <= i < bytes.len() ==> is_text_byte(#[trigger] bytes[i])
}

/// The bytes of a piece of text.
pub open spec fn text_bytes(text: Seq<char>) -> Seq<u8> {
    encode_utf8(text)
}

/// The text that bytes written out as text give.
pub open spec fn bytes_text(bytes: Seq<u8>) -> Seq<char> {
    decode_utf8(bytes)
}

/// The bytes of each of the texts.
pub open spec fn texts_bytes(texts: Seq<Seq<char>>) -> Seq<Seq<u8>> {
    texts.map_values(|text: Seq<char>| text_bytes(text))
}

/// The text that each of the values gives.
pub open spec fn values_text(values: Seq<Seq<u8>>) -> Seq<Seq<char>> {
    values.map_values(|bytes: Seq<u8>| bytes_text(bytes))
}

} // verus!
