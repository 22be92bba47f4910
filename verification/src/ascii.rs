//! ASCII text: the bytes of ASCII strings, strings of ASCII bytes, and
//! numbers written in decimal.

use crate::decimal::{
    decimal_digits, is_digit, lemma_decimal_digits, push_decimal, push_signed_decimal,
    signed_decimal,
};
use vstd::prelude::*;
use vstd::string::*;
use vstd::utf8::{
    decode_utf8, encode_utf8, encode_utf8_decode_utf8, encode_utf8_valid_utf8, is_ascii_chars,
    is_ascii_chars_encode_utf8, valid_utf8,
};

verus! {

/// The bytes of a text of ASCII characters, one byte for each.
pub open spec fn ascii(text: Seq<char>) -> Seq<u8> {
    Seq::new(text.len(), |i: int| text[i] as u8)
}

/// `v` in decimal, as text.
pub open spec fn decimal_text(v: int) -> Seq<char> {
    ascii_text(signed_decimal(v))
}

/// Calls `String::from_utf8` on a copy of `bytes`. Trusted: it succeeds
/// exactly on valid UTF-8, and the string then holds the characters that
/// the bytes encode.
#[verifier::external_body]
pub(crate) fn string_from_utf8(bytes: &[u8]) -> (text: Option<String>)
    ensures
        text is Some <==> valid_utf8(bytes@),
        text matches Some(s) ==> s@ == decode_utf8(bytes@),
{
    String::from_utf8(bytes.to_vec()).ok()
}

/// Every byte is an ASCII code.
pub open spec fn is_ascii_bytes(bytes: Seq<u8>) -> bool {
    forall|i: int| 0 <= i < bytes.len() ==> #[trigger] bytes[i] < 128
}

/// The text of ASCII bytes, one character for each.
pub open spec fn ascii_text(bytes: Seq<u8>) -> Seq<char> {
    Seq::new(bytes.len(), |i: int| bytes[i] as char)
}

/// ASCII bytes are valid UTF-8 and decode to one character for each byte.
pub proof fn lemma_ascii_text(bytes: Seq<u8>)
    requires
        is_ascii_bytes(bytes),
    ensures
        valid_utf8(bytes),
        decode_utf8(bytes) == ascii_text(bytes),
{
    let chars = ascii_text(bytes);
    assert(is_ascii_chars(chars)) by {
        assert forall|i: int| 0 <= i < chars.len() implies '\0' <= #[trigger] chars[i]
            <= '\u{7f}' by {
            assert(bytes[i] < 128);
        }
    }
    is_ascii_chars_encode_utf8(chars);
    assert(encode_utf8(chars) =~= bytes) by {
        assert forall|i: int| 0 <= i < bytes.len() implies encode_utf8(chars)[i] == bytes[i] by {
            assert(chars[i] as u8 == encode_utf8(chars)[i]);
            assert(bytes[i] < 128);
        }
    }
    encode_utf8_valid_utf8(chars);
    encode_utf8_decode_utf8(chars);
}

/// The string of ASCII bytes.
pub(crate) fn ascii_string(bytes: &[u8]) -> (text: String)
    requires
        is_ascii_bytes(bytes@),
    ensures
        text@ == ascii_text(bytes@),
{
    proof {
        lemma_ascii_text(bytes@);
    }
    match string_from_utf8(bytes) {
        Some(text) => text,
        None => String::new(),
    }
}

/// The bytes of an ASCII string literal.
pub(crate) fn ascii_bytes(text: &'static str) -> (bytes: &'static [u8])
    requires
        text.is_ascii(),
    ensures
        bytes@ == ascii(text@),
{
    proof {
        is_ascii_spec_bytes(text);
    }
    let bytes = text.as_bytes();
    assert(bytes@ =~= ascii(text@));
    bytes
}

/// The decimal text of `n`.
pub fn unsigned_string(n: u64) -> (text: String)
    ensures
        text@ == decimal_text(n as int),
{
    let mut bytes: Vec<u8> = Vec::new();
    push_decimal(&mut bytes, n);
    proof {
        lemma_decimal_digits(n as nat);
        assert(bytes@ =~= signed_decimal(n as int));
        assert forall|i: int| 0 <= i < bytes@.len() implies #[trigger] bytes@[i] < 128 by {
            assert(is_digit(decimal_digits(n as nat)[i]));
        }
    }
    ascii_string(bytes.as_slice())
}

/// The decimal text of `v`, with a minus sign when it is negative.
pub fn signed_string(v: i64) -> (text: String)
    ensures
        text@ == decimal_text(v as int),
{
    let mut bytes: Vec<u8> = Vec::new();
    push_signed_decimal(&mut bytes, v);
    proof {
        assert(bytes@ =~= signed_decimal(v as int));
        if v < 0 {
            lemma_decimal_digits((-v) as nat);
            assert forall|i: int| 0 <= i < bytes@.len() implies #[trigger] bytes@[i] < 128 by {
                if i > 0 {
                    assert(bytes@[i] == decimal_digits((-v) as nat)[i - 1]);
                    assert(is_digit(decimal_digits((-v) as nat)[i - 1]));
                }
            }
        } else {
            lemma_decimal_digits(v as nat);
            assert forall|i: int| 0 <= i < bytes@.len() implies #[trigger] bytes@[i] < 128 by {
                assert(is_digit(decimal_digits(v as nat)[i]));
            }
        }
    }
    ascii_string(bytes.as_slice())
}

} // verus!
