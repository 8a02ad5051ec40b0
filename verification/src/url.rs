//! Percent-encoding of URL components.
use vstd::prelude::*;
use vstd::utf8::{decode_utf8, encode_utf8, valid_utf8};

verus! {

/// Bytes that stand for themselves: letters, digits and `-`, `_`, `.`, `~`.
pub open spec fn unreserved(b: u8) -> bool {
    ||| '0' as u8 <= b <= '9' as u8
    ||| 'A' as u8 <= b <= 'Z' as u8
    ||| 'a' as u8 <= b <= 'z' as u8
    ||| b == '-' as u8
    ||| b == '_' as u8
    ||| b == '.' as u8
    ||| b == '~' as u8
}

pub open spec fn upper_hex_digit(d: int) -> char {
    if d < 10 {
        ('0' as int + d) as char
    } else {
        ('A' as int + d - 10) as char
    }
}

/// A byte that does not stand for itself is written as a percent sign and two
/// hexadecimal digits in upper case.
pub open spec fn encoded_byte(b: u8) -> Seq<char> {
    if unreserved(b) {
        seq![b as char]
    } else {
        seq!['%', upper_hex_digit(b as int / 16), upper_hex_digit(b as int % 16)]
    }
}

pub open spec fn encoded_bytes(bytes: Seq<u8>) -> Seq<char>
    decreases bytes.len(),
{
    if bytes.len() == 0 {
        Seq::empty()
    } else {
        encoded_byte(bytes.first()) + encoded_bytes(bytes.drop_first())
    }
}

/// The percent-encoding of a text in UTF-8.
pub open spec fn url_encoded(s: Seq<char>) -> Seq<char> {
    encoded_bytes(encode_utf8(s))
}

pub open spec fn hex_value(b: u8) -> Option<int> {
    if '0' as u8 <= b <= '9' as u8 {
        Some(b - '0' as u8)
    } else if 'A' as u8 <= b <= 'F' as u8 {
        Some(b - 'A' as u8 + 10)
    } else if 'a' as u8 <= b <= 'f' as u8 {
        Some(b - 'a' as u8 + 10)
    } else {
        None
    }
}

/// A percent sign and two hexadecimal digits stand for a byte; every other byte
/// stands for itself.
pub open spec fn decoded_bytes(bytes: Seq<u8>) -> Seq<u8>
    decreases bytes.len(),
{
    if bytes.len() == 0 {
        Seq::empty()
    } else if bytes.len() >= 3 && bytes[0] == '%' as u8 && hex_value(bytes[1]) is Some && hex_value(
        bytes[2],
    ) is Some {
        seq![(hex_value(bytes[1])->0 * 16 + hex_value(bytes[2])->0) as u8] + decoded_bytes(
            bytes.skip(3),
        )
    } else {
        seq![bytes[0]] + decoded_bytes(bytes.drop_first())
    }
}

/// The text of a percent-encoding, where its bytes are one in UTF-8.
pub open spec fn url_decoded(s: Seq<char>) -> Option<Seq<char>> {
    let bytes = decoded_bytes(encode_utf8(s));
    if valid_utf8(bytes) {
        Some(decode_utf8(bytes))
    } else {
        None
    }
}

/// `urlencoding::encode`: every byte of the UTF-8 text but letters, digits and
/// `-`, `_`, `.`, `~` becomes a percent sign and two hexadecimal digits.
#[verifier::external_body]
pub(crate) fn url_encode(s: &str) -> (r: String)
    ensures
        r@ == url_encoded(s@),
{
    urlencoding::encode(s).into_owned()
}

/// `urlencoding::decode`: each percent sign with two hexadecimal digits after it
/// becomes a byte, everything else is kept, and the bytes are read as UTF-8.
#[verifier::external_body]
pub(crate) fn url_decode(s: &str) -> (r: Option<String>)
    ensures
        match r {
            Some(t) => url_decoded(s@) == Some(t@),
            None => url_decoded(s@) is None,
        },
{
    urlencoding::decode(s).ok().map(|t| t.into_owned())
}

proof fn lemma_hex_digits(d: int)
    requires
        0 <= d < 16,
    ensures
        (upper_hex_digit(d) as u32) < 128,
        hex_value(upper_hex_digit(d) as u8) == Some(d),
        upper_hex_digit(d) != ':',
{
}

/// A percent-encoding is ASCII, has no colon, and its bytes decode to those that
/// were encoded.
proof fn lemma_encoded_bytes(bytes: Seq<u8>)
    ensures
        vstd::utf8::is_ascii_chars(encoded_bytes(bytes)),
        !encoded_bytes(bytes).contains(':'),
        decoded_bytes(encode_utf8(encoded_bytes(bytes))) == bytes,
    decreases bytes.len(),
{
    let text = encoded_bytes(bytes);
    if bytes.len() == 0 {
        assert(encode_utf8(text) =~= Seq::empty());
        assert(decoded_bytes(encode_utf8(text)) =~= bytes);
    } else {
        let b = bytes.first();
        let rest = bytes.drop_first();
        lemma_encoded_bytes(rest);
        let head = encoded_byte(b);
        let tail = encoded_bytes(rest);
        assert(text == head + tail);
        lemma_hex_digits(b as int / 16);
        lemma_hex_digits(b as int % 16);
        assert forall|i: int| 0 <= i < text.len() implies (text[i] as u32) < 128 && text[i] != ':' by {
            if i >= head.len() {
                assert(text[i] == tail[i - head.len()]);
                assert(tail.contains(tail[i - head.len()]));
                assert(vstd::utf8::is_ascii_chars(tail));
            }
        }
        vstd::utf8::is_ascii_chars_encode_utf8(text);
        vstd::utf8::is_ascii_chars_encode_utf8(tail);
        let raw = encode_utf8(text);
        assert(raw.len() == text.len());
        assert forall|i: int| 0 <= i < text.len() implies raw[i] == text[i] as u8 by {}
        if unreserved(b) {
            assert(raw.drop_first() =~= encode_utf8(tail));
            assert(raw[0] == b);
        } else {
            assert(raw.skip(3) =~= encode_utf8(tail));
            assert(raw[0] == '%' as u8);
            assert(raw[1] == upper_hex_digit(b as int / 16) as u8);
            assert(raw[2] == upper_hex_digit(b as int % 16) as u8);
        }
        assert(seq![b] + rest =~= bytes);
    }
}

/// Decoding gives back every text that was encoded.
pub proof fn encoding_decodes_back(s: Seq<char>)
    ensures
        url_decoded(url_encoded(s)) == Some(s),
        !url_encoded(s).contains(':'),
{
    lemma_encoded_bytes(encode_utf8(s));
    vstd::utf8::encode_utf8_valid_utf8(s);
    vstd::utf8::encode_utf8_decode_utf8(s);
}

} // verus!
