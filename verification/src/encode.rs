//! Percent-encoding of a request path for the "register this path" prefill
//! URL of the administrative surface.

use vstd::prelude::*;
use vstd::utf8::encode_utf8;

verus! {

/// Bytes that percent-encoding leaves unchanged: ASCII alphanumerics and
/// `-`, `.`, `_`, `~`.
pub open spec fn url_safe_byte(b: u8) -> bool {
    ||| 48 <= b <= 57  // '0' ..= '9'
    ||| 65 <= b <= 90  // 'A' ..= 'Z'
    ||| 97 <= b <= 122  // 'a' ..= 'z'
    ||| b == 45  // '-'
    ||| b == 46  // '.'
    ||| b == 95  // '_'
    ||| b == 126  // '~'
}

/// The uppercase hexadecimal digit for a value below sixteen.
pub open spec fn hex_digit(d: u8) -> char {
    seq!['0', '1', '2', '3', '4', '5', '6', '7', '8', '9', 'A', 'B', 'C', 'D', 'E', 'F'][d as int]
}

/// How one byte is percent-encoded.
pub open spec fn url_encoded_byte(b: u8) -> Seq<char> {
    if url_safe_byte(b) {
        seq![b as char]
    } else {
        seq!['%', hex_digit(b / 16), hex_digit(b % 16)]
    }
}

/// The percent-encoding of a byte string.
pub open spec fn url_encoded_bytes(bs: Seq<u8>) -> Seq<char>
    decreases bs.len(),
{
    if bs.len() == 0 {
        Seq::empty()
    } else {
        url_encoded_byte(bs[0]) + url_encoded_bytes(bs.drop_first())
    }
}

/// The percent-encoding of a string: its UTF-8 bytes, each encoded.
pub open spec fn url_encoded(s: Seq<char>) -> Seq<char> {
    url_encoded_bytes(encode_utf8(s))
}

/// Relies on urlencoding::encode: percent-encodes every byte of the UTF-8
/// encoding of the input except ASCII alphanumerics and `-`, `.`, `_`, `~`,
/// using `%` followed by two uppercase hexadecimal digits.
#[verifier::external_body]
pub fn url_encode(s: &str) -> (r: String)
    ensures
        r@ == url_encoded(s@),
{
    urlencoding::encode(s).into_owned()
}

} // verus!
