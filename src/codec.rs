//! Text encodings of byte strings: hexadecimal, base64, base32, base58 and
//! JSON string literals.

use vstd::prelude::*;
use crate::text::push_char;
use base64::Engine as _;

verus! {

/// The lowercase hexadecimal digit for `n < 16`.
pub open spec fn hex_digit(n: u8) -> char {
    if n < 10 {
        (48 + n) as char
    } else {
        (87 + n) as char
    }
}

/// Two lowercase hexadecimal digits per byte, high nibble first.
pub open spec fn hex_of(b: Seq<u8>) -> Seq<char>
    decreases b.len(),
{
    if b.len() == 0 {
        Seq::empty()
    } else {
        hex_of(b.drop_last()) + seq![hex_digit(b.last() / 16), hex_digit(b.last() % 16)]
    }
}

/// The character of the standard base64 alphabet for `n < 64`.
pub open spec fn b64_digit(n: int) -> char {
    if n < 26 {
        (65 + n) as char
    } else if n < 52 {
        (71 + n) as char
    } else if n < 62 {
        (n - 4) as char
    } else if n == 62 {
        '+'
    } else {
        '/'
    }
}

/// The standard base64 text of a byte string: four characters for each
/// three bytes, the last group padded with `=`.
pub open spec fn base64_of(b: Seq<u8>) -> Seq<char>
    decreases b.len(),
{
    let x = if b.len() > 0 { b[0] as int } else { 0 };
    let y = if b.len() > 1 { b[1] as int } else { 0 };
    let z = if b.len() > 2 { b[2] as int } else { 0 };
    if b.len() == 0 {
        Seq::empty()
    } else if b.len() == 1 {
        seq![b64_digit(x / 4), b64_digit((x % 4) * 16), '=', '=']
    } else if b.len() == 2 {
        seq![b64_digit(x / 4), b64_digit((x % 4) * 16 + y / 16), b64_digit((y % 16) * 4), '=']
    } else {
        seq![
            b64_digit(x / 4),
            b64_digit((x % 4) * 16 + y / 16),
            b64_digit((y % 16) * 4 + z / 64),
            b64_digit(z % 64),
        ] + base64_of(b.subrange(3, b.len() as int))
    }
}

/// What standard base64 decoding makes of a text: the bytes, or `None`
/// where the text is not base64.
pub uninterp spec fn base64_decoded(s: Seq<char>) -> Option<Seq<u8>>;

/// The character of the RFC 4648 base32 alphabet (`A`-`Z`, `2`-`7`) for `n < 32`.
pub open spec fn b32_digit(n: int) -> char {
    if n < 26 {
        (65 + n) as char
    } else {
        (24 + n) as char
    }
}

/// The eight base32 characters of five bytes, five bits each, high bits first.
pub open spec fn b32_group(x0: int, x1: int, x2: int, x3: int, x4: int) -> Seq<char> {
    seq![
        b32_digit(x0 / 8),
        b32_digit((x0 % 8) * 4 + x1 / 64),
        b32_digit((x1 / 2) % 32),
        b32_digit((x1 % 2) * 16 + x2 / 16),
        b32_digit((x2 % 16) * 2 + x3 / 128),
        b32_digit((x3 / 4) % 32),
        b32_digit((x3 % 4) * 8 + x4 / 32),
        b32_digit(x4 % 32),
    ]
}

/// The RFC 4648 base32 text, without padding, of a byte string: eight
/// characters for each five bytes; a last, shorter group is read as if
/// padded with zero bytes and cut to the characters its bits reach.
pub open spec fn base32_of(b: Seq<u8>) -> Seq<char>
    decreases b.len(),
{
    let x = |i: int| if i < b.len() { b[i] as int } else { 0 };
    if b.len() == 0 {
        Seq::empty()
    } else if b.len() >= 5 {
        b32_group(x(0), x(1), x(2), x(3), x(4)) + base32_of(b.subrange(5, b.len() as int))
    } else {
        b32_group(x(0), x(1), x(2), x(3), x(4)).subrange(0, ((8 * b.len() + 4) / 5) as int)
    }
}

/// The base58 text (Bitcoin alphabet) of a byte string.
pub uninterp spec fn base58_of(b: Seq<u8>) -> Seq<char>;

/// How a JSON string literal writes one character: `"` and `\\` and the
/// control characters with a short form are escaped by a backslash, the
/// other control characters as `\u00` and two lowercase hex digits.
pub open spec fn json_escape_char(c: char) -> Seq<char> {
    let u = c as u32;
    if c == '"' {
        seq!['\\', '"']
    } else if c == '\\' {
        seq!['\\', '\\']
    } else if u == 8 {
        seq!['\\', 'b']
    } else if u == 9 {
        seq!['\\', 't']
    } else if u == 10 {
        seq!['\\', 'n']
    } else if u == 12 {
        seq!['\\', 'f']
    } else if u == 13 {
        seq!['\\', 'r']
    } else if u < 32 {
        seq!['\\', 'u', '0', '0', hex_digit((u / 16) as u8), hex_digit((u % 16) as u8)]
    } else {
        seq![c]
    }
}

/// The characters of `s`, each written as a JSON string literal writes it.
pub open spec fn json_escaped(s: Seq<char>) -> Seq<char>
    decreases s.len(),
{
    if s.len() == 0 {
        Seq::empty()
    } else {
        json_escaped(s.drop_last()) + json_escape_char(s.last())
    }
}

/// The JSON string literal, quotes included, that stands for a text.
pub open spec fn json_quoted(s: Seq<char>) -> Seq<char> {
    seq!['"'] + json_escaped(s) + seq!['"']
}

/// Relies on hex::encode: two lowercase digits per byte, high nibble first.
#[verifier::external_body]
pub(crate) fn hex_encode(b: &[u8]) -> (r: String)
    ensures
        r@ == hex_of(b@),
{
    hex::encode(b)
}

/// Relies on base64's STANDARD engine `encode` (standard alphabet, with
/// padding), whose text `decode` turns back into the same bytes.
#[verifier::external_body]
pub(crate) fn base64_encode(b: &[u8]) -> (r: String)
    ensures
        r@ == base64_of(b@),
        base64_decoded(r@) == Some(b@),
{
    base64::engine::general_purpose::STANDARD.encode(b)
}

/// The bytes held by an optional vector.
pub open spec fn bytes_view(r: Option<Vec<u8>>) -> Option<Seq<u8>> {
    match r {
        Some(v) => Some(v@),
        None => None,
    }
}

/// Relies on base64's STANDARD engine `decode`, which gives back the bytes
/// that `encode` turned into the text.
#[verifier::external_body]
pub(crate) fn base64_decode(s: &str) -> (r: Option<Vec<u8>>)
    ensures
        bytes_view(r) == base64_decoded(s@),
        forall|b: Seq<u8>| #[trigger] base64_of(b) == s@ ==> bytes_view(r) == Some(b),
{
    base64::engine::general_purpose::STANDARD.decode(s).ok()
}

/// Relies on base32::encode with the RFC 4648 alphabet and no padding: one
/// character per five bits, the last one partial.
#[verifier::external_body]
pub(crate) fn base32_encode(b: &[u8]) -> (r: String)
    ensures
        r@ == base32_of(b@),
        r@.len() == (8 * b@.len() + 4) / 5,
{
    base32::encode(base32::Alphabet::RFC4648 { padding: false }, b)
}

/// Relies on bs58::encode(..).into_string().
#[verifier::external_body]
pub(crate) fn base58_encode(b: &[u8]) -> (r: String)
    ensures
        r@ == base58_of(b@),
{
    bs58::encode(b).into_string()
}

/// Relies on serde_json::to_string on a `str`, which cannot fail: the text
/// in double quotes, escaped by serde_json's table of escapes.
#[verifier::external_body]
pub(crate) fn json_quote(s: &str) -> (r: String)
    ensures
        r@ == json_quoted(s@),
{
    serde_json::to_string(s).unwrap_or_default()
}

/// ASCII uppercase letters mapped to lowercase; every other character kept.
pub open spec fn ascii_lower_char(c: char) -> char {
    if 'A' <= c <= 'Z' {
        ((c as u32) + 32) as char
    } else {
        c
    }
}

/// The text with ASCII letters in lowercase.
pub open spec fn ascii_lower(s: Seq<char>) -> Seq<char> {
    s.map_values(|c: char| ascii_lower_char(c))
}

/// Lowercases the ASCII letters of `s`.
pub fn to_ascii_lower(s: &str) -> (r: String)
    ensures
        r@ == ascii_lower(s@),
{
    let n = s.unicode_len();
    let mut out = String::new();
    let mut i: usize = 0;
    while i < n
        invariant
            n == s@.len(),
            i <= n,
            out@ == ascii_lower(s@.subrange(0, i as int)),
        decreases n - i,
    {
        let c = s.get_char(i);
        let d = if 'A' <= c && c <= 'Z' {
            ((c as u32) + 32) as u8 as char
        } else {
            c
        };
        push_char(&mut out, d);
        i = i + 1;
        assert(out@ =~= ascii_lower(s@.subrange(0, i as int)));
    }
    assert(s@.subrange(0, n as int) =~= s@);
    out
}

} // verus!
