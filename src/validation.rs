//! Input validation and sanitisation of untrusted text.

use vstd::prelude::*;
use vstd::string::*;
use crate::text::{contains_byte, has_byte, owned, push_char, chars_of};

verus! {

/// The error result carrying `msg`.
pub open spec fn is_err_with(r: Result<(), String>, msg: Seq<char>) -> bool {
    r matches Err(e) && e@ == msg
}

/// Checks that an e-mail address is present, at most 254 bytes long, and
/// holds both an `@` and a `.`.
pub fn validate_email(email: &str) -> (r: Result<(), String>)
    ensures
        email@.len() == 0 ==> is_err_with(r, "Email is required"@),
        email@.len() > 0 && email.spec_bytes().len() > 254 ==> is_err_with(r, "Email too long"@),
        email@.len() > 0 && email.spec_bytes().len() <= 254 && !(has_byte(email.spec_bytes(), 64)
            && has_byte(email.spec_bytes(), 46)) ==> is_err_with(r, "Invalid email format"@),
        r is Ok <==> (email@.len() > 0 && email.spec_bytes().len() <= 254 && has_byte(
            email.spec_bytes(),
            64,
        ) && has_byte(email.spec_bytes(), 46)),
{
    if email.is_empty() {
        return Err(owned("Email is required"));
    }
    let bytes = email.as_bytes();
    if bytes.len() > 254 {
        return Err(owned("Email too long"));
    }
    if !contains_byte(bytes, 64) || !contains_byte(bytes, 46) {
        return Err(owned("Invalid email format"));
    }
    Ok(())
}

/// The byte positions at which a UUID holds a dash.
pub open spec fn uuid_dash_at(i: int) -> bool {
    i == 8 || i == 13 || i == 18 || i == 23
}

/// 36 bytes, split by dashes into groups of 8, 4, 4, 4 and 12.
pub open spec fn uuid_shaped(b: Seq<u8>) -> bool {
    b.len() == 36 && forall|i: int| 0 <= i < 36 ==> (b[i] == 45u8 <==> uuid_dash_at(i))
}

/// Checks the textual shape of a UUID: five dash-separated groups of
/// 8, 4, 4, 4 and 12 bytes.
pub fn validate_uuid(uuid: &str) -> (r: Result<(), String>)
    ensures
        uuid@.len() == 0 ==> is_err_with(r, "UUID is required"@),
        uuid@.len() > 0 && !uuid_shaped(uuid.spec_bytes()) ==> is_err_with(
            r,
            "Invalid UUID format"@,
        ),
        r is Ok <==> (uuid@.len() > 0 && uuid_shaped(uuid.spec_bytes())),
{
    if uuid.is_empty() {
        return Err(owned("UUID is required"));
    }
    let b = uuid.as_bytes();
    if b.len() != 36 {
        return Err(owned("Invalid UUID format"));
    }
    let mut i: usize = 0;
    while i < 36
        invariant
            b@ == uuid.spec_bytes(),
            b@.len() == 36,
            i <= 36,
            forall|m: int| 0 <= m < i ==> (b@[m] == 45u8 <==> uuid_dash_at(m)),
        decreases 36 - i,
    {
        let dash = i == 8 || i == 13 || i == 18 || i == 23;
        if (b[i] == 45u8) != dash {
            assert(!((b@[i as int] == 45u8) <==> uuid_dash_at(i as int)));
            return Err(owned("Invalid UUID format"));
        }
        i = i + 1;
    }
    Ok(())
}

/// Checks that `text` is at most `max_length` bytes and holds none of
/// `<`, `>` and NUL.
pub fn validate_safe_text(text: &str, max_length: usize) -> (r: Result<(), String>)
    ensures
        text.spec_bytes().len() > max_length ==> is_err_with(r, "Text too long"@),
        text.spec_bytes().len() <= max_length && (has_byte(text.spec_bytes(), 60) || has_byte(
            text.spec_bytes(),
            62,
        ) || has_byte(text.spec_bytes(), 0)) ==> is_err_with(
            r,
            "Text contains unsafe characters"@,
        ),
        r is Ok <==> (text.spec_bytes().len() <= max_length && !has_byte(text.spec_bytes(), 60)
            && !has_byte(text.spec_bytes(), 62) && !has_byte(text.spec_bytes(), 0)),
{
    let b = text.as_bytes();
    if b.len() > max_length {
        return Err(owned("Text too long"));
    }
    if contains_byte(b, 60) || contains_byte(b, 62) || contains_byte(b, 0) {
        return Err(owned("Text contains unsafe characters"));
    }
    Ok(())
}

/// An ASCII hexadecimal digit: `0`-`9`, `a`-`f` or `A`-`F`.
pub open spec fn is_hex_byte(c: u8) -> bool {
    (48 <= c <= 57) || (97 <= c <= 102) || (65 <= c <= 70)
}

/// Checks that `hash` is 64 hexadecimal digits.
pub fn validate_content_hash(hash: &str) -> (r: Result<(), String>)
    ensures
        hash@.len() == 0 ==> is_err_with(r, "Hash is required"@),
        hash@.len() > 0 && hash.spec_bytes().len() != 64 ==> is_err_with(
            r,
            "Invalid hash length"@,
        ),
        hash@.len() > 0 && hash.spec_bytes().len() == 64 && !(forall|i: int|
            0 <= i < 64 ==> is_hex_byte(#[trigger] hash.spec_bytes()[i])) ==> is_err_with(
            r,
            "Invalid hash format"@,
        ),
        r is Ok <==> (hash.spec_bytes().len() == 64 && forall|i: int|
            0 <= i < 64 ==> is_hex_byte(#[trigger] hash.spec_bytes()[i])),
{
    if hash.is_empty() {
        return Err(owned("Hash is required"));
    }
    let b = hash.as_bytes();
    if b.len() != 64 {
        return Err(owned("Invalid hash length"));
    }
    let mut i: usize = 0;
    while i < 64
        invariant
            b@ == hash.spec_bytes(),
            b@.len() == 64,
            i <= 64,
            forall|m: int| 0 <= m < i ==> is_hex_byte(#[trigger] b@[m]),
        decreases 64 - i,
    {
        let c = b[i];
        if !((48 <= c && c <= 57) || (97 <= c && c <= 102) || (65 <= c && c <= 70)) {
            return Err(owned("Invalid hash format"));
        }
        i = i + 1;
    }
    Ok(())
}

/// A character of Unicode's `White_Space` property.
pub open spec fn is_white_space(c: char) -> bool {
    let u = c as u32;
    (9 <= u <= 13) || u == 32 || u == 0x85 || u == 0xA0 || u == 0x1680 || (0x2000 <= u
        <= 0x200A) || u == 0x2028 || u == 0x2029 || u == 0x202F || u == 0x205F || u == 0x3000
}

/// A character of Unicode's general category `Cc`.
pub open spec fn is_control(c: char) -> bool {
    let u = c as u32;
    u <= 0x1F || (0x7F <= u <= 0x9F)
}

fn white_space(c: char) -> (r: bool)
    ensures
        r == is_white_space(c),
{
    let u = c as u32;
    (9 <= u && u <= 13) || u == 32 || u == 0x85 || u == 0xA0 || u == 0x1680 || (0x2000 <= u && u
        <= 0x200A) || u == 0x2028 || u == 0x2029 || u == 0x202F || u == 0x205F || u == 0x3000
}

fn control(c: char) -> (r: bool)
    ensures
        r == is_control(c),
{
    let u = c as u32;
    u <= 0x1F || (0x7F <= u && u <= 0x9F)
}

/// Index of the first character of `s` that is not white space (`s.len()` if none).
pub open spec fn trim_start_index(s: Seq<char>) -> int
    decreases s.len(),
{
    if s.len() == 0 {
        0
    } else if is_white_space(s[0]) {
        1 + trim_start_index(s.drop_first())
    } else {
        0
    }
}

/// Index just past the last character of `s` that is not white space (0 if none).
pub open spec fn trim_end_index(s: Seq<char>) -> int
    decreases s.len(),
{
    if s.len() == 0 {
        0
    } else if is_white_space(s.last()) {
        trim_end_index(s.drop_last())
    } else {
        s.len() as int
    }
}

/// The characters kept by sanitisation: those that are not control
/// characters, or that are white space.
pub open spec fn keep_sanitized(s: Seq<char>) -> Seq<char>
    decreases s.len(),
{
    if s.len() == 0 {
        s
    } else {
        let rest = keep_sanitized(s.drop_last());
        if !is_control(s.last()) || is_white_space(s.last()) {
            rest.push(s.last())
        } else {
            rest
        }
    }
}

/// The text with white space trimmed from both ends and every control
/// character that is not white space removed (so NUL is gone too).
pub open spec fn sanitized(s: Seq<char>) -> Seq<char> {
    let lo = trim_start_index(s);
    let hi = trim_end_index(s);
    if lo < hi {
        keep_sanitized(s.subrange(lo, hi))
    } else {
        Seq::empty()
    }
}

proof fn lemma_trim_bounds(s: Seq<char>)
    ensures
        0 <= trim_start_index(s) <= s.len(),
        0 <= trim_end_index(s) <= s.len(),
        forall|i: int| 0 <= i < trim_start_index(s) ==> is_white_space(s[i]),
        trim_start_index(s) < s.len() ==> !is_white_space(s[trim_start_index(s)]),
        forall|i: int| trim_end_index(s) <= i < s.len() ==> is_white_space(s[i]),
        trim_end_index(s) > 0 ==> !is_white_space(s[trim_end_index(s) - 1]),
    decreases s.len(),
{
    if s.len() > 0 {
        let t = s.drop_first();
        let u = s.drop_last();
        lemma_trim_bounds(t);
        lemma_trim_bounds(u);
        if is_white_space(s[0]) {
            assert forall|i: int| 0 <= i < trim_start_index(s) implies is_white_space(s[i]) by {
                if i > 0 {
                    assert(s[i] == t[i - 1]);
                }
            }
        }
        if is_white_space(s.last()) {
            assert forall|i: int| trim_end_index(s) <= i < s.len() implies is_white_space(s[i]) by {
                if i < s.len() - 1 {
                    assert(s[i] == u[i]);
                }
            }
        }
    }
}

/// Trims white space from both ends and drops control characters that are
/// not white space.
pub fn sanitize_text(input: &str) -> (r: String)
    ensures
        r@ == sanitized(input@),
{
    let cs = chars_of(input);
    let n = cs.len();
    proof {
        lemma_trim_bounds(cs@);
    }
    let mut lo: usize = 0;
    while lo < n && white_space(cs[lo])
        invariant
            n == cs@.len(),
            lo <= trim_start_index(cs@),
            trim_start_index(cs@) <= n,
            forall|i: int| 0 <= i < trim_start_index(cs@) ==> is_white_space(cs@[i]),
            trim_start_index(cs@) < n ==> !is_white_space(cs@[trim_start_index(cs@)]),
        decreases n - lo,
    {
        lo = lo + 1;
    }
    let mut hi: usize = n;
    while hi > 0 && white_space(cs[hi - 1])
        invariant
            n == cs@.len(),
            trim_end_index(cs@) <= hi <= n,
            forall|i: int| trim_end_index(cs@) <= i < n ==> is_white_space(cs@[i]),
            trim_end_index(cs@) > 0 ==> !is_white_space(cs@[trim_end_index(cs@) - 1]),
        decreases hi,
    {
        hi = hi - 1;
    }
    let mut out = String::new();
    if lo < hi {
        let ghost mid = cs@.subrange(lo as int, hi as int);
        let mut i: usize = lo;
        while i < hi
            invariant
                lo <= i <= hi <= n,
                n == cs@.len(),
                mid == cs@.subrange(lo as int, hi as int),
                out@ == keep_sanitized(cs@.subrange(lo as int, i as int)),
            decreases hi - i,
        {
            let c = cs[i];
            let ghost before = cs@.subrange(lo as int, i as int);
            assert(cs@.subrange(lo as int, i + 1).drop_last() =~= before);
            if !control(c) || white_space(c) {
                push_char(&mut out, c);
            }
            i = i + 1;
        }
    }
    out
}

/// Every `c` in `s` replaced by `rep`.
pub open spec fn replace_char(s: Seq<char>, c: char, rep: Seq<char>) -> Seq<char>
    decreases s.len(),
{
    if s.len() == 0 {
        s
    } else {
        replace_char(s.drop_last(), c, rep) + if s.last() == c {
            rep
        } else {
            seq![s.last()]
        }
    }
}

/// Replaces every `c` in `s` by `rep`.
pub fn replace_all(s: &str, c: char, rep: &str) -> (r: String)
    ensures
        r@ == replace_char(s@, c, rep@),
{
    let cs = chars_of(s);
    let mut out = String::new();
    let mut i: usize = 0;
    while i < cs.len()
        invariant
            cs@ == s@,
            i <= cs@.len(),
            out@ == replace_char(cs@.subrange(0, i as int), c, rep@),
        decreases cs@.len() - i,
    {
        let ghost before = cs@.subrange(0, i as int);
        assert(cs@.subrange(0, i + 1).drop_last() =~= before);
        if cs[i] == c {
            out.append(rep);
        } else {
            push_char(&mut out, cs[i]);
        }
        i = i + 1;
    }
    assert(cs@.subrange(0, cs@.len() as int) =~= cs@);
    out
}

/// The five replacements of HTML escaping, applied one after another in
/// this order: `<`, `>`, `&`, `"`, `'`.
pub open spec fn html_escaped(s: Seq<char>) -> Seq<char> {
    let a = replace_char(s, '<', "&lt;"@);
    let b = replace_char(a, '>', "&gt;"@);
    let c = replace_char(b, '&', "&amp;"@);
    let d = replace_char(c, '"', "&quot;"@);
    replace_char(d, '\'', "&#x27;"@)
}

/// Escapes HTML-significant characters. The replacements run in sequence,
/// so the `&` of an escaped `<` or `>` is escaped again.
pub fn sanitize_html(input: &str) -> (r: String)
    ensures
        r@ == html_escaped(input@),
{
    let a = replace_all(input, '<', "&lt;");
    let b = replace_all(a.as_str(), '>', "&gt;");
    let c = replace_all(b.as_str(), '&', "&amp;");
    let d = replace_all(c.as_str(), '"', "&quot;");
    replace_all(d.as_str(), '\'', "&#x27;")
}

/// Checks that `timestamp` is present and in RFC 3339 form.
pub fn validate_timestamp(timestamp: &str) -> (r: Result<(), String>)
    ensures
        timestamp@.len() == 0 ==> is_err_with(r, "Timestamp is required"@),
        timestamp@.len() > 0 && crate::crypto::rfc3339_seconds(timestamp@) is None ==> is_err_with(
            r,
            "Invalid timestamp format"@,
        ),
        r is Ok <==> (timestamp@.len() > 0 && crate::crypto::rfc3339_seconds(timestamp@) is Some),
{
    if timestamp.is_empty() {
        return Err(owned("Timestamp is required"));
    }
    if crate::crypto::parse_rfc3339(timestamp).is_none() {
        return Err(owned("Invalid timestamp format"));
    }
    Ok(())
}

} // verus!
