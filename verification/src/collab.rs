//! The calls into the collaborating crates, each behind a small trusted
//! function whose contract states what the call computes.

use vstd::prelude::*;
use vstd::string::StringSliceAdditionalSpecFns;

verus! {

// --- JSON values ---

/// The compact serialization of the JSON literal that `s` denotes, or
/// `None` when the parser rejects `s` (text that is not valid JSON, or
/// JSON nested beyond the parser's fixed depth limit). Stands for what
/// `json::parse` followed by `json::JsonValue::dump` computes; both
/// depend on the input text alone.
pub uninterp spec fn json_canon(s: Seq<char>) -> Option<Seq<char>>;

/// Relies on json::parse and json::JsonValue::dump: parsing accepts the
/// JSON grammar up to a fixed nesting depth and dumping writes the parsed
/// value compactly, both as functions of the input text alone.
#[verifier::external_body]
pub(crate) fn json_canonicalize(s: &str) -> (r: Option<String>)
    ensures
        r is Some <==> json_canon(s@) is Some,
        r matches Some(t) ==> Some(t@) == json_canon(s@),
{
    match json::parse(s) {
        Ok(v) => Some(v.dump()),
        Err(_) => None,
    }
}

/// A lowercase hexadecimal digit.
pub open spec fn hex_lower(d: int) -> char {
    if d == 10 {
        'a'
    } else if d == 11 {
        'b'
    } else if d == 12 {
        'c'
    } else if d == 13 {
        'd'
    } else if d == 14 {
        'e'
    } else if d == 15 {
        'f'
    } else {
        crate::strutil::digit_char(d)
    }
}

/// How one character appears inside a JSON string literal.
pub open spec fn json_escape_char(c: char) -> Seq<char> {
    if c == '"' {
        seq!['\\', '"']
    } else if c == '\\' {
        seq!['\\', '\\']
    } else if c == '\u{8}' {
        seq!['\\', 'b']
    } else if c == '\t' {
        seq!['\\', 't']
    } else if c == '\n' {
        seq!['\\', 'n']
    } else if c == '\u{c}' {
        seq!['\\', 'f']
    } else if c == '\r' {
        seq!['\\', 'r']
    } else if (c as u32) < 32 {
        seq!['\\', 'u', '0', '0', hex_lower((c as u32 / 16) as int), hex_lower(
            (c as u32 % 16) as int,
        )]
    } else {
        seq![c]
    }
}

/// The body of a JSON string literal for the text `s`.
pub open spec fn json_escape(s: Seq<char>) -> Seq<char>
    decreases s.len(),
{
    if s.len() == 0 {
        Seq::empty()
    } else {
        json_escape_char(s[0]) + json_escape(s.drop_first())
    }
}

/// The JSON string literal for the text `s`, quotes included.
pub open spec fn json_quoted(s: Seq<char>) -> Seq<char> {
    seq!['"'] + json_escape(s) + seq!['"']
}

/// Relies on json::stringify: a string value becomes its JSON string
/// literal, character by character with the standard escapes.
#[verifier::external_body]
pub(crate) fn json_quote(s: &str) -> (r: String)
    ensures
        r@ == json_quoted(s@),
{
    json::stringify(s)
}

// --- Percent-encoding ---

/// The bytes that percent-encoding leaves unchanged.
pub open spec fn url_safe_byte(b: u8) -> bool {
    (48 <= b <= 57) || (65 <= b <= 90) || (97 <= b <= 122) || b == 45 || b == 46 || b == 95 || b
        == 126
}

/// An uppercase hexadecimal digit.
pub open spec fn hex_upper(d: int) -> char {
    if d == 10 {
        'A'
    } else if d == 11 {
        'B'
    } else if d == 12 {
        'C'
    } else if d == 13 {
        'D'
    } else if d == 14 {
        'E'
    } else if d == 15 {
        'F'
    } else {
        crate::strutil::digit_char(d)
    }
}

/// How one byte appears in percent-encoded text.
pub open spec fn url_enc_byte(b: u8) -> Seq<char> {
    if url_safe_byte(b) {
        seq![b as char]
    } else {
        seq!['%', hex_upper(b as int / 16), hex_upper(b as int % 16)]
    }
}

/// The percent-encoding of a byte sequence.
pub open spec fn url_enc(bs: Seq<u8>) -> Seq<char>
    decreases bs.len(),
{
    if bs.len() == 0 {
        Seq::empty()
    } else {
        url_enc_byte(bs[0]) + url_enc(bs.drop_first())
    }
}

/// Relies on urlencoding::encode: it percent-encodes every byte of the
/// UTF-8 text except ASCII alphanumerics and `-`, `.`, `_`, `~`, writing
/// uppercase hexadecimal digits.
#[verifier::external_body]
pub(crate) fn url_encode(s: &str) -> (r: String)
    ensures
        r@ == url_enc(s.spec_bytes()),
{
    urlencoding::encode(s).into_owned()
}

// --- Header names and values ---

/// The characters allowed in a header name.
pub open spec fn header_name_char_ok(c: char) -> bool {
    ||| c == '!' || c == '"' || c == '#' || c == '$' || c == '%' || c == '&' || c == '\''
    ||| c == '*' || c == '+' || c == '-' || c == '.' || c == '^' || c == '_' || c == '`'
    ||| c == '|' || c == '~'
    ||| 48 <= c as u32 <= 57
    ||| 65 <= c as u32 <= 90
    ||| 97 <= c as u32 <= 122
}

/// A well-formed header name: non-empty, within the length the client
/// accepts, made of header-name characters only.
pub open spec fn valid_header_name(s: Seq<char>) -> bool {
    &&& 1 <= s.len() <= 65535
    &&& forall|i: int| 0 <= i < s.len() ==> header_name_char_ok(s[i])
}

/// ASCII uppercase mapped to lowercase; anything else unchanged.
pub open spec fn lower_header_char(c: char) -> char {
    if 65 <= c as u32 <= 90 {
        ((c as u32 + 32) as u8) as char
    } else {
        c
    }
}

/// A header name as the client normalizes it: all lowercase.
pub open spec fn lower_header_name(s: Seq<char>) -> Seq<char> {
    s.map_values(|c: char| lower_header_char(c))
}

/// Relies on hyper::header::HeaderName::from_str: it accepts a name of 1 to
/// 65535 header-name characters and returns it with ASCII uppercase mapped
/// to lowercase.
#[verifier::external_body]
pub(crate) fn parse_header_name(s: &str) -> (r: Option<String>)
    ensures
        r is Some <==> valid_header_name(s@),
        r matches Some(t) ==> t@ == lower_header_name(s@),
{
    match <hyper::header::HeaderName as core::str::FromStr>::from_str(s) {
        Ok(h) => Some(h.as_str().to_string()),
        Err(_) => None,
    }
}

/// The bytes allowed in a header value: tab, or at least 32 and not 127.
pub open spec fn header_value_byte_ok(b: u8) -> bool {
    (b >= 32 && b != 127) || b == 9
}

/// A well-formed header value, judged on the UTF-8 bytes of the text.
pub open spec fn valid_header_value(bs: Seq<u8>) -> bool {
    forall|i: int| 0 <= i < bs.len() ==> header_value_byte_ok(bs[i])
}

/// Relies on hyper::header::HeaderValue::from_str: it accepts exactly the
/// strings whose bytes are tab, or at least 32 and not 127, and keeps the
/// text unchanged.
#[verifier::external_body]
pub(crate) fn header_value_ok(s: &str) -> (r: bool)
    ensures
        r == valid_header_value(s.spec_bytes()),
{
    hyper::header::HeaderValue::from_str(s).is_ok()
}

// --- Status codes and media types ---

/// The canonical reason phrase registered for an HTTP status code, if
/// any. Stands for the fixed table that `hyper::StatusCode` holds.
pub uninterp spec fn reason_phrase(code: u16) -> Option<Seq<char>>;

/// Relies on hyper::StatusCode::from_u16 and canonical_reason: a fixed
/// table from numeric code to reason phrase.
#[verifier::external_body]
pub(crate) fn status_reason(code: u16) -> (r: Option<String>)
    ensures
        r is Some <==> reason_phrase(code) is Some,
        r matches Some(t) ==> Some(t@) == reason_phrase(code),
{
    match hyper::StatusCode::from_u16(code) {
        Ok(s) => s.canonical_reason().map(|p| p.to_string()),
        Err(_) => None,
    }
}

/// The type and subtype of a media-type text such as
/// `text/html; charset=utf-8`, or `None` when the text is not a media
/// type. Stands for what `mime`'s parser computes from the text alone.
pub uninterp spec fn media_essence(s: Seq<char>) -> Option<(Seq<char>, Seq<char>)>;

/// Relies on mime::Mime's FromStr, type_ and subtype: parsing a media type
/// and reading its two main components.
#[verifier::external_body]
pub(crate) fn parse_media_essence(s: &str) -> (r: Option<(String, String)>)
    ensures
        r is Some <==> media_essence(s@) is Some,
        r matches Some(p) ==> Some((p.0@, p.1@)) == media_essence(s@),
{
    match s.parse::<mime::Mime>() {
        Ok(m) => Some((m.type_().as_str().to_string(), m.subtype().as_str().to_string())),
        Err(_) => None,
    }
}

} // verus!
