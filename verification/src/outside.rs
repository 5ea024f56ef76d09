//! The calls into other crates and into parts of the standard library that
//! carry no specification of their own. What each contract below claims of the
//! call is taken on trust; everything else in this library is proved.

use crate::text;
use crate::text::Text;
use base64::engine::general_purpose;
use base64::Engine;
use vstd::prelude::*;

verus! {

// ---------------------------------------------------------------------------
// Strings
// ---------------------------------------------------------------------------

/// `String::push` appends one character to the end of the string.
pub assume_specification[ std::string::String::push ](s: &mut std::string::String, c: char)
    ensures
        final(s)@ == old(s)@.push(c),
;

// ---------------------------------------------------------------------------
// Letter case and character classes
// ---------------------------------------------------------------------------

/// The text that `str::to_lowercase` returns.
pub uninterp spec fn lowercase(s: Seq<char>) -> Seq<char>;

/// The text that `str::to_uppercase` returns.
pub uninterp spec fn uppercase(s: Seq<char>) -> Seq<char>;

/// What `char::is_alphabetic` returns.
pub uninterp spec fn alphabetic(c: char) -> bool;

/// `str::to_lowercase` maps a text to its lower-case equivalent, which depends
/// on the text alone. On ASCII text it changes the letters `A` to `Z` and
/// nothing else.
pub assume_specification[ str::to_lowercase ](s: &str) -> (r: std::string::String)
    ensures
        r@ == lowercase(s@),
        text::is_ascii_text(s@) ==> r@ == s@.map_values(|c: char| text::ascii_lower(c)),
;

/// `str::to_uppercase` maps a text to its upper-case equivalent, which depends
/// on the text alone. On ASCII text it changes the letters `a` to `z` and
/// nothing else.
pub assume_specification[ str::to_uppercase ](s: &str) -> (r: std::string::String)
    ensures
        r@ == uppercase(s@),
        text::is_ascii_text(s@) ==> r@ == s@.map_values(|c: char| text::ascii_upper(c)),
;

/// `char::is_alphabetic` tells whether a character has the Unicode property
/// `Alphabetic`. Of the ASCII characters the letters have it.
pub assume_specification[ char::is_alphabetic ](c: char) -> (r: bool)
    ensures
        r == alphabetic(c),
        text::is_ascii_char(c) ==> r == ('a' as int <= text::ascii_lower(c) as int <= 'z' as int),
;

/// The text that the debug format gives for a string.
pub uninterp spec fn debug_text(s: Seq<char>) -> Seq<char>;

/// The debug format of `str`: the string in double quotes, with escapes. It
/// depends on the string alone.
#[verifier::external_body]
pub(crate) fn debug_str(s: &str) -> (r: String)
    ensures
        r@ == debug_text(s@),
{
    format!("{:?}", s)
}

// ---------------------------------------------------------------------------
// UTF-8
// ---------------------------------------------------------------------------

/// The message of the error that `str::from_utf8` returns.
pub uninterp spec fn utf8_error(bytes: Seq<u8>) -> Seq<char>;

/// `str::from_utf8` succeeds on well-formed UTF-8 and then gives the text that
/// the bytes encode. Its error message depends on the bytes alone.
#[verifier::external_body]
pub(crate) fn utf8_to_string(bytes: &[u8]) -> (r: Result<String, String>)
    ensures
        r is Ok <==> vstd::utf8::valid_utf8(bytes@),
        r matches Ok(s) ==> s@ == vstd::utf8::decode_utf8(bytes@),
        r matches Err(e) ==> e@ == utf8_error(bytes@),
{
    std::str::from_utf8(bytes).map(|s| s.to_string()).map_err(|e| e.to_string())
}

// ---------------------------------------------------------------------------
// UUIDs
// ---------------------------------------------------------------------------

/// Whether `c` is a hexadecimal digit.
pub open spec fn is_hex(c: char) -> bool {
    text::is_digit(c) || 'a' as int <= text::ascii_lower(c) as int <= 'f' as int
}

/// Whether `s` is 32 hexadecimal digits in groups of 8, 4, 4, 4 and 12 with
/// hyphens between the groups.
pub open spec fn is_hyphenated_uuid(s: Text) -> bool {
    s.len() == 36 && forall|i: int|
        0 <= i < 36 ==> if i == 8 || i == 13 || i == 18 || i == 23 {
            #[trigger] s[i] == '-'
        } else {
            is_hex(s[i])
        }
}

/// Whether `s` is a UUID: 32 hexadecimal digits, the hyphenated form, that
/// form in braces, or that form after `urn:uuid:` in any case.
pub open spec fn is_uuid_text(s: Text) -> bool {
    ||| s.len() == 32 && forall|i: int| 0 <= i < 32 ==> is_hex(#[trigger] s[i])
    ||| is_hyphenated_uuid(s)
    ||| s.len() == 38 && s[0] == '{' && s[37] == '}' && is_hyphenated_uuid(s.subrange(1, 37))
    ||| s.len() == 45 && text::eq_ignore_case(s.take(9), "urn:uuid:"@) && is_hyphenated_uuid(
        s.skip(9),
    )
}

/// `uuid::Uuid::parse_str` succeeds on the forms of [`is_uuid_text`].
#[verifier::external_body]
pub(crate) fn uuid_parses(s: &str) -> (r: bool)
    ensures
        r == is_uuid_text(s@),
{
    uuid::Uuid::parse_str(s).is_ok()
}

/// `uuid::Uuid::new_v4` draws a random UUID, which is displayed in the
/// hyphenated form. Which one it is rests on chance.
#[verifier::external_body]
pub(crate) fn new_uuid() -> (r: String)
    ensures
        is_hyphenated_uuid(r@),
{
    uuid::Uuid::new_v4().to_string()
}

// ---------------------------------------------------------------------------
// Dates and times
// ---------------------------------------------------------------------------

/// A point in time: seconds since the Unix epoch, and nanoseconds.
pub type Instant = (i64, u32);

/// The point in time, read as UTC, that `s` denotes in a date and time format
/// of `chrono`.
pub uninterp spec fn datetime_of(s: Seq<char>, format: Seq<char>) -> Option<(i64, u32)>;

/// `chrono::NaiveDateTime::parse_from_str` reads a date and time in a given
/// format. What it reads depends on the text and the format alone. The result
/// is given as the point in time that it is in UTC.
#[verifier::external_body]
pub(crate) fn parse_datetime(s: &str, format: &str) -> (r: Option<Instant>)
    ensures
        r == datetime_of(s@, format@),
{
    let d = chrono::NaiveDateTime::parse_from_str(s, format).ok()?.and_utc();
    Some((d.timestamp(), d.timestamp_subsec_nanos()))
}

/// The point in time that `s` denotes in the format of RFC 3339.
pub uninterp spec fn rfc3339_of(s: Seq<char>) -> Option<(i64, u32)>;

/// `chrono::DateTime::parse_from_rfc3339` reads a date and time with an
/// offset. What it reads depends on the text alone.
#[verifier::external_body]
pub(crate) fn parse_rfc3339(s: &str) -> (r: Option<Instant>)
    ensures
        r == rfc3339_of(s@),
{
    let d = chrono::DateTime::parse_from_rfc3339(s).ok()?;
    Some((d.timestamp(), d.timestamp_subsec_nanos()))
}

/// Whether `s` is a text with which a time is stored: it reads as a date and
/// time, and holds neither a double quote nor a comma.
pub open spec fn is_time_text(s: Text) -> bool {
    datetime_of(s, "%Y-%m-%d %H:%M:%S"@) is Some && !s.contains('"') && !s.contains(',')
}

/// `chrono::Utc::now` in the format with which timestamps are stored. It rests
/// on the clock; whatever the clock says, the text reads back as a date and
/// time, and is made of digits, signs, hyphens, colons and a space.
#[verifier::external_body]
pub(crate) fn now_text() -> (r: String)
    ensures
        is_time_text(r@),
{
    chrono::Utc::now().format("%Y-%m-%d %H:%M:%S").to_string()
}

// ---------------------------------------------------------------------------
// Regular expressions
// ---------------------------------------------------------------------------

/// Whether `pattern` matches in `text`; nothing where it is no regular
/// expression.
pub uninterp spec fn regex_matches(pattern: Seq<char>, text: Seq<char>) -> Option<bool>;

/// `regex::Regex::new` and `regex::Regex::is_match`: whether a regular
/// expression matches in a text. It depends on the two texts alone.
#[verifier::external_body]
pub(crate) fn regex_is_match(pattern: &str, text: &str) -> (r: Option<bool>)
    ensures
        r == regex_matches(pattern@, text@),
{
    Some(regex::Regex::new(pattern).ok()?.is_match(text))
}

/// What the groups of the first match of `pattern` in `text` hold, the whole
/// match first; nothing where there is no match.
pub uninterp spec fn regex_groups(pattern: Seq<char>, text: Seq<char>) -> Option<
    Seq<Option<Seq<char>>>,
>;

/// `regex::Regex::new` and `regex::Regex::captures`: what the groups of the
/// first match hold. It depends on the two texts alone.
#[verifier::external_body]
pub(crate) fn regex_captures(pattern: &str, text: &str) -> (r: Option<Vec<Option<String>>>)
    ensures
        r.deep_view() == regex_groups(pattern@, text@),
{
    let captures = regex::Regex::new(pattern).ok()?.captures(text)?;
    Some(captures.iter().map(|g| g.map(|m| m.as_str().to_string())).collect())
}

// ---------------------------------------------------------------------------
// Base64 and JSON numbers
// ---------------------------------------------------------------------------

/// The Base64 text of some bytes, in the standard alphabet with padding.
pub uninterp spec fn base64_of(bytes: Seq<u8>) -> Seq<char>;

/// The bytes that a text encodes in Base64, in the standard alphabet with
/// padding.
pub uninterp spec fn base64_bytes(s: Seq<char>) -> Option<Seq<u8>>;

/// The standard engine of `base64` encodes any bytes, and decodes what it has
/// encoded.
#[verifier::external_body]
pub(crate) fn base64_encode(bytes: &[u8]) -> (r: String)
    ensures
        r@ == base64_of(bytes@),
        base64_bytes(r@) == Some(bytes@),
{
    general_purpose::STANDARD.encode(bytes)
}

/// The standard engine of `base64` decodes a text, where it is Base64. What
/// comes out depends on the text alone.
#[verifier::external_body]
pub(crate) fn base64_decode(s: &str) -> (r: Option<Vec<u8>>)
    ensures
        r.deep_view() == base64_bytes(s@),
{
    general_purpose::STANDARD.decode(s).ok()
}

/// Whether `serde_json` reads `s` as a number.
pub uninterp spec fn is_json_number(s: Seq<char>) -> bool;

/// The parse of `serde_json::Number` from a text. Whether it succeeds depends
/// on the text alone.
#[verifier::external_body]
pub(crate) fn json_number_parses(s: &str) -> (r: bool)
    ensures
        r == is_json_number(s@),
{
    s.parse::<serde_json::Number>().is_ok()
}

} // verus!
