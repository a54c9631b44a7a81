//! The calls that the library makes into outside crates and into std functions that
//! vstd leaves unspecified. Verus takes the contracts here on trust.

use vstd::prelude::*;
use vstd::string::StringSliceAdditionalSpecFns;
use vstd::utf8::{decode_utf8, valid_utf8};
use axum::http::{HeaderName, HeaderValue, StatusCode};
use base64::Engine;

verus! {

/// What `url::Url::parse` (reached as `reqwest::Url::parse`) reports for a text: `None`
/// when the text parses as an absolute URL, otherwise the display text of its `ParseError`.
pub uninterp spec fn url_parse_failure(text: Seq<char>) -> Option<Seq<char>>;

/// Calls `reqwest::Url::parse` on `text`. The contract claims only that the outcome, and
/// the error's display text, are a fixed function of the text (`url_parse_failure`).
#[verifier::external_body]
pub(crate) fn parse_url(text: &str) -> (res: Result<(), String>)
    ensures
        match res {
            Ok(()) => url_parse_failure(text@) is None,
            Err(reason) => url_parse_failure(text@) == Some(reason@),
        },
{
    match reqwest::Url::parse(text) {
        Ok(_) => Ok(()),
        Err(err) => Err(err.to_string()),
    }
}

/// The text that `base64::engine::general_purpose::STANDARD.encode` gives for some bytes.
pub uninterp spec fn base64_encoding(bytes: Seq<u8>) -> Seq<char>;

/// What `base64::engine::general_purpose::STANDARD.decode` gives for a text: the bytes,
/// or the display text of its `DecodeError`.
pub uninterp spec fn base64_decoding(text: Seq<char>) -> Result<Seq<u8>, Seq<char>>;

/// A successful decoding.
pub open spec fn decoded_as(bytes: Seq<u8>) -> Result<Seq<u8>, Seq<char>> {
    Ok(bytes)
}

/// A refused decoding, with the error's display text.
pub open spec fn refused_as(reason: Seq<char>) -> Result<Seq<u8>, Seq<char>> {
    Err(reason)
}

/// Calls `STANDARD.encode` (base64, standard alphabet, with padding). Claims that the
/// text is a fixed function of the bytes, and that decoding it with the same engine gives
/// the bytes back, as the crate's round-trip tests check.
#[verifier::external_body]
pub(crate) fn encode_base64(bytes: &[u8]) -> (encoded: String)
    ensures
        encoded@ == base64_encoding(bytes@),
        base64_decoding(encoded@) == decoded_as(bytes@),
{
    base64::engine::general_purpose::STANDARD.encode(bytes)
}

/// Calls `STANDARD.decode`. Claims only that the outcome is a fixed function of the text.
#[verifier::external_body]
pub(crate) fn decode_base64(text: &str) -> (res: Result<Vec<u8>, String>)
    ensures
        match res {
            Ok(bytes) => base64_decoding(text@) == decoded_as(bytes@),
            Err(reason) => base64_decoding(text@) == refused_as(reason@),
        },
{
    match base64::engine::general_purpose::STANDARD.decode(text) {
        Ok(bytes) => Ok(bytes),
        Err(err) => Err(err.to_string()),
    }
}

/// A character that may stand in a header name: a token character of HTTP (the nonzero
/// entries of `HEADER_CHARS` in http's `header/name.rs`).
pub open spec fn is_header_name_char(c: char) -> bool {
    ||| 'a' <= c <= 'z'
    ||| 'A' <= c <= 'Z'
    ||| '0' <= c <= '9'
    ||| c == '!' || c == '#' || c == '$' || c == '%' || c == '&' || c == '\''
    ||| c == '*' || c == '+' || c == '-' || c == '.' || c == '^' || c == '_'
    ||| c == '`' || c == '|' || c == '~'
}

/// A header-name character as http keeps it: capital ASCII letters become small ones.
pub open spec fn lower_header_char(c: char) -> char {
    if 'A' <= c <= 'Z' {
        ((c as u32) + 32) as char
    } else {
        c
    }
}

/// What `http::HeaderName::from_bytes` makes of a name: when the name has 1 to 65535
/// characters, all of them token characters, the name in lower case; otherwise `None`.
pub open spec fn header_name_parse(name: Seq<char>) -> Option<Seq<char>> {
    if 1 <= name.len() <= 65535 && forall|i: int|
        0 <= i < name.len() ==> is_header_name_char(#[trigger] name[i]) {
        Some(name.map_values(|c: char| lower_header_char(c)))
    } else {
        None
    }
}

/// Calls `HeaderName::from_bytes` (reached through `axum::http`) on the name's bytes.
/// Claims what http's source shows (`parse_hdr` with the `HEADER_CHARS` table and the
/// limit `MAX_HEADER_NAME_LEN`): a name of 1 to 65535 bytes, each a token character, is
/// accepted and kept in lower case, any other is refused; a refusal displays as
/// `invalid HTTP header name`, the text of `InvalidHeaderName`'s `Display`.
#[verifier::external_body]
pub(crate) fn parse_header_name(name: &str) -> (res: Result<String, String>)
    ensures
        match res {
            Ok(n) => header_name_parse(name@) == Some(n@),
            Err(reason) => header_name_parse(name@) is None && reason@ == "invalid HTTP header name"@,
        },
{
    match HeaderName::from_bytes(name.as_bytes()) {
        Ok(n) => Ok(n.as_str().to_string()),
        Err(err) => Err(err.to_string()),
    }
}

/// A byte that a header value may hold: visible ASCII, a tab, or any byte from 128 up
/// (the test `is_valid` in http's `header/value.rs`).
pub open spec fn is_header_value_byte(b: u8) -> bool {
    (b >= 32u8 && b != 127u8) || b == 9u8
}

/// Calls `HeaderValue::from_str`. Claims what http's source shows: the text is accepted
/// exactly when each of its bytes may stand in a header value, the value holds the text's
/// bytes, and a refusal displays as `failed to parse header value`.
#[verifier::external_body]
pub(crate) fn header_value_from_text(text: &str) -> (res: Result<Vec<u8>, String>)
    ensures
        match res {
            Ok(bytes) => (forall|i: int|
                0 <= i < text.spec_bytes().len() ==> is_header_value_byte(#[trigger] text.spec_bytes()[i]))
                && bytes@ == text.spec_bytes(),
            Err(reason) => !(forall|i: int|
                0 <= i < text.spec_bytes().len() ==> is_header_value_byte(#[trigger] text.spec_bytes()[i]))
                && reason@ == "failed to parse header value"@,
        },
{
    match HeaderValue::from_str(text) {
        Ok(v) => Ok(v.as_bytes().to_vec()),
        Err(err) => Err(err.to_string()),
    }
}

/// Calls `StatusCode::from_u16`. Claims what http's source shows: codes from 100 to 999
/// are accepted as they are, and a refusal displays as `invalid status code`.
#[verifier::external_body]
pub(crate) fn status_from_code(code: u16) -> (res: Result<u16, String>)
    ensures
        match res {
            Ok(c) => 100 <= code <= 999 && c == code,
            Err(reason) => !(100 <= code <= 999) && reason@ == "invalid status code"@,
        },
{
    match StatusCode::from_u16(code) {
        Ok(status) => Ok(status.as_u16()),
        Err(err) => Err(err.to_string()),
    }
}

/// Calls std's `String::from_utf8`, which takes the bytes as a text when they are valid
/// UTF-8, as its documentation states.
#[verifier::external_body]
pub(crate) fn string_from_utf8(bytes: Vec<u8>) -> (res: Option<String>)
    ensures
        match res {
            Some(s) => valid_utf8(bytes@) && s@ == decode_utf8(bytes@),
            None => !valid_utf8(bytes@),
        },
{
    String::from_utf8(bytes).ok()
}

} // verus!
