//! What the HTTP client accepts as a URL, as a header name and as a header
//! value.
//!
//! The three executable functions here call the client library; Verus takes
//! their contracts on trust. The contracts say, for the two header checks,
//! exactly which bytes the library accepts; for the URL, which is beyond a
//! short statement, they give the library's verdict a name.

use vstd::prelude::*;

verus! {

/// Whether `Url::parse` of the client library accepts this text as an
/// absolute URL.
pub uninterp spec fn url_parses(text: Seq<char>) -> bool;

/// A character of an HTTP token: a letter, a digit, or one of
/// ``! # $ % & ' * + - . ^ _ ` | ~``.
pub open spec fn is_token_byte(b: u8) -> bool {
    ||| 0x30 <= b <= 0x39
    ||| 0x41 <= b <= 0x5a
    ||| 0x61 <= b <= 0x7a
    ||| b == 0x21
    ||| 0x23 <= b <= 0x27
    ||| b == 0x2a
    ||| b == 0x2b
    ||| b == 0x2d
    ||| b == 0x2e
    ||| b == 0x5e
    ||| b == 0x5f
    ||| b == 0x60
    ||| b == 0x7c
    ||| b == 0x7e
}

/// A header name is a token of 1 to 65535 bytes.
pub open spec fn valid_header_name(bytes: Seq<u8>) -> bool {
    &&& 1 <= bytes.len() <= 65535
    &&& forall|i: int| 0 <= i < bytes.len() ==> is_token_byte(#[trigger] bytes[i])
}

/// A byte of a header value: a tab, or anything from the space on but DEL.
pub open spec fn is_value_byte(b: u8) -> bool {
    (b >= 32 && b != 127) || b == 9
}

/// A header value holds value bytes only; it may be empty.
pub open spec fn valid_header_value(bytes: Seq<u8>) -> bool {
    forall|i: int| 0 <= i < bytes.len() ==> is_value_byte(#[trigger] bytes[i])
}

/// Calls `reqwest::Url::parse` and tells whether it gave a URL. The contract
/// names that verdict; it claims nothing of which texts are accepted.
#[verifier::external_body]
pub(crate) fn accepts_url(text: &str) -> (ok: bool)
    ensures
        ok == url_parses(text@),
{
    reqwest::Url::parse(text).is_ok()
}

/// Calls `reqwest::header::HeaderName::from_bytes` and tells whether it gave
/// a name. The contract claims that the library accepts the tokens of 1 to
/// 65535 bytes and nothing else.
#[verifier::external_body]
pub(crate) fn accepts_header_name(bytes: &[u8]) -> (ok: bool)
    ensures
        ok == valid_header_name(bytes@),
{
    reqwest::header::HeaderName::from_bytes(bytes).is_ok()
}

/// Calls `reqwest::header::HeaderValue::from_bytes` and tells whether it gave
/// a value. The contract claims that the library accepts the byte strings
/// without control bytes other than the tab, and nothing else.
#[verifier::external_body]
pub(crate) fn accepts_header_value(bytes: &[u8]) -> (ok: bool)
    ensures
        ok == valid_header_value(bytes@),
{
    reqwest::header::HeaderValue::from_bytes(bytes).is_ok()
}

} // verus!
