//! Protocol versions, status reasons, request targets and UTF-8 decoding.
use http::{StatusCode, Uri};
use std::str::FromStr;
use vstd::prelude::*;
use vstd::utf8::{decode_utf8, encode_utf8, valid_utf8};

verus! {

/// The protocol version of a response (the versions `http::Version` names).
#[derive(Debug, Clone, Copy, PartialEq, Eq, Structural)]
pub enum ProtocolVersion {
    Http09,
    Http10,
    Http11,
    Http2,
    Http3,
}

impl ProtocolVersion {
    /// How the version is written in a status line.
    pub open spec fn spec_text(self) -> Seq<char> {
        match self {
            ProtocolVersion::Http09 => "HTTP/0.9"@,
            ProtocolVersion::Http10 => "HTTP/1.0"@,
            ProtocolVersion::Http11 => "HTTP/1.1"@,
            ProtocolVersion::Http2 => "HTTP/2.0"@,
            ProtocolVersion::Http3 => "HTTP/3.0"@,
        }
    }

    /// How the version is written in a status line.
    pub fn text(&self) -> (t: &'static str)
        ensures
            t@ == self.spec_text(),
    {
        match self {
            ProtocolVersion::Http09 => "HTTP/0.9",
            ProtocolVersion::Http10 => "HTTP/1.0",
            ProtocolVersion::Http11 => "HTTP/1.1",
            ProtocolVersion::Http2 => "HTTP/2.0",
            ProtocolVersion::Http3 => "HTTP/3.0",
        }
    }
}

/// The canonical reason phrase of a status code, as `http` knows it.
pub uninterp spec fn status_reason(code: u16) -> Option<Seq<char>>;

/// `StatusCode::canonical_reason` of the status code `code`.
///
/// The phrase is named `status_reason`; the source's table is not restated,
/// except for the three codes this library sends: 200 "OK", 201 "Created" and
/// 404 "Not Found". Every phrase in the table is printable ASCII.
/// `StatusCode::from_u16` accepts every code in 100..=999.
#[verifier::external_body]
pub(crate) fn canonical_reason(code: u16) -> (reason: Option<&'static str>)
    requires
        100 <= code <= 999,
    ensures
        reason matches Some(r) ==> status_reason(code) == Some(r@),
        reason is None ==> status_reason(code) is None,
        code == 200 ==> reason is Some && reason.unwrap()@ == "OK"@,
        code == 201 ==> reason is Some && reason.unwrap()@ == "Created"@,
        code == 404 ==> reason is Some && reason.unwrap()@ == "Not Found"@,
        reason matches Some(r) ==> forall|k: int|
            0 <= k < r@.len() ==> 32 <= (#[trigger] r@[k] as u32) < 127,
{
    match StatusCode::from_u16(code) {
        Ok(status) => status.canonical_reason(),
        Err(_) => None,
    }
}

/// The canonical reason phrase of a status code, as a status line shows it:
/// `None` when `http` knows no phrase for the code; every phrase is printable
/// ASCII, and 200, 201 and 404 read "OK", "Created" and "Not Found".
pub fn reason_phrase(code: u16) -> (reason: Option<&'static str>)
    requires
        100 <= code <= 999,
    ensures
        reason matches Some(r) ==> status_reason(code) == Some(r@),
        reason is None ==> status_reason(code) is None,
        code == 200 ==> reason is Some && reason.unwrap()@ == "OK"@,
        code == 201 ==> reason is Some && reason.unwrap()@ == "Created"@,
        code == 404 ==> reason is Some && reason.unwrap()@ == "Not Found"@,
        reason matches Some(r) ==> forall|k: int|
            0 <= k < r@.len() ==> 32 <= (#[trigger] r@[k] as u32) < 127,
{
    canonical_reason(code)
}

/// The path of the request target `target` when `http::Uri` accepts it as a
/// URI, and `None` when it does not.
pub uninterp spec fn uri_path_of(target: Seq<char>) -> Option<Seq<char>>;

/// Parses a request target with `Uri::from_str` and reads its path with
/// `Uri::path`. The result is named `uri_path_of`; the URI grammar is not
/// restated.
#[verifier::external_body]
pub(crate) fn parse_uri_path(target: &str) -> (path: Option<String>)
    ensures
        match path {
            Some(p) => uri_path_of(target@) == Some(p@),
            None => uri_path_of(target@) is None,
        },
{
    match Uri::from_str(target) {
        Ok(uri) => Some(uri.path().to_string()),
        Err(_) => None,
    }
}

/// `std::str::from_utf8`: the bytes read as a string when they are valid
/// UTF-8.
#[verifier::external_body]
pub(crate) fn str_from_utf8(bytes: &[u8]) -> (text: Option<&str>)
    ensures
        text is Some <==> valid_utf8(bytes@),
        text matches Some(t) ==> encode_utf8(t@) == bytes@,
{
    std::str::from_utf8(bytes).ok()
}

/// The text `String::from_utf8_lossy` makes of `bytes`.
pub uninterp spec fn utf8_lossy(bytes: Seq<u8>) -> Seq<char>;

/// `String::from_utf8_lossy`: the bytes read as UTF-8, each invalid sequence
/// replaced by U+FFFD. The replacement rule is not restated; stated is what
/// its documentation gives: valid input reads as the same text, and since
/// only a 0 byte decodes to U+0000 (invalid sequences become U+FFFD), input
/// without 0 bytes gives text without U+0000.
#[verifier::external_body]
pub(crate) fn decode_lossy(bytes: &[u8]) -> (text: String)
    ensures
        text@ == utf8_lossy(bytes@),
        valid_utf8(bytes@) ==> text@ == decode_utf8(bytes@),
        !bytes@.contains(0u8) ==> !text@.contains('\0'),
{
    String::from_utf8_lossy(bytes).into_owned()
}

} // verus!
