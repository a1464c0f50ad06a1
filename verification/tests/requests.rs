use http_server::error::{HeaderError, HttpRequestError, LinesError};
use http_server::handlers::{decode_chunk, get_path_name, route, split_request_text, Route};
use http_server::objects::{HTTPVersion, HttpRequest, Method, Request};

fn lines(ls: &[&str]) -> Vec<String> {
    ls.iter().map(|s| s.to_string()).collect()
}

#[test]
fn path_name_is_last_segment() {
    assert_eq!(get_path_name("/echo/abc".to_string()), "abc");
    assert_eq!(get_path_name("/files/dir/report.txt".to_string()), "report.txt");
    assert_eq!(get_path_name("plain".to_string()), "plain");
    assert_eq!(get_path_name("/echo/".to_string()), "");
    assert_eq!(get_path_name("".to_string()), "");
    assert_eq!(get_path_name("/é/ü".to_string()), "ü");
}

#[test]
fn method_names_round_trip() {
    for m in [Method::GET, Method::POST, Method::PUT, Method::DELETE] {
        assert_eq!(Method::from_name(m.as_str()), Some(m));
    }
    assert_eq!(Method::GET.as_str(), "GET");
    assert_eq!(Method::DELETE.as_str(), "DELETE");
    assert_eq!(Method::from_name("get"), None);
    assert_eq!(Method::from_name("PATCH"), None);
    assert_eq!(Method::from_name(""), None);
    assert_eq!(HTTPVersion::HTTP1_1.as_str(), "HTTP1_1");
    assert_eq!(HTTPVersion::HTTP2.as_str(), "HTTP2");
}

#[test]
fn request_line_parses() {
    let r = Request::parse("GET /echo/abc?x=1 HTTP/1.1").unwrap();
    assert_eq!(*r.get_method(), Method::GET);
    assert_eq!(r.resource_path(), "/echo/abc");
    assert_eq!(r.version, HTTPVersion::HTTP1_1);
    let r: Request = "POST http://example.org/files/a.txt HTTP/2".parse().unwrap();
    assert_eq!(*r.get_method(), Method::POST);
    assert_eq!(r.resource_path(), "/files/a.txt");
}

#[test]
fn request_line_errors() {
    assert_eq!(Request::parse("FETCH / HTTP/1.1").unwrap_err(), HttpRequestError::InvalidMethod);
    assert_eq!(Request::parse("").unwrap_err(), HttpRequestError::InvalidMethod);
    assert_eq!(Request::parse("GET").unwrap_err(), HttpRequestError::InvalidTarget);
    assert_eq!(Request::parse("GET /a<b HTTP/1.1").unwrap_err(), HttpRequestError::InvalidTarget);
    assert_eq!(Request::parse("GET /index.html").unwrap_err(), HttpRequestError::InvalidVersion);
    // Two spaces make an empty target, which is not a URI.
    assert_eq!(Request::parse("GET  / HTTP/1.1").unwrap_err(), HttpRequestError::InvalidTarget);
}

#[test]
fn error_messages() {
    assert_eq!(HttpRequestError::InvalidMethod.message(), "Invalid Method");
    assert_eq!(HttpRequestError::InvalidTarget.message(), "Invalid Target path");
    assert_eq!(HttpRequestError::InvalidVersion.message(), "Invalid HTTP Version");
    assert_eq!(
        HttpRequestError::HeaderMapError(HeaderError::InvalidHeaderValue).message(),
        "Error: Invalid HeaderValue"
    );
    assert_eq!(HeaderError::InvalidHeaderName.message(), "Error: Invalid HeaderName");
}

#[test]
fn request_from_lines() {
    let data = lines(&[
        "GET /user-agent HTTP/1.1",
        "Host: localhost:4221",
        "User-Agent:   curl/7.64.1  ",
        "",
        "hello body",
    ]);
    let req = HttpRequest::from_string_line_collection(data.clone()).unwrap();
    assert_eq!(*req.get_req_ref().get_method(), Method::GET);
    assert_eq!(req.get_req_ref().resource_path(), "/user-agent");
    assert_eq!(req.get_body_content(), "hello body");
    let h = req.get_headers_ref();
    assert_eq!(h.len(), 2);
    assert_eq!(h.get("host").unwrap().as_bytes(), b"localhost:4221");
    assert_eq!(h.get("user-agent").unwrap().as_bytes(), b"curl/7.64.1");
    let names: Vec<&str> = h.iter().map(|(k, _)| k.as_str()).collect();
    assert_eq!(names, vec!["host", "user-agent"]);
    assert!(HttpRequest::try_from_string_line_collection(data).unwrap().is_ok());
}

#[test]
fn later_header_line_replaces_value() {
    let data = lines(&["GET / HTTP/1.1", "X-Id: 1", "Accept: */*", "x-id: 2", "", ""]);
    let req = HttpRequest::from_string_line_collection(data).unwrap();
    assert_eq!(req.headers.len(), 2);
    assert_eq!(req.headers.get("x-id").unwrap().as_bytes(), b"2");
    let names: Vec<&str> = req.headers.iter().map(|(k, _)| k.as_str()).collect();
    assert_eq!(names, vec!["x-id", "accept"]);
    assert_eq!(req.body, "");
}

#[test]
fn value_keeps_later_colons_and_trims_unicode_space() {
    let data = lines(&["GET / HTTP/1.1", "Host:\u{a0} example.org:80 \t"]);
    let req = HttpRequest::from_string_line_collection(data).unwrap();
    assert_eq!(req.headers.get("host").unwrap().as_bytes(), b"example.org:80");
    assert_eq!(req.body, "");
}

#[test]
fn lines_errors() {
    assert_eq!(
        HttpRequest::from_string_line_collection(vec![]).unwrap_err(),
        LinesError::MissingRequestLine
    );
    assert_eq!(
        HttpRequest::from_string_line_collection(lines(&["BREW / HTTP/1.1"])).unwrap_err(),
        LinesError::InvalidRequestLine(HttpRequestError::InvalidMethod)
    );
    assert_eq!(
        HttpRequest::from_string_line_collection(lines(&["GET / HTTP/1.1", "no colon here"]))
            .unwrap_err(),
        LinesError::InvalidHeader(HeaderError::InvalidHeaderValue)
    );
}

#[test]
fn lines_that_cannot_be_parsed() {
    // An empty line with nothing after it.
    assert!(HttpRequest::try_from_string_line_collection(lines(&["GET / HTTP/1.1", ""])).is_none());
    // A name with a space in it.
    assert!(HttpRequest::try_from_string_line_collection(lines(&["GET / HTTP/1.1", "Bad Name: x"]))
        .is_none());
    // A value with a control character.
    assert!(HttpRequest::try_from_string_line_collection(lines(&["GET / HTTP/1.1", "a: b\u{1}c"]))
        .is_none());
    // A refused request line is reported before any header line is looked at.
    assert!(matches!(
        HttpRequest::try_from_string_line_collection(lines(&["NOPE / HTTP/1.1", "Bad Name: x"])),
        Some(Err(LinesError::InvalidRequestLine(HttpRequestError::InvalidMethod)))
    ));
}

#[test]
fn request_text_to_lines() {
    let text = "GET /echo/x HTTP/1.1\r\nHost: a\r\nAccept: */*\r\n\r\nbody text";
    assert_eq!(
        split_request_text(text).unwrap(),
        vec!["GET /echo/x HTTP/1.1", "Host: a", "Accept: */*", "", "body text"]
    );
    // Only the head and the last piece are kept.
    assert_eq!(
        split_request_text("A\r\n\r\nmiddle\r\n\r\nlast").unwrap(),
        vec!["A", "", "last"]
    );
    assert_eq!(split_request_text("GET / HTTP/1.1\r\n\r\n").unwrap(), vec!["GET / HTTP/1.1", "", ""]);
    assert!(split_request_text("GET / HTTP/1.1\r\n").is_none());
}

#[test]
fn chunk_decoding() {
    let mut buf = b"GET / HTTP/1.1\r\n".to_vec();
    buf.extend_from_slice(&[0, 0, 0]);
    assert_eq!(decode_chunk(&buf), "GET / HTTP/1.1\r\n");
    assert_eq!(decode_chunk(&[b'a', 0, b'b']), "ab");
    assert_eq!(decode_chunk(&[0xff, b'x']), "\u{fffd}x");
    assert_eq!(decode_chunk("é".as_bytes()), "é");
}

#[test]
fn routes() {
    assert_eq!(route("/files/a.txt", Method::POST), Route::Upload);
    assert_eq!(route("/files/a.txt", Method::GET), Route::Download);
    assert_eq!(route("/file/echo/x", Method::PUT), Route::Echo);
    assert_eq!(route("/", Method::GET), Route::Index);
    assert_eq!(route("/index.html", Method::DELETE), Route::Index);
    assert_eq!(route("/echo/hello", Method::GET), Route::Echo);
    assert_eq!(route("/user-agent", Method::GET), Route::UserAgent);
    assert_eq!(route("/nothing", Method::GET), Route::NotFound);
    assert_eq!(route("/index.htm", Method::GET), Route::NotFound);
}

#[test]
fn lines_error_messages() {
    assert_eq!(LinesError::MissingRequestLine.message(), "Request data not found");
    assert_eq!(
        LinesError::InvalidRequestLine(HttpRequestError::InvalidMethod).message(),
        "InvalidMethod"
    );
    assert_eq!(
        LinesError::InvalidRequestLine(HttpRequestError::InvalidVersion).message(),
        "InvalidVersion"
    );
    assert_eq!(
        HttpRequestError::HeaderMapError(HeaderError::InvalidHeaderName).debug_name(),
        format!("{:?}", HttpRequestError::HeaderMapError(HeaderError::InvalidHeaderName))
    );
    assert_eq!(
        LinesError::InvalidHeader(HeaderError::InvalidHeaderValue).message(),
        "Error: Invalid HeaderValue"
    );
    let err = HttpRequest::from_string_line_collection(lines(&["FOO / HTTP/1.1", "Host: h"]))
        .unwrap_err();
    assert_eq!(err.message(), "InvalidMethod");
}

#[test]
fn chunking_does_not_matter() {
    let data = b"GET /echo/x HTTP/1.1\r\nHost: a\r\n\r\nbo\r\ndy";
    let whole = decode_chunk(data);
    let mut pieces = String::new();
    for chunk in data.chunks(3) {
        let mut buf = chunk.to_vec();
        buf.resize(8, 0);
        pieces.push_str(&decode_chunk(&buf));
    }
    assert_eq!(whole, pieces);
    assert_eq!(split_request_text(&whole), split_request_text(&pieces));
}

#[test]
fn text_to_request() {
    let text = "POST /files/n.txt HTTP/1.1\r\nHost: a\r\nX-A: 1\r\n\r\nline one\r\nline two";
    let req = HttpRequest::from_string_line_collection(split_request_text(text).unwrap()).unwrap();
    assert_eq!(*req.get_req_ref().get_method(), Method::POST);
    assert_eq!(req.get_req_ref().resource_path(), "/files/n.txt");
    assert_eq!(req.headers.get("x-a").unwrap().as_bytes(), b"1");
    assert_eq!(req.get_body_content(), "line one\r\nline two");
}

#[test]
fn many_distinct_headers_parse() {
    let mut data = vec!["GET / HTTP/1.1".to_string()];
    for k in 0..7000 {
        data.push(format!("h{}: {}", k, k));
    }
    let req = HttpRequest::try_from_string_line_collection(data).unwrap().unwrap();
    assert_eq!(req.headers.len(), 7000);
    assert_eq!(req.headers.get("h6999").unwrap().as_bytes(), b"6999");
}

#[test]
fn chunk_text_has_no_nul() {
    assert!(!decode_chunk(&[0, b'a', 0, 0xff, 0]).contains('\0'));
}
