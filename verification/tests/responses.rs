use http_server::handlers::{
    echo_response, file_response, process_buffer_to_response_buffer, response_raw_vec,
    response_to_raw_string, upload_response, user_agent_response,
};
use http_server::objects::{create_data_response, create_err_response, HttpRequest, Response};
use http_server::protocol::ProtocolVersion;

#[test]
fn data_response_text() {
    assert_eq!(
        response_to_raw_string(create_data_response()),
        "HTTP/1.1 200 OK\r\ncontent-type: text/plain\r\nContent-Length: 1\r\n\r\n \n"
    );
}

#[test]
fn err_response_text() {
    assert_eq!(
        response_to_raw_string(create_err_response()),
        "HTTP/1.1 404 Not Found\r\ncontent-type: text/plain\r\nContent-Length: 15\r\n\r\nInvalid request\n"
    );
}

#[test]
fn upload_answers() {
    assert_eq!(
        upload_response(true),
        "HTTP/1.1 201 Created\r\ncontent-type: text/plain\r\nContent-Length: 1\r\n\r\n \n"
    );
    assert_eq!(upload_response(false), response_to_raw_string(create_err_response()));
}

#[test]
fn content_length_counts_bytes() {
    let r = Response::new("héllo".to_string());
    assert_eq!(
        response_to_raw_string(r),
        "HTTP/1.1 200 OK\r\ncontent-type: text/plain\r\nContent-Length: 6\r\n\r\nhéllo\n"
    );
    let long = "x".repeat(1234);
    let out = response_to_raw_string(Response::new(long.clone()));
    assert!(out.contains("Content-Length: 1234\r\n"));
    assert!(out.ends_with(&format!("{}\n", long)));
}

#[test]
fn existing_content_type_is_kept() {
    let mut r = Response::new("{}".to_string());
    r.set_header("X-Trace", "abc");
    r.set_header("Content-Type", "application/json");
    assert_eq!(
        response_to_raw_string(r),
        "HTTP/1.1 200 OK\r\nx-trace: abc\r\ncontent-type: application/json\r\nContent-Length: 2\r\n\r\n{}\n"
    );
}

#[test]
fn set_header_replaces_value() {
    let mut r = Response::new(String::new());
    r.set_header("A", "1");
    r.set_header("b", "2");
    r.set_header("a", "3");
    assert_eq!(r.headers.len(), 2);
    assert_eq!(r.headers.get("a").unwrap().as_bytes(), b"3");
    assert_eq!(
        response_to_raw_string(r),
        "HTTP/1.1 200 OK\r\na: 3\r\nb: 2\r\ncontent-type: text/plain\r\nContent-Length: 0\r\n\r\n\n"
    );
}

#[test]
fn header_value_that_is_not_text_renders_empty() {
    let mut r = Response::new(String::new());
    r.set_header("x-name", "caf\u{e9}");
    assert_eq!(
        response_to_raw_string(r),
        "HTTP/1.1 200 OK\r\nx-name: \r\ncontent-type: text/plain\r\nContent-Length: 0\r\n\r\n\n"
    );
}

#[test]
fn other_versions_and_statuses() {
    let mut r = Response::new(b"abc".to_vec());
    r.version = ProtocolVersion::Http2;
    r.status = 503;
    assert_eq!(
        response_raw_vec(r),
        "HTTP/2.0 503 Service Unavailable\r\ncontent-type: text/plain\r\nContent-Length: 3\r\n\r\nabc"
    );
    let mut r = Response::new(Vec::new());
    r.version = ProtocolVersion::Http10;
    r.status = 599;
    assert_eq!(
        response_raw_vec(r),
        "HTTP/1.0 599 \r\ncontent-type: text/plain\r\nContent-Length: 0\r\n\r\n"
    );
}

#[test]
fn reasons() {
    let mut r = Response::new(String::new());
    r.status = 999;
    assert!(response_to_raw_string(r).starts_with("HTTP/1.1 999 \r\n"));
    let mut r = Response::new(String::new());
    r.status = 100;
    assert!(response_to_raw_string(r).starts_with("HTTP/1.1 100 Continue\r\n"));
}

#[test]
fn buffer_response() {
    assert_eq!(
        process_buffer_to_response_buffer(b"abc".to_vec()),
        b"HTTP/1.1 200 OK\r\ncontent-type: text/plain\r\nContent-Length: 3\r\n\r\nabc".to_vec()
    );
    assert_eq!(
        process_buffer_to_response_buffer("é".as_bytes().to_vec()),
        "HTTP/1.1 200 OK\r\ncontent-type: text/plain\r\nContent-Length: 2\r\n\r\né".as_bytes().to_vec()
    );
}

#[test]
fn echo_answer() {
    assert_eq!(
        echo_response("/echo/hello"),
        b"HTTP/1.1 200 OK\r\ncontent-type: text/plain\r\nContent-Length: 5\r\n\r\nhello".to_vec()
    );
}

#[test]
fn file_answer() {
    assert_eq!(
        file_response(b"data".to_vec()).unwrap(),
        b"HTTP/1.1 200 OK\r\ncontent-type: application/octet-stream\r\nContent-Length: 4\r\n\r\ndata"
            .to_vec()
    );
    assert_eq!(file_response(vec![0xff, 0xfe]), None);
}

fn request_with(header_lines: &[&str]) -> HttpRequest {
    let mut data = vec!["GET /user-agent HTTP/1.1".to_string()];
    data.extend(header_lines.iter().map(|s| s.to_string()));
    HttpRequest::from_string_line_collection(data).unwrap()
}

#[test]
fn user_agent_answer() {
    let mut req = request_with(&["Host: a", "User-Agent: foobar/1.2.3", "Accept: */*"]);
    assert_eq!(
        user_agent_response(&mut req).unwrap(),
        b"HTTP/1.1 200 OK\r\ncontent-type: text/plain\r\nContent-Length: 12\r\n\r\nfoobar/1.2.3".to_vec()
    );
    assert!(req.headers.get("user-agent").is_none());
    let names: Vec<&str> = req.headers.iter().map(|(k, _)| k.as_str()).collect();
    assert_eq!(names, vec!["host", "accept"]);
}

#[test]
fn user_agent_missing_is_none() {
    let mut req = request_with(&["Host: a"]);
    assert_eq!(
        user_agent_response(&mut req).unwrap(),
        b"HTTP/1.1 200 OK\r\ncontent-type: text/plain\r\nContent-Length: 4\r\n\r\nnone".to_vec()
    );
}

#[test]
fn user_agent_not_text() {
    let mut req = request_with(&["User-Agent: caf\u{e9}"]);
    assert!(user_agent_response(&mut req).is_none());
}

#[test]
fn header_count_and_reason_phrase() {
    let mut r = Response::new(String::new());
    assert_eq!(r.header_count(), 0);
    r.set_header("A", "1");
    r.set_header("B", "2");
    r.set_header("a", "3");
    assert_eq!(r.header_count(), 2);
    assert_eq!(http_server::protocol::reason_phrase(201), Some("Created"));
    assert_eq!(http_server::protocol::reason_phrase(404), Some("Not Found"));
    assert_eq!(http_server::protocol::reason_phrase(999), None);
}
