//! Response serialization, the directory listing, status codes, MIME
//! lookups, and the CGI gateway's decisions.

use webserv::body::BodyProgress;
use webserv::cgi::{cgi_envs, cgi_exit_outcome, is_cgi, keep_connection_after_error};
use webserv::config::{Server, ServerBlock};
use webserv::http::{
    content_type_to_extension, extension_to_content_type, is_redirect_status_code, status_text,
    IoErrorKind, Method, ResponseCode, State,
};
use webserv::request::{frame, Request, RequestError};
use webserv::response::{build_auto_index, Body, Response};

fn parse(head: &[u8]) -> Request {
    Request::try_from(head).expect("well-formed head")
}

fn find(hay: &[u8], needle: &[u8]) -> bool {
    hay.windows(needle.len()).any(|w| w == needle)
}

#[test]
fn status_codes_carry_their_reason() {
    assert_eq!(status_text(200), b"OK".to_vec());
    assert_eq!(status_text(404), b"Not Found".to_vec());
    assert_eq!(status_text(413), b"Payload Too Large".to_vec());
    assert_eq!(status_text(599), b"".to_vec());
    let rc = ResponseCode::from_code(405);
    assert_eq!(rc.code(), 405);
    assert_eq!(rc.msg(), &b"Method Not Allowed".to_vec());
}

#[test]
fn io_errors_map_to_status_codes() {
    assert_eq!(ResponseCode::from_error(IoErrorKind::NotFound).code(), 404);
    assert_eq!(ResponseCode::from_error(IoErrorKind::PermissionDenied).code(), 403);
    assert_eq!(ResponseCode::from_error(IoErrorKind::ConnectionRefused).code(), 503);
    assert_eq!(ResponseCode::from_error(IoErrorKind::TimedOut).code(), 524);
    assert_eq!(ResponseCode::from_error(IoErrorKind::WriteZero).code(), 500);
    assert_eq!(ResponseCode::from_code(404).into_error(), IoErrorKind::NotFound);
    assert_eq!(ResponseCode::from_code(500).into_error(), IoErrorKind::Other);
}

#[test]
fn redirect_codes_are_recognized() {
    assert!(is_redirect_status_code(301));
    assert!(is_redirect_status_code(302));
    assert!(is_redirect_status_code(303));
    assert!(is_redirect_status_code(307));
    assert!(!is_redirect_status_code(200));
    assert!(!is_redirect_status_code(308));
}

#[test]
fn mime_lookups_work_both_ways() {
    assert_eq!(content_type_to_extension(b"text/html"), Some("html"));
    assert_eq!(content_type_to_extension(b"application/json"), Some("json"));
    assert_eq!(content_type_to_extension(b"text/unknown"), None);
    assert_eq!(extension_to_content_type(b"html"), Some("text/html"));
    assert_eq!(extension_to_content_type(b".png"), Some("image/png"));
    assert_eq!(extension_to_content_type(b"nope"), None);
}

#[test]
fn state_checks_compare_variants() {
    assert!(State::Undefined.is(State::Undefined));
    assert!(!State::OnBody.is(State::Finished));
    assert!(State::OnBody.is_not(State::Finished));
    assert!(!State::OnBody.is_not(State::OnBody));
}

#[test]
fn request_error_constructors() {
    let e = RequestError::from_string(b"bad".to_vec());
    assert!(e.invalid_request && !e.io_error);
    let e2 = RequestError::from_io(IoErrorKind::TimedOut, b"slow".to_vec());
    assert!(e2.io_error && e2.io_error_kind == Some(IoErrorKind::TimedOut));
    let e3 = RequestError::default();
    assert!(!e3.invalid_request && !e3.io_error);
}

#[test]
fn body_variants_hold_their_source() {
    let b = Body::from_string(b"text".to_vec());
    assert_eq!(b.string, Some(b"text".to_vec()));
    assert!(b.path.is_none());
    let b2 = Body::from_path(b"/srv/f".to_vec());
    assert_eq!(b2.path, Some(b"/srv/f".to_vec()));
}

#[test]
fn static_get_wire_response() {
    let mut resp = Response::new(ResponseCode::from_code(200), Method::GET);
    resp.set_content(b"hi".to_vec());
    let wire = resp.wire_bytes();
    assert!(wire.starts_with(b"HTTP/1.1 200 OK\r\n"));
    assert!(find(&wire, b"Content-Length: 2\r\n"));
    assert!(wire.ends_with(b"\r\nhi\r\n"));
}

#[test]
fn content_length_matches_emitted_body() {
    let mut resp = Response::new(ResponseCode::from_code(200), Method::GET);
    resp.set_content(b"0123456789".to_vec());
    let wire = resp.wire_bytes();
    let head_end = wire.windows(4).position(|w| w == b"\r\n\r\n").unwrap();
    let body = &wire[head_end + 4..wire.len() - 2];
    assert!(find(&wire[..head_end], format!("Content-Length: {}", body.len()).as_bytes()));
    assert_eq!(body, b"0123456789");
}

#[test]
fn head_and_no_content_codes_omit_the_body() {
    let mut head_resp = Response::new(ResponseCode::from_code(200), Method::HEAD);
    head_resp.set_content(b"hidden".to_vec());
    let wire = head_resp.wire_bytes();
    assert!(!find(&wire, b"hidden"));
    assert!(!find(&wire, b"Content-Length"));

    let mut nc = Response::new(ResponseCode::from_code(204), Method::GET);
    nc.set_content(b"hidden".to_vec());
    let wire2 = nc.wire_bytes();
    assert!(!find(&wire2, b"hidden"));
    assert!(!find(&wire2, b"Content-Length"));
    assert!(!nc.body_allowed());

    let mut nm = Response::new(ResponseCode::from_code(304), Method::GET);
    assert!(!nm.body_allowed());
    let _ = nm.serialize_header();
}

#[test]
fn redirect_response_carries_location_header() {
    let rc = ResponseCode::new_redirect(301, b"Moved Permanently", b"/sub/".to_vec());
    let mut resp = Response::new(rc, Method::GET);
    let wire = resp.wire_bytes();
    assert!(wire.starts_with(b"HTTP/1.1 301 Moved Permanently\r\n"));
    assert!(find(&wire, b"Location: /sub/\r\n"));
}

#[test]
fn file_body_length_is_used_for_content_length() {
    let resp = Response::new(ResponseCode::from_code(200), Method::GET);
    let mut resp = resp.file(1234);
    let head = resp.serialize_header();
    assert!(find(&head, b"Content-Length: 1234\r\n"));
}

#[test]
fn add_header_replaces_same_name() {
    let mut resp = Response::new(ResponseCode::from_code(200), Method::GET);
    resp.add_header(b"X-A".to_vec(), b"1".to_vec());
    resp.add_header(b"X-A".to_vec(), b"2".to_vec());
    let head = resp.serialize_header();
    assert!(find(&head, b"X-A: 2\r\n"));
    assert!(!find(&head, b"X-A: 1\r\n"));
}

#[test]
fn auto_index_lists_visible_entries_sorted() {
    let entries = vec![
        b"zeta".to_vec(),
        b".hidden".to_vec(),
        b"alpha".to_vec(),
        b"midway".to_vec(),
    ];
    let resp = build_auto_index(b"pub", &entries, Method::GET);
    assert_eq!(resp.code.code, 200);
    let html = &resp.content;
    assert!(find(html, b"Index of pub"));
    assert!(!find(html, b".hidden"));
    let a = html.windows(5).position(|w| w == b"alpha").unwrap();
    let m = html.windows(6).position(|w| w == b"midway").unwrap();
    let z = html.windows(4).position(|w| w == b"zeta").unwrap();
    assert!(a < m && m < z, "entries are sorted ascending");
    assert!(find(html, b"<a href=\"alpha\">alpha</a>"));
}

#[test]
fn is_cgi_checks_the_extension_map() {
    let b = ServerBlock {
        directives: vec![(b"root".to_vec(), vec![b"/srv".to_vec()])],
        locations: Vec::new(),
        cgi: vec![(b"py".to_vec(), b"/usr/bin/python3".to_vec())],
    };
    let servers = Server::init_servers(&vec![b]).unwrap();
    let cfg = servers[0].effective_config();
    let r = parse(b"GET /app/run.py HTTP/1.1\r\nHost: x");
    assert!(is_cgi(&cfg, &r));
    let r2 = parse(b"GET /app/page.html HTTP/1.1\r\nHost: x");
    assert!(!is_cgi(&cfg, &r2));
    let r3 = parse(b"GET /app/noext HTTP/1.1\r\nHost: x");
    assert!(!is_cgi(&cfg, &r3));
}

#[test]
fn cgi_environment_is_built_from_the_request() {
    let r = parse(
        b"POST /run.py?x=1 HTTP/1.1\r\nHost: h\r\nContent-Length: 3\r\nContent-Type: text/plain\r\nAccept: */*\r\nX-Custom-Token: abc",
    );
    let env = cgi_envs(&r);
    let get = |k: &[u8]| -> Option<Vec<u8>> {
        env.iter().find(|p| p.0 == k).map(|p| p.1.clone())
    };
    assert_eq!(get(b"REQUEST_METHOD"), Some(b"POST".to_vec()));
    assert_eq!(get(b"HTTP_CONNECTION"), Some(b"keep-alive".to_vec()));
    assert_eq!(get(b"CONTENT_LENGTH"), Some(b"3".to_vec()));
    assert_eq!(get(b"HTTP_CONTENT_TYPE"), Some(b"text/plain".to_vec()));
    assert_eq!(get(b"HTTP_ACCEPT"), Some(b"*/*".to_vec()));
    assert_eq!(get(b"HTTP_HOST"), Some(b"h".to_vec()));
    assert_eq!(get(b"HTTP_X_CUSTOM_TOKEN"), Some(b"abc".to_vec()));
    assert_eq!(get(b"QUERY_STRING"), Some(b"x=1".to_vec()));
}

#[test]
fn cgi_environment_query_defaults_to_empty() {
    let r = parse(b"GET /run.py HTTP/1.1\r\nConnection: close");
    let env = cgi_envs(&r);
    let get = |k: &[u8]| -> Option<Vec<u8>> {
        env.iter().find(|p| p.0 == k).map(|p| p.1.clone())
    };
    assert_eq!(get(b"QUERY_STRING"), Some(b"".to_vec()));
    assert_eq!(get(b"HTTP_CONNECTION"), Some(b"close".to_vec()));
}

#[test]
fn cgi_exit_status_decides_the_outcome() {
    assert!(cgi_exit_outcome(true).is_ok());
    assert_eq!(cgi_exit_outcome(false).unwrap_err().code(), 500);
}

#[test]
fn keep_alive_policy_after_errors() {
    assert!(keep_connection_after_error(true, IoErrorKind::Other));
    assert!(!keep_connection_after_error(true, IoErrorKind::UnexpectedEof));
    assert!(!keep_connection_after_error(false, IoErrorKind::Other));
}

#[test]
fn upload_round_trip_matches_the_body() {
    let body: Vec<u8> = (0u8..=99).collect();
    let mut progress = BodyProgress::new(body.len());
    let mut written = Vec::new();
    for chunk in body.chunks(7) {
        let (taken, rest) = progress.feed(chunk);
        written.extend_from_slice(&taken);
        assert!(rest.is_empty());
    }
    assert!(progress.done());
    assert_eq!(written, body, "the file holds exactly the body");
}

#[test]
fn pipelined_responses_leave_in_order() {
    let mut buf = Vec::new();
    buf.extend_from_slice(b"GET /a HTTP/1.1\r\nHost: x\r\n\r\nGET /b HTTP/1.1\r\nHost: x\r\n\r\n");
    let mut out = Vec::new();
    let mut rest = buf;
    while let Some((head, tail)) = frame(&rest) {
        let req = Request::try_from(head.as_slice()).unwrap();
        let mut resp = Response::new(ResponseCode::from_code(200), *req.method());
        resp.set_content(req.path().clone());
        out.push(resp.wire_bytes());
        rest = tail;
    }
    assert_eq!(out.len(), 2);
    assert!(out[0].ends_with(b"\r\n/a\r\n"));
    assert!(out[1].ends_with(b"\r\n/b\r\n"));
}
