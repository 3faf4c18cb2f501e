//! Framing, request decoding, body metering, and the multipart parser.

use webserv::body::{choose_body_mode, choose_upload_type, extract_boundary, BodyMode, BodyProgress, UploadType};
use webserv::http::Method;
use webserv::multipart::{deserialize_multipart_header, MpPhase, MpStep, MultipartParser};
use webserv::bytes::{ends_with, find_in, fmt_usize, parse_usize, trim_start};
use webserv::request::{frame, split_crlf, Request};

#[test]
fn byte_utilities_behave() {
    assert_eq!(find_in(b"hello world", b"o w"), Some(4));
    assert_eq!(find_in(b"hello", b"xyz"), None);
    assert!(ends_with(b"file.txt", b".txt"));
    assert!(!ends_with(b"file.txt", b".png"));
    assert_eq!(trim_start(b"   value"), b"value".to_vec());
    assert_eq!(trim_start(b"value"), b"value".to_vec());
    assert_eq!(parse_usize(b"1234"), Some(1234));
    assert_eq!(parse_usize(b""), None);
    assert_eq!(parse_usize(b"12a"), None);
    assert_eq!(parse_usize(b"99999999999999999999999999"), None);
    assert_eq!(fmt_usize(0), b"0".to_vec());
    assert_eq!(fmt_usize(9051), b"9051".to_vec());
}

fn parse(head: &[u8]) -> Request {
    Request::try_from(head).expect("well-formed head")
}

#[test]
fn frame_cuts_at_first_terminator() {
    let buf = b"GET / HTTP/1.1\r\nHost: x\r\n\r\nEXTRA".to_vec();
    let (head, tail) = frame(&buf).expect("terminator present");
    assert_eq!(head, b"GET / HTTP/1.1\r\nHost: x".to_vec());
    assert_eq!(tail, b"EXTRA".to_vec());
}

#[test]
fn frame_waits_for_terminator() {
    assert!(frame(b"GET / HTTP/1.1\r\nHost: x\r\n").is_none());
}

#[test]
fn split_crlf_keeps_lines() {
    let lines = split_crlf(b"a\r\nbb\r\n\r\nc");
    assert_eq!(lines, vec![b"a".to_vec(), b"bb".to_vec(), b"".to_vec(), b"c".to_vec()]);
}

#[test]
fn parse_simple_get() {
    let r = parse(b"GET /index.html HTTP/1.1\r\nHost: example");
    assert_eq!(*r.method(), Method::GET);
    assert_eq!(r.path(), &b"/index.html".to_vec());
    assert_eq!(r.http_version(), &b"HTTP/1.1".to_vec());
    assert_eq!(r.host(), Some(&b"example".to_vec()));
    assert!(r.query().is_none());
    assert!(r.keep_connection_alive());
}

#[test]
fn parse_splits_query() {
    let r = parse(b"GET /search?q=verus HTTP/1.1\r\nHost: x");
    assert_eq!(r.path(), &b"/search".to_vec());
    assert_eq!(r.query(), Some(&b"q=verus".to_vec()));
}

#[test]
fn parse_rejects_bad_start_line() {
    let err = Request::try_from(b"GET /\r\nHost: x").unwrap_err();
    assert_eq!(err.code(), 400);
}

#[test]
fn parse_rejects_duplicate_host() {
    let err = Request::try_from(b"GET / HTTP/1.1\r\nHost: a\r\nHost: b").unwrap_err();
    assert_eq!(err.code(), 400);
}

#[test]
fn parse_rejects_duplicate_content_length() {
    let err =
        Request::try_from(b"POST / HTTP/1.1\r\nContent-Length: 3\r\nContent-Length: 4").unwrap_err();
    assert_eq!(err.code(), 400);
}

#[test]
fn parse_rejects_bad_content_length() {
    let err = Request::try_from(b"POST / HTTP/1.1\r\nContent-Length: abc").unwrap_err();
    assert_eq!(err.code(), 400);
}

#[test]
fn parse_reads_content_length_and_type() {
    let r = parse(b"POST /up HTTP/1.1\r\nContent-Length: 42\r\nContent-Type: text/plain");
    assert_eq!(r.content_length(), Some(&42usize));
    assert_eq!(r.content_type(), Some(&b"text/plain".to_vec()));
}

#[test]
fn connection_close_clears_keep_alive() {
    let r = parse(b"GET / HTTP/1.1\r\nConnection: close");
    assert!(!r.keep_connection_alive());
}

#[test]
fn accept_values_concatenate_with_space() {
    let r = parse(b"GET / HTTP/1.1\r\nAccept: text/html\r\nAccept: text/css");
    assert_eq!(r.accept(), Some(&b"text/html text/css".to_vec()));
}

#[test]
fn other_duplicate_headers_concatenate_with_two_spaces() {
    let r = parse(b"GET / HTTP/1.1\r\nX-Tag: one\r\nX-Tag: two");
    assert_eq!(r.get(b"X-Tag"), Some(&b"one  two".to_vec()));
}

#[test]
fn unknown_method_is_kept_as_unknown() {
    let r = parse(b"BREW / HTTP/1.1\r\nHost: x");
    assert_eq!(*r.method(), Method::UNKNOWN);
}

#[test]
fn method_tokens_round_trip() {
    assert_eq!(Method::try_from_str(b"GET"), Ok(Method::GET));
    assert_eq!(Method::try_from_str(b"POST"), Ok(Method::POST));
    assert!(Method::try_from_str(b"BREW").is_err());
    assert_eq!(Method::GET.to_string(), "GET");
    assert_eq!(Method::UNKNOWN.to_string(), "UNKNOWN");
}

#[test]
fn pipelined_requests_frame_in_order() {
    let mut buf = Vec::new();
    buf.extend_from_slice(b"GET /a HTTP/1.1\r\nHost: x\r\n\r\n");
    buf.extend_from_slice(b"GET /a HTTP/1.1\r\nHost: x\r\n\r\n");
    let (head1, tail1) = frame(&buf).unwrap();
    let r1 = parse(&head1);
    assert_eq!(r1.path(), &b"/a".to_vec());
    let (head2, tail2) = frame(&tail1).unwrap();
    let r2 = parse(&head2);
    assert_eq!(r2.path(), &b"/a".to_vec());
    assert!(tail2.is_empty());
    assert!(r1.keep_connection_alive() && r2.keep_connection_alive());
}

#[test]
fn body_progress_meters_exact_length() {
    let mut p = BodyProgress::new(10);
    let (t1, rest1) = p.feed(b"abc");
    assert_eq!(t1, b"abc".to_vec());
    assert!(rest1.is_empty());
    let (t2, rest2) = p.feed(b"defg");
    assert_eq!(t2, b"defg".to_vec());
    assert!(rest2.is_empty());
    assert!(!p.done());
    let (t3, rest3) = p.feed(b"hijKLM");
    assert_eq!(t3, b"hij".to_vec());
    assert_eq!(rest3, b"KLM".to_vec());
    assert!(p.done());
    let mut all = Vec::new();
    all.extend_from_slice(&t1);
    all.extend_from_slice(&t2);
    all.extend_from_slice(&t3);
    assert_eq!(all, b"abcdefghij".to_vec());
}

#[test]
fn body_progress_drains_nothing_when_done() {
    let mut p = BodyProgress::new(0);
    assert!(p.done());
    let (taken, rest) = p.feed(b"next request");
    assert!(taken.is_empty());
    assert_eq!(rest, b"next request".to_vec());
}

#[test]
fn upload_type_follows_content_type() {
    let r = parse(b"POST /u HTTP/1.1\r\nContent-Type: multipart/form-data; boundary=XYZ");
    assert_eq!(choose_upload_type(&r), UploadType::Multipart);
    let r2 = parse(b"POST /u HTTP/1.1\r\nContent-Type: text/plain");
    assert_eq!(choose_upload_type(&r2), UploadType::Normal);
}

#[test]
fn boundary_is_extracted_with_wire_prefix() {
    let ct = b"multipart/form-data; boundary=XYZ".to_vec();
    assert_eq!(extract_boundary(Some(&ct)), Some(b"--XYZ".to_vec()));
    let ct2 = b"multipart/form-data; boundary=AB CD".to_vec();
    assert_eq!(extract_boundary(Some(&ct2)), Some(b"--AB".to_vec()));
    let ct3 = b"text/plain".to_vec();
    assert_eq!(extract_boundary(Some(&ct3)), None);
    assert_eq!(extract_boundary(None), None);
}

#[test]
fn body_mode_requires_upload_folder_for_post() {
    let r = parse(b"POST /u HTTP/1.1\r\nContent-Length: 5");
    let err = choose_body_mode(&r, false, false).unwrap_err();
    assert_eq!(err.code(), 404);
    match choose_body_mode(&r, true, true).unwrap() {
        BodyMode::SingleFile(n) => assert_eq!(n, 5),
        other => panic!("unexpected mode: {:?}", other),
    }
}

#[test]
fn body_mode_without_length_is_none() {
    let r = parse(b"GET / HTTP/1.1\r\nHost: x");
    assert_eq!(choose_body_mode(&r, false, false).unwrap(), BodyMode::NoBody);
}

#[test]
fn body_mode_drains_non_post() {
    let r = parse(b"DELETE / HTTP/1.1\r\nContent-Length: 7");
    assert_eq!(choose_body_mode(&r, false, false).unwrap(), BodyMode::Drain(7));
}

#[test]
fn multipart_header_names_the_file() {
    let mf = deserialize_multipart_header(
        b"Content-Disposition: form-data; filename=\"f.txt\"",
    )
    .unwrap();
    assert_eq!(mf.filename, b"f.txt".to_vec());
    assert!(mf.content_type.is_none());
}

#[test]
fn multipart_header_without_disposition_is_temp() {
    let mf = deserialize_multipart_header(b"Content-Type: text/plain").unwrap();
    assert_eq!(mf.filename, b"temp".to_vec());
    assert_eq!(mf.content_type, Some(b"text/plain".to_vec()));
}

#[test]
fn multipart_header_rejects_unquoted_filename() {
    let err = deserialize_multipart_header(b"Content-Disposition: form-data; filename=f.txt")
        .unwrap_err();
    assert_eq!(err.code(), 500);
}

#[test]
fn multipart_upload_writes_the_part() {
    let body =
        b"--XYZ\r\nContent-Disposition: form-data; filename=\"f.txt\"\r\n\r\nhello\r\n--XYZ--\r\n";
    let mut parser = MultipartParser::new(b"--XYZ".to_vec(), body.len());
    parser.push(body);
    let mut opened: Vec<Vec<u8>> = Vec::new();
    let mut written: Vec<u8> = Vec::new();
    let mut closed = 0;
    let tail = loop {
        match parser.step() {
            MpStep::Progress => (),
            MpStep::OpenFile(name) => opened.push(name),
            MpStep::Write(data) => written.extend_from_slice(&data),
            MpStep::CloseFile => closed += 1,
            MpStep::Finished(tail) => break tail,
            other => panic!("unexpected step: {:?}", other),
        }
    };
    assert_eq!(opened, vec![b"f.txt".to_vec()]);
    assert_eq!(written, b"hello".to_vec());
    assert_eq!(closed, 1);
    assert!(tail.is_empty());
    assert_eq!(parser.phase, MpPhase::Done);
}

#[test]
fn multipart_upload_handles_straddled_boundary() {
    let body =
        b"--XYZ\r\nContent-Disposition: form-data; filename=\"g.bin\"\r\n\r\n0123456789\r\n--XYZ--\r\n";
    let mut parser = MultipartParser::new(b"--XYZ".to_vec(), body.len());
    let mut fed = 0;
    let mut written: Vec<u8> = Vec::new();
    let tail = loop {
        match parser.step() {
            MpStep::NeedMore => {
                assert!(fed < body.len(), "parser starved");
                let take = std::cmp::min(3, body.len() - fed);
                parser.push(&body[fed..fed + take]);
                fed += take;
            }
            MpStep::Progress | MpStep::OpenFile(_) | MpStep::CloseFile => (),
            MpStep::Write(data) => written.extend_from_slice(&data),
            MpStep::Finished(tail) => break tail,
            other => panic!("unexpected step: {:?}", other),
        }
    };
    assert_eq!(written, b"0123456789".to_vec());
    assert!(tail.is_empty());
}

#[test]
fn multipart_rejects_wrong_boundary() {
    let body = b"--ABC\r\nContent-Disposition: form-data; filename=\"f\"\r\n\r\nx\r\n--ABC--\r\n";
    let mut parser = MultipartParser::new(b"--XYZ".to_vec(), body.len());
    parser.push(body);
    match parser.step() {
        MpStep::Failed(rc) => assert_eq!(rc.code(), 400),
        other => panic!("unexpected step: {:?}", other),
    }
    assert_eq!(parser.phase, MpPhase::Error);
}

#[test]
fn multipart_rejects_length_mismatch() {
    let body =
        b"--XYZ\r\nContent-Disposition: form-data; filename=\"f.txt\"\r\n\r\nhello\r\n--XYZ--\r\n";
    let mut parser = MultipartParser::new(b"--XYZ".to_vec(), body.len() + 3);
    parser.push(body);
    loop {
        match parser.step() {
            MpStep::Progress | MpStep::OpenFile(_) | MpStep::Write(_) | MpStep::CloseFile => (),
            MpStep::Failed(rc) => {
                assert_eq!(rc.code(), 500);
                break;
            }
            other => panic!("unexpected step: {:?}", other),
        }
    }
}
