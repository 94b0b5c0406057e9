use minihttp::assemble::assemble;
use minihttp::head::decode_head;
use minihttp::headers::HeaderMap;
use minihttp::length::parse_content_length;
use minihttp::mem::MemTransport;
use minihttp::method::Method;
use minihttp::request::Request;
use minihttp::response::{IntoResponse, Response};
use minihttp::router::{Handler, Router};
use minihttp::scan::{memmem, HeadScanner};
use minihttp::server::{ServeError, Server};
use minihttp::FramingError;

struct StatusHandler(u16);

impl Handler for StatusHandler {
    fn call(&mut self, _req: Request) -> Response {
        Response::new().status_code(self.0)
    }
}

struct EchoHandler;

impl Handler for EchoHandler {
    fn call(&mut self, req: Request) -> Response {
        Response::new().body(req.body)
    }
}

#[test]
fn method_token_round_trip() {
    assert_eq!(Method::from_token(b"GET"), Ok(Method::Get));
    assert_eq!(Method::from_token(b"POST"), Ok(Method::Post));
    assert_eq!(Method::from_token(b"DELETE"), Ok(Method::Delete));
    assert_eq!(Method::from_token(b"PUT"), Ok(Method::Put));
    assert_eq!(Method::from_token(b"OPTIONS"), Ok(Method::Options));
    assert_eq!(Method::from_token(b"CONNECT"), Ok(Method::Connect));
    assert_eq!(Method::from_token(b"HEAD"), Ok(Method::Head));
    assert_eq!(Method::from_token(b"PATCH"), Ok(Method::Patch));
    assert_eq!(Method::from_token(b"TRACE"), Ok(Method::Trace));
    assert_eq!(Method::Get.token_bytes(), b"GET".to_vec());
    assert_eq!(Method::Trace.token_bytes(), b"TRACE".to_vec());
}

#[test]
fn method_unknown_token_is_error() {
    assert!(Method::from_token(b"BREW").is_err());
    assert!(Method::from_token(b"get").is_err());
    assert!(Method::from_token(b"").is_err());
    assert!(Method::from_str("G ET").is_err());
    assert!(Method::from_str("PATCH").is_ok());
}

#[test]
fn memmem_finds_first_occurrence() {
    assert_eq!(memmem(b"abcabc", b"bc"), Some(1));
    assert_eq!(memmem(b"aaaa", b"ab"), None);
    assert_eq!(memmem(b"xy", b"xyz"), None);
    assert_eq!(memmem(b"a\r\n\r\nb", b"\r\n\r\n"), Some(1));
}

#[test]
fn scanner_spans_chunk_boundary() {
    let mut scanner = HeadScanner::new();
    assert_eq!(scanner.push_chunk(b"GET / HTTP/1.1\r\n\r"), None);
    assert_eq!(scanner.push_chunk(b"\n"), Some(14));
}

#[test]
fn scanner_finds_delimiter_in_one_chunk() {
    let mut scanner = HeadScanner::new();
    assert_eq!(scanner.push_chunk(b"a\r\n\r\nrest"), Some(1));
}

#[test]
fn content_length_parses_exact_values() {
    assert_eq!(parse_content_length(b"0"), Ok(0));
    assert_eq!(parse_content_length(b"5"), Ok(5));
    assert_eq!(parse_content_length(b"123"), Ok(123));
    assert_eq!(parse_content_length(b"007"), Ok(7));
}

#[test]
fn content_length_rejects_bad_values() {
    assert_eq!(parse_content_length(b""), Err(FramingError::BadContentLength));
    assert_eq!(parse_content_length(b"12a"), Err(FramingError::BadContentLength));
    assert_eq!(parse_content_length(b"-1"), Err(FramingError::BadContentLength));
    assert_eq!(
        parse_content_length(b"99999999999999999999999999999"),
        Err(FramingError::BadContentLength)
    );
}

#[test]
fn decode_head_reads_all_fields() {
    let head = b"GET /x HTTP/1.1\r\nHost: a\r\nContent-Length: 5";
    let d = decode_head(head).unwrap();
    assert_eq!(d.method, Method::Get);
    assert_eq!(d.path, "/x");
    assert_eq!(d.version, "1");
    assert_eq!(d.headers.len(), 2);
    let (n0, v0) = d.headers.get(0);
    assert_eq!((n0.as_str(), v0.as_str()), ("Host", "a"));
    let (n1, v1) = d.headers.get(1);
    assert_eq!((n1.as_str(), v1.as_str()), ("Content-Length", "5"));
    assert_eq!(d.content_length, Some(b"5".to_vec()));
}

#[test]
fn decode_head_is_case_sensitive_for_content_length() {
    let head = b"GET /x HTTP/1.1\r\ncontent-length: 5";
    let d = decode_head(head).unwrap();
    assert_eq!(d.content_length, None);
}

#[test]
fn decode_head_last_content_length_wins() {
    let head = b"GET /x HTTP/1.1\r\nContent-Length: 5\r\nContent-Length: 7";
    let d = decode_head(head).unwrap();
    assert_eq!(d.content_length, Some(b"7".to_vec()));
}

#[test]
fn decode_head_rejects_garbage() {
    assert!(decode_head(b"NOPE").is_err());
    assert!(decode_head(b"GET /x HTTP/2.1").is_err());
    assert!(decode_head(b"BREW /x HTTP/1.1").is_err());
    assert!(decode_head(b"GET  HTTP/1.1").is_err());
    assert!(decode_head(b"GET /x HTTP/1.1\r\nno-colon-here").is_err());
}

#[test]
fn assemble_body_in_two_reads_without_overreading() {
    // 45 head bytes, so three-byte reads end exactly at the body;
    // the five body bytes then arrive as a read of 3 and a read of 2.
    let mut data = b"POST /uploads HTTP/1.1\r\nContent-Length: 5\r\n\r\n".to_vec();
    assert_eq!(data.len() % 3, 0);
    data.extend_from_slice(b"helloXYZ");
    let mut t = MemTransport::with_read_limit(data, 3);
    let req = assemble(&mut t).unwrap();
    assert_eq!(req.method, Method::Post);
    assert_eq!(req.path, "/uploads");
    assert_eq!(req.body, "hello");
    // the trailing bytes were never read
    assert_eq!(t.remaining(), 3);
}

#[test]
fn assemble_without_content_length_gives_empty_body() {
    let data = b"GET / HTTP/1.1\r\nHost: h\r\n\r\ntrailing junk".to_vec();
    let mut t = MemTransport::new(data);
    let req = assemble(&mut t).unwrap();
    assert_eq!(req.method, Method::Get);
    assert_eq!(req.path, "/");
    assert_eq!(req.body, "");
}

#[test]
fn assemble_reports_eof_before_delimiter() {
    let mut t = MemTransport::new(b"GET / HTTP".to_vec());
    assert!(matches!(assemble(&mut t), Err(FramingError::UnexpectedEof)));
}

#[test]
fn assemble_reports_eof_inside_body() {
    let mut t = MemTransport::new(b"GET / HTTP/1.1\r\nContent-Length: 10\r\n\r\nabc".to_vec());
    assert!(matches!(assemble(&mut t), Err(FramingError::UnexpectedEof)));
}

#[test]
fn assemble_reports_bad_content_length() {
    let mut t = MemTransport::new(b"GET / HTTP/1.1\r\nContent-Length: x5\r\n\r\n".to_vec());
    assert!(matches!(assemble(&mut t), Err(FramingError::BadContentLength)));
}

#[test]
fn assemble_reports_malformed_head() {
    let mut t = MemTransport::new(b"NOPE\r\n\r\n".to_vec());
    assert!(matches!(assemble(&mut t), Err(FramingError::MalformedHead)));
}

#[test]
fn duplicate_route_registration_fails() {
    let router = Router::new()
        .add(Method::Get, "/a".to_string(), StatusHandler(200))
        .unwrap();
    assert!(router
        .add(Method::Get, "/a".to_string(), StatusHandler(500))
        .is_err());
}

#[test]
fn same_path_other_method_is_no_duplicate() {
    let router = Router::new()
        .add(Method::Get, "/a".to_string(), StatusHandler(200))
        .unwrap();
    assert!(router
        .add(Method::Post, "/a".to_string(), StatusHandler(201))
        .is_ok());
}

#[test]
fn resolve_finds_registered_pair_only() {
    let router = Router::new()
        .get("/a".to_string(), StatusHandler(200))
        .unwrap()
        .add(Method::Post, "/b".to_string(), StatusHandler(201))
        .unwrap();
    assert_eq!(router.lookup_handler(Method::Get, "/a"), Some(0));
    assert_eq!(router.lookup_handler(Method::Post, "/b"), Some(1));
    assert_eq!(router.lookup_handler(Method::Post, "/a"), None);
    assert_eq!(router.lookup_handler(Method::Get, "/b"), None);
    assert_eq!(router.lookup_handler(Method::Get, "/c"), None);
}

#[test]
fn echo_scenario_round_trips_body() {
    let router = Router::new().get("/echo".to_string(), EchoHandler).unwrap();
    let mut server = Server::new(router);
    let mut t = MemTransport::new(
        b"GET /echo HTTP/1.1\r\nContent-Length: 5\r\n\r\nhello".to_vec(),
    );
    assert_eq!(server.handle_connection(&mut t), Ok(()));
    assert_eq!(t.written_bytes().as_slice(), b"HTTP/1.1 200 OK\r\n\r\nhello");
}

#[test]
fn unregistered_path_is_unresolved() {
    let router = Router::new().get("/echo".to_string(), EchoHandler).unwrap();
    assert_eq!(router.lookup_handler(Method::Get, "/nope"), None);
    let mut server = Server::new(router);
    let mut t = MemTransport::new(b"GET /nope HTTP/1.1\r\n\r\n".to_vec());
    assert_eq!(server.handle_connection(&mut t), Err(ServeError::Unresolved));
    assert_eq!(t.written_bytes().len(), 0);
}

#[test]
fn response_builder_chains() {
    let r = Response::new();
    assert_eq!(r.status_code, 200);
    assert!(r.body.is_none());
    assert_eq!(r.headers.len(), 0);
    let r = r.status_code(404).body("gone".to_string());
    assert_eq!(r.status_code, 404);
    assert_eq!(r.body.as_deref(), Some("gone"));
}

#[test]
fn string_becomes_default_response() {
    let r = "hi".to_string().into_response();
    assert_eq!(r.status_code, 200);
    assert_eq!(r.body.as_deref(), Some("hi"));
    assert_eq!(r.headers.len(), 0);
}

#[test]
fn response_renders_status_headers_and_body() {
    let mut headers = HeaderMap::new();
    headers.push("A".to_string(), "b".to_string());
    let resp = Response { body: Some("x".to_string()), status_code: 404, headers };
    let bytes = resp.to_bytes();
    assert_eq!(bytes.as_slice(), b"HTTP/1.1 404 OK\r\nA: b\r\n\r\nx");
}

#[test]
fn rendered_request_assembles_back_equal() {
    let mut headers = HeaderMap::new();
    headers.push("Host".to_string(), "localhost".to_string());
    headers.push("Content-Length".to_string(), "3".to_string());
    let req = Request {
        method: Method::Put,
        path: "/data".to_string(),
        version: "1".to_string(),
        headers,
        body: "abc".to_string(),
    };
    let bytes = req.to_bytes().unwrap();
    assert_eq!(
        bytes.as_slice(),
        b"PUT /data HTTP/1.1\r\nHost: localhost\r\nContent-Length: 3\r\n\r\nabc" as &[u8]
    );
    let mut t = MemTransport::with_read_limit(bytes, 7);
    let back = assemble(&mut t).unwrap();
    assert_eq!(back.method, Method::Put);
    assert_eq!(back.path, "/data");
    assert_eq!(back.version, "1");
    assert_eq!(back.body, "abc");
    assert_eq!(back.headers.len(), 2);
    let (n0, v0) = back.headers.get(0);
    assert_eq!((n0.as_str(), v0.as_str()), ("Host", "localhost"));
    let (n1, v1) = back.headers.get(1);
    assert_eq!((n1.as_str(), v1.as_str()), ("Content-Length", "3"));
}

#[test]
fn assemble_with_one_byte_reads() {
    let data = b"GET /a HTTP/1.0\r\nA:   spaced  out\r\nContent-Length: 2\r\n\r\nok".to_vec();
    let mut t = MemTransport::with_read_limit(data, 1);
    let req = assemble(&mut t).unwrap();
    assert_eq!(req.version, "0");
    assert_eq!(req.body, "ok");
    let (n0, v0) = req.headers.get(0);
    assert_eq!((n0.as_str(), v0.as_str()), ("A", "spaced  out"));
}

#[test]
fn body_may_contain_delimiter_bytes() {
    let data = b"GET /a HTTP/1.1\r\nContent-Length: 8\r\n\r\nab\r\n\r\ncd".to_vec();
    let mut t = MemTransport::new(data);
    let req = assemble(&mut t).unwrap();
    assert_eq!(req.body, "ab\r\n\r\ncd");
}

#[test]
fn utf8_body_is_served() {
    let mut data = b"GET /a HTTP/1.1\r\nContent-Length: 2\r\n\r\n".to_vec();
    data.extend_from_slice(&[0xC3, 0xA9]);
    let mut t = MemTransport::new(data);
    let req = assemble(&mut t).unwrap();
    assert_eq!(req.body.as_bytes(), &[0xC3, 0xA9]);
    assert_eq!(req.body.chars().count(), 1);
}

#[test]
fn invalid_utf8_body_is_rejected() {
    let mut data = b"GET /a HTTP/1.1\r\nContent-Length: 2\r\n\r\n".to_vec();
    data.extend_from_slice(&[0xFF, 0xFE]);
    let mut t = MemTransport::new(data);
    assert!(matches!(assemble(&mut t), Err(FramingError::BodyNotText)));
}

#[test]
fn response_with_utf8_body_renders_its_bytes() {
    let text = String::from_utf8(vec![0xC3, 0xA9]).unwrap();
    let resp = Response::new().body(text);
    let bytes = resp.to_bytes();
    let mut expected = b"HTTP/1.1 200 OK\r\n\r\n".to_vec();
    expected.extend_from_slice(&[0xC3, 0xA9]);
    assert_eq!(bytes, expected);
}

#[test]
fn rendered_request_with_utf8_body_round_trips() {
    let mut headers = HeaderMap::new();
    headers.push("Content-Length".to_string(), "2".to_string());
    let req = Request {
        method: Method::Post,
        path: "/notes".to_string(),
        version: "1".to_string(),
        headers,
        body: String::from_utf8(vec![0xC3, 0xA9]).unwrap(),
    };
    let bytes = req.to_bytes().unwrap();
    let mut t = MemTransport::new(bytes);
    let back = assemble(&mut t).unwrap();
    assert_eq!(back.body.as_bytes(), &[0xC3, 0xA9]);
}

#[test]
fn echo_serves_utf8_body_back() {
    let router = Router::new().get("/echo".to_string(), EchoHandler).unwrap();
    let mut server = Server::new(router);
    let mut data = b"GET /echo HTTP/1.1\r\nContent-Length: 2\r\n\r\n".to_vec();
    data.extend_from_slice(&[0xC3, 0xA9]);
    let mut t = MemTransport::new(data);
    assert_eq!(server.handle_connection(&mut t), Ok(()));
    let mut expected = b"HTTP/1.1 200 OK\r\n\r\n".to_vec();
    expected.extend_from_slice(&[0xC3, 0xA9]);
    assert_eq!(t.written_bytes().as_slice(), expected.as_slice());
}
