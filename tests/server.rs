use std::collections::HashMap;
use std::io::Read;

use http_server::encoding::{accepts_gzip, list_has_token};
use http_server::request::{
    parse_request, split_words, Header, HttpMethod, HttpRequest, HttpVersion, ParseError,
    ParseOutcome,
};
use http_server::response::{Response, Status};
use http_server::router::{
    dispatch, file_response, join, parse_error_response, store_response, text_response, Action,
    Config,
};

fn parse_ok(raw: &[u8]) -> (HttpRequest, usize) {
    match parse_request(raw) {
        ParseOutcome::Complete { request, consumed } => (request, consumed),
        other => panic!("expected a complete request, got {:?}", other),
    }
}

fn parse_err(raw: &[u8]) -> ParseError {
    match parse_request(raw) {
        ParseOutcome::Failed(e) => e,
        other => panic!("expected a parse error, got {:?}", other),
    }
}

fn is_incomplete(raw: &[u8]) -> bool {
    matches!(parse_request(raw), ParseOutcome::Incomplete)
}

fn config(dir: &str) -> Config {
    Config { directory: Some(dir.as_bytes().to_vec()) }
}

fn respond(action: Action) -> Response {
    match action {
        Action::Respond(r) => r,
        other => panic!("expected a response, got {:?}", other),
    }
}

fn gunzip(data: &[u8]) -> Vec<u8> {
    let mut out = Vec::new();
    flate2::read::GzDecoder::new(data).read_to_end(&mut out).unwrap();
    out
}

/// Runs an action against an in-memory file store, as the server does
/// against the file system.
fn run(store: &mut HashMap<Vec<u8>, Vec<u8>>, action: Action) -> Response {
    match action {
        Action::Respond(r) => r,
        Action::ServeFile(path) => file_response(store.get(&path).cloned()),
        Action::StoreFile { path, contents } => {
            store.insert(path, contents);
            store_response(true)
        }
    }
}

fn header_value<'a>(r: &'a Response, name: &str) -> Option<&'a [u8]> {
    r.headers.iter().find(|h| h.name == name.as_bytes()).map(|h| h.value.as_slice())
}

#[test]
fn parses_request_line_and_headers() {
    let raw = b"GET /echo/abc HTTP/1.1\r\nHost: localhost:4221\r\nAccept: */*\r\n\r\n";
    let (req, consumed) = parse_ok(raw);
    assert_eq!(consumed, raw.len());
    assert_eq!(req.method, HttpMethod::Get);
    assert_eq!(req.url, b"/echo/abc".to_vec());
    assert_eq!(req.version, HttpVersion::Http11);
    assert_eq!(req.headers.len(), 2);
    assert_eq!(req.headers[0].name, b"Host".to_vec());
    assert_eq!(req.headers[0].value, b"localhost:4221".to_vec());
    assert!(req.body.is_none());
}

#[test]
fn recognises_every_version() {
    let cases: [(&[u8], HttpVersion); 5] = [
        (b"HTTP/0.9", HttpVersion::Http09),
        (b"HTTP/1.0", HttpVersion::Http10),
        (b"HTTP/1.1", HttpVersion::Http11),
        (b"HTTP/2.0", HttpVersion::Http2),
        (b"HTTP/3.0", HttpVersion::Http3),
    ];
    for (token, version) in cases {
        let mut raw = b"POST /x ".to_vec();
        raw.extend_from_slice(token);
        raw.extend_from_slice(b"\r\n\r\n");
        let (req, _) = parse_ok(&raw);
        assert_eq!(req.version, version);
        assert_eq!(req.method, HttpMethod::Post);
    }
}

#[test]
fn bare_line_feeds_end_lines_too() {
    let (req, consumed) = parse_ok(b"GET / HTTP/1.0\nA: b\n\nrest");
    assert_eq!(consumed, 21);
    assert_eq!(req.headers.len(), 1);
}

#[test]
fn repeated_headers_keep_their_order_and_values_are_trimmed() {
    let (req, _) = parse_ok(b"GET / HTTP/1.1\r\nX:  one \r\nX:two\r\nY: a: b\r\n\r\n");
    assert_eq!(req.headers.len(), 3);
    assert_eq!(req.headers[0].value, b"one".to_vec());
    assert_eq!(req.headers[1].value, b"two".to_vec());
    assert_eq!(req.headers[2].name, b"Y".to_vec());
    assert_eq!(req.headers[2].value, b"a: b".to_vec());
}

#[test]
fn reads_exactly_content_length_bytes() {
    let raw = b"POST /files/a HTTP/1.1\r\nContent-Length: 5\r\n\r\nhello world";
    let (req, consumed) = parse_ok(raw);
    assert_eq!(req.body, Some(b"hello".to_vec()));
    assert_eq!(consumed, raw.len() - 6);
}

#[test]
fn content_length_zero_gives_no_body() {
    let (req, _) = parse_ok(b"POST /files/a HTTP/1.1\r\nContent-Length: 0\r\n\r\n");
    assert!(req.body.is_none());
}

#[test]
fn content_length_takes_a_plus_sign() {
    let (req, _) = parse_ok(b"POST /files/a HTTP/1.1\r\nContent-Length: +2\r\n\r\nok");
    assert_eq!(req.body, Some(b"ok".to_vec()));
}

#[test]
fn waits_for_the_whole_head_and_body() {
    assert!(is_incomplete(b""));
    assert!(is_incomplete(b"GET / HTTP/1.1"));
    assert!(is_incomplete(b"GET / HTTP/1.1\r\nHost: x\r\n"));
    assert!(is_incomplete(b"POST /files/a HTTP/1.1\r\nContent-Length: 5\r\n\r\nhel"));
}

#[test]
fn rejects_unknown_method() {
    assert_eq!(parse_err(b"PATCH /echo/abc HTTP/1.1\r\n\r\n"), ParseError::BadMethod);
    assert_eq!(parse_err(b"get / HTTP/1.1\r\n"), ParseError::BadMethod);
    assert_eq!(parse_err(b"\r\n"), ParseError::BadMethod);
}

#[test]
fn rejects_missing_target() {
    assert_eq!(parse_err(b"GET\r\n\r\n"), ParseError::MissingTarget);
}

#[test]
fn rejects_unknown_version() {
    assert_eq!(parse_err(b"GET / HTTP/1.2\r\n\r\n"), ParseError::BadVersion);
    assert_eq!(parse_err(b"GET /\r\n\r\n"), ParseError::BadVersion);
}

#[test]
fn rejects_header_without_colon() {
    assert_eq!(parse_err(b"GET / HTTP/1.1\r\nNoColon\r\n"), ParseError::BadHeader);
}

#[test]
fn rejects_bad_content_length() {
    assert_eq!(
        parse_err(b"POST /files/a HTTP/1.1\r\nContent-Length: five\r\n\r\n"),
        ParseError::BadContentLength
    );
    assert_eq!(
        parse_err(b"POST /files/a HTTP/1.1\r\nContent-Length: 99999999999999999999999\r\n\r\n"),
        ParseError::BadContentLength
    );
}

#[test]
fn splits_words_on_any_whitespace() {
    let w = split_words(b"  GET\t/a   HTTP/1.1 ");
    assert_eq!(w, vec![b"GET".to_vec(), b"/a".to_vec(), b"HTTP/1.1".to_vec()]);
    assert!(split_words(b"   ").is_empty());
}

#[test]
fn writes_status_headers_length_and_body() {
    let r = text_response(b"abc".to_vec(), false);
    assert_eq!(
        r.to_bytes(),
        b"HTTP/1.1 200 OK\r\nContent-Type: text/plain\r\nContent-Length: 3\r\n\r\nabc".to_vec()
    );
}

#[test]
fn writes_bodiless_responses_without_length() {
    assert_eq!(store_response(true).to_bytes(), b"HTTP/1.1 201 Created\r\n\r\n".to_vec());
    assert_eq!(
        store_response(false).to_bytes(),
        b"HTTP/1.1 500 Internal Server Error\r\n\r\n".to_vec()
    );
}

#[test]
fn content_length_of_an_empty_body_is_zero() {
    let r = file_response(Some(Vec::new()));
    assert_eq!(
        r.to_bytes(),
        b"HTTP/1.1 200 OK\r\nContent-Type: application/octet-stream\r\nContent-Length: 0\r\n\r\n"
            .to_vec()
    );
}

#[test]
fn finds_gzip_among_listed_encodings() {
    assert!(list_has_token(b"gzip", b"gzip"));
    assert!(list_has_token(b"deflate, gzip, br", b"gzip"));
    assert!(!list_has_token(b"deflate,gzip", b"gzip"));
    assert!(!list_has_token(b"gzipped, x-gzip", b"gzip"));
    assert!(!list_has_token(b"", b"gzip"));
}

#[test]
fn only_the_first_accept_encoding_counts() {
    let h = vec![
        Header { name: b"Accept-Encoding".to_vec(), value: b"br".to_vec() },
        Header { name: b"Accept-Encoding".to_vec(), value: b"gzip".to_vec() },
    ];
    assert!(!accepts_gzip(&h));
}

#[test]
fn joins_directory_and_name() {
    assert_eq!(join(b"/tmp/", b"a"), b"/tmp/a".to_vec());
    assert_eq!(join(b"/tmp", b"a"), b"/tmp/a".to_vec());
    assert_eq!(join(b"", b"a"), b"a".to_vec());
}

#[test]
fn echo_returns_text_without_gzip() {
    let (req, _) = parse_ok(b"GET /echo/hello HTTP/1.1\r\nAccept-Encoding: br\r\n\r\n");
    let r = respond(dispatch(&config("/srv/"), &req));
    assert_eq!(r.status, Status::Success);
    assert_eq!(r.body, Some(b"hello".to_vec()));
    assert_eq!(header_value(&r, "Content-Encoding"), None);
}

#[test]
fn echo_of_abc_with_gzip_decompresses_to_abc() {
    let (req, _) = parse_ok(b"GET /echo/abc HTTP/1.1\r\nAccept-Encoding: gzip\r\n\r\n");
    let r = respond(dispatch(&config("/srv/"), &req));
    assert_eq!(r.status, Status::Success);
    assert_eq!(header_value(&r, "Content-Encoding"), Some(&b"gzip"[..]));
    let body = r.body.clone().unwrap();
    assert_ne!(body, b"abc".to_vec());
    assert_eq!(gunzip(&body), b"abc".to_vec());
}

#[test]
fn gzip_content_length_is_the_encoded_length() {
    let (req, _) = parse_ok(b"GET /echo/abcabcabcabcabcabcabcabc HTTP/1.1\r\nAccept-Encoding: deflate, gzip\r\n\r\n");
    let r = respond(dispatch(&config("/srv/"), &req));
    let body = r.body.clone().unwrap();
    let wire = r.to_bytes();
    let expected = format!("Content-Length: {}\r\n\r\n", body.len());
    assert!(wire.windows(expected.len()).any(|w| w == expected.as_bytes()));
    assert!(wire.ends_with(&body));
    assert_ne!(body.len(), "abcabcabcabcabcabcabcabc".len());
}

#[test]
fn user_agent_is_echoed() {
    let (req, _) = parse_ok(b"GET /user-agent HTTP/1.1\r\nUser-Agent: curl/7.64.1\r\n\r\n");
    let r = respond(dispatch(&config("/srv/"), &req));
    assert_eq!(
        r.to_bytes(),
        b"HTTP/1.1 200 OK\r\nContent-Type: text/plain\r\nContent-Length: 11\r\n\r\ncurl/7.64.1"
            .to_vec()
    );
}

#[test]
fn user_agent_missing_is_a_bad_request() {
    let (req, _) = parse_ok(b"GET /user-agent HTTP/1.1\r\n\r\n");
    let r = respond(dispatch(&config("/srv/"), &req));
    assert_eq!(r.to_bytes(), b"HTTP/1.1 400 Bad Request\r\n\r\n".to_vec());
}

#[test]
fn index_is_served_for_root() {
    let (req, _) = parse_ok(b"GET / HTTP/1.1\r\n\r\n");
    let mut store = HashMap::new();
    store.insert(b"/srv/index.html".to_vec(), b"hi".to_vec());
    let action = dispatch(&config("/srv"), &req);
    assert!(matches!(&action, Action::ServeFile(p) if p == b"/srv/index.html"));
    let r = run(&mut store, action);
    assert_eq!(
        r.to_bytes(),
        b"HTTP/1.1 200 OK\r\nContent-Type: application/octet-stream\r\nContent-Length: 2\r\n\r\nhi"
            .to_vec()
    );
}

#[test]
fn unknown_route_is_not_found() {
    let (req, _) = parse_ok(b"GET /nope HTTP/1.1\r\n\r\n");
    let r = respond(dispatch(&config("/srv/"), &req));
    assert_eq!(r.status, Status::NotFound);
    assert!(r.body.is_none());
    assert_eq!(r.to_bytes(), b"HTTP/1.1 404 Not Found\r\n\r\n".to_vec());
}

#[test]
fn post_elsewhere_is_not_found() {
    let (req, _) = parse_ok(b"POST /echo/x HTTP/1.1\r\n\r\n");
    let r = respond(dispatch(&config("/srv/"), &req));
    assert_eq!(r.to_bytes(), b"HTTP/1.1 404 Not Found\r\n\r\n".to_vec());
}

#[test]
fn malformed_request_line_is_answered_with_400() {
    let e = parse_err(b"PATCH /echo/abc HTTP/1.1\r\n\r\n");
    assert_eq!(e, ParseError::BadMethod);
    assert_eq!(parse_error_response(e).to_bytes(), b"HTTP/1.1 400 Bad Request\r\n\r\n".to_vec());
}

#[test]
fn missing_file_is_not_found() {
    let (req, _) = parse_ok(b"GET /files/absent HTTP/1.1\r\n\r\n");
    let mut store = HashMap::new();
    let r = run(&mut store, dispatch(&config("/srv/"), &req));
    assert_eq!(r.to_bytes(), b"HTTP/1.1 404 Not Found\r\n\r\n".to_vec());
}

#[test]
fn files_need_a_directory() {
    let (req, _) = parse_ok(b"GET /files/a HTTP/1.1\r\n\r\n");
    let r = respond(dispatch(&Config { directory: None }, &req));
    assert_eq!(r.status, Status::NotFound);
    let (req, _) = parse_ok(b"POST /files/a HTTP/1.1\r\nContent-Length: 1\r\n\r\nx");
    let r = respond(dispatch(&Config { directory: None }, &req));
    assert_eq!(r.status, Status::NotFound);
}

#[test]
fn post_then_get_returns_the_same_bytes() {
    let cfg = config("/srv/");
    let mut store = HashMap::new();
    for body in [&b"binary\x00\xff data"[..], &b""[..]] {
        let mut raw = format!("POST /files/blob HTTP/1.1\r\nContent-Length: {}\r\n\r\n", body.len())
            .into_bytes();
        raw.extend_from_slice(body);
        let (post, _) = parse_ok(&raw);
        let created = run(&mut store, dispatch(&cfg, &post));
        assert_eq!(created.to_bytes(), b"HTTP/1.1 201 Created\r\n\r\n".to_vec());
        let (get, _) = parse_ok(b"GET /files/blob HTTP/1.1\r\n\r\n");
        let r = run(&mut store, dispatch(&cfg, &get));
        assert_eq!(r.status, Status::Success);
        assert_eq!(header_value(&r, "Content-Type"), Some(&b"application/octet-stream"[..]));
        assert_eq!(r.body, Some(body.to_vec()));
    }
}

#[test]
fn unicode_whitespace_separates_request_line_words() {
    let (req, _) = parse_ok("GET\u{a0}/ HTTP/1.1\r\n\r\n".as_bytes());
    assert_eq!(req.method, HttpMethod::Get);
    assert_eq!(req.url, b"/".to_vec());
    assert_eq!(req.version, HttpVersion::Http11);
    let (req, _) = parse_ok("POST\u{3000}/files/a\u{2009}HTTP/1.0\u{85}\r\n\r\n".as_bytes());
    assert_eq!(req.method, HttpMethod::Post);
    assert_eq!(req.url, b"/files/a".to_vec());
    assert_eq!(req.version, HttpVersion::Http10);
}

#[test]
fn unicode_whitespace_decides_the_error_kind() {
    assert_eq!(parse_err("GET\u{a0}\n".as_bytes()), ParseError::MissingTarget);
    assert_eq!(parse_err("GET\u{a0}/ X\r\n".as_bytes()), ParseError::BadVersion);
}

#[test]
fn unicode_whitespace_is_trimmed_from_header_values() {
    let (req, _) = parse_ok("GET / HTTP/1.1\r\nX: \u{2028}1\u{a0}\r\nY:\u{1680}\u{205f}\r\n\r\n".as_bytes());
    assert_eq!(req.headers[0].value, b"1".to_vec());
    assert_eq!(req.headers[1].value, Vec::<u8>::new());
}

#[test]
fn other_multibyte_characters_stay_inside_words() {
    let w = split_words("caf\u{e9} \u{200b}x".as_bytes());
    assert_eq!(w, vec!["caf\u{e9}".as_bytes().to_vec(), "\u{200b}x".as_bytes().to_vec()]);
}

#[test]
fn post_without_body_stores_an_empty_file() {
    let (req, _) = parse_ok(b"POST /files/empty HTTP/1.1\r\n\r\n");
    match dispatch(&config("/srv/"), &req) {
        Action::StoreFile { path, contents } => {
            assert_eq!(path, b"/srv/empty".to_vec());
            assert!(contents.is_empty());
        }
        other => panic!("expected a file write, got {:?}", other),
    }
}
