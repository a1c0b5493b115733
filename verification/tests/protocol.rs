//! Request parsing, response rendering, producers, sessions and the
//! string helpers, exercised on concrete values.

use localserver::models::{FileResponse, HttpResponseCommon, SimpleResponse};
use localserver::request::{HttpMethod, HttpHeaders, HttpRequestBuilder};
use localserver::response::{
    HttpResponseBuilder, detect_content_type, extract_boundary, handle_method_not_allowed,
    multipart_response, serve_file_or_404,
};
use localserver::session::{Cookie, SessionRecord, SessionStore, find_session_id, handle_session};
use localserver::strutil::{decimal_string, parse_u64_str, parse_u16_str, trim};

fn bytes_contain(haystack: &[u8], needle: &[u8]) -> bool {
    if needle.is_empty() {
        return true;
    }
    if haystack.len() < needle.len() {
        return false;
    }
    (0..=haystack.len() - needle.len()).any(|i| &haystack[i..i + needle.len()] == needle)
}

#[test]
fn head_parsed_after_terminator() {
    let mut b = HttpRequestBuilder::new();
    b.append(b"GET /index.html HT".to_vec()).unwrap();
    assert!(!b.header_done());
    b.append(b"TP/1.1\r\nHost: example\r\n\r\n".to_vec()).unwrap();
    assert!(b.header_done());
    assert!(b.done());
    let req = b.get_before_done().unwrap();
    assert!(matches!(req.method, HttpMethod::GET));
    assert_eq!(req.path, "/index.html");
    assert_eq!(req.version, "HTTP/1.1");
    assert_eq!(req.headers.get("host").unwrap(), "example");
    assert_eq!(req.headers.get("HOST").unwrap(), "example");
    assert!(req.body.is_none());
}

#[test]
fn body_assembled_from_content_length() {
    let mut b = HttpRequestBuilder::new();
    b.append(b"POST /up HTTP/1.1\r\nContent-Length: 5\r\n\r\nhel".to_vec()).unwrap();
    assert!(b.header_done());
    assert!(!b.done());
    assert!(b.get().is_none());
    assert!(b.get_before_done().is_some());
    assert_eq!(b.body_len(), 3);
    b.append(b"lo!".to_vec()).unwrap();
    assert!(b.done());
    let req = b.get().unwrap();
    assert_eq!(req.body.as_ref().unwrap(), b"hello");
}

#[test]
fn bad_request_line_is_rejected() {
    let mut b = HttpRequestBuilder::new();
    let r = b.append(b"GARBAGE\r\n\r\n".to_vec());
    assert!(r.is_err());
    assert!(b.get().is_none());
    assert!(b.header_done());
}

#[test]
fn chunked_transfer_encoding_is_rejected() {
    let mut b = HttpRequestBuilder::new();
    let r = b.append(b"POST / HTTP/1.1\r\nTransfer-Encoding: chunked\r\n\r\n".to_vec());
    assert!(r.is_err());
}

#[test]
fn headers_are_case_insensitive_and_last_wins() {
    let mut h = HttpHeaders::new();
    h.insert("X-One", " a ");
    h.insert("x-one", "b");
    assert_eq!(h.get("X-ONE").unwrap(), "b");
    assert_eq!(h.len(), 1);
    assert!(h.get("missing").is_none());
}

#[test]
fn method_tokens_parse() {
    assert!(matches!(HttpMethod::from_str("GET"), HttpMethod::GET));
    assert!(matches!(HttpMethod::from_str("POST"), HttpMethod::POST));
    assert!(matches!(HttpMethod::from_str("DELETE"), HttpMethod::DELETE));
    match HttpMethod::from_str("PATCH") {
        HttpMethod::Other(t) => assert_eq!(t, "PATCH"),
        _ => panic!("expected Other"),
    }
    assert_eq!(HttpMethod::GET.to_str(), "GET");
}

#[test]
fn response_build_renders_exact_bytes() {
    let bytes = HttpResponseBuilder::new(200, "OK")
        .header("Content-Type", "text/plain")
        .body(b"hello".to_vec())
        .build();
    let expect = b"HTTP/1.1 200 OK\r\nContent-Type: text/plain\r\nServer: localserver\r\nContent-Length: 5\r\n\r\nhello";
    assert_eq!(bytes, expect.to_vec());
}

#[test]
fn response_build_without_body_has_zero_length() {
    let bytes = HttpResponseBuilder::no_content().build();
    assert_eq!(
        bytes,
        b"HTTP/1.1 204 No Content\r\nServer: localserver\r\nContent-Length: 0\r\n\r\n".to_vec()
    );
}

#[test]
fn content_types_follow_the_table() {
    assert_eq!(detect_content_type("a/index.html"), "text/html");
    assert_eq!(detect_content_type("x.css"), "text/css");
    assert_eq!(detect_content_type("x.js"), "application/javascript");
    assert_eq!(detect_content_type("x.json"), "application/json");
    assert_eq!(detect_content_type("x.png"), "image/png");
    assert_eq!(detect_content_type("x.jpeg"), "image/jpeg");
    assert_eq!(detect_content_type("x.gif"), "image/gif");
    assert_eq!(detect_content_type("x.svg"), "image/svg+xml");
    assert_eq!(detect_content_type("x.txt"), "text/plain");
    assert_eq!(detect_content_type("x.pdf"), "application/pdf");
    assert_eq!(detect_content_type("x.bin"), "application/octet-stream");
}

#[test]
fn method_not_allowed_names_the_methods() {
    let cookie = Cookie::session("sid".to_string());
    let allowed = vec!["GET".to_string(), "POST".to_string()];
    let bytes = handle_method_not_allowed(&allowed, None, &cookie);
    assert!(bytes.starts_with(b"HTTP/1.1 405 Method Not Allowed\r\n"));
    assert!(bytes_contain(&bytes, b"Allow: GET, POST\r\n"));
    assert!(bytes_contain(&bytes, b"Method Not Allowed"));
}

#[test]
fn serve_file_or_404_serves_and_falls_back() {
    let cookie = Cookie::session("sid".to_string());
    let ok = serve_file_or_404("w/index.html", Some(b"hello".to_vec()), None, &cookie);
    assert!(ok.starts_with(b"HTTP/1.1 200 OK\r\n"));
    assert!(bytes_contain(&ok, b"Content-Type: text/html\r\n"));
    assert!(bytes_contain(&ok, b"Content-Length: 5\r\n"));
    assert!(ok.ends_with(b"hello"));

    let nf = serve_file_or_404("w/missing", None, Some(b"<h1>gone</h1>".to_vec()), &cookie);
    assert!(nf.starts_with(b"HTTP/1.1 404 Not Found\r\n"));
    assert!(nf.ends_with(b"<h1>gone</h1>"));

    let minimal = serve_file_or_404("w/missing", None, None, &cookie);
    assert!(minimal.starts_with(b"HTTP/1.1 404 Not Found\r\n"));
    assert!(minimal.ends_with(b"\r\n\r\n"));
}

#[test]
fn simple_producer_hands_out_its_bytes() {
    let mut p = SimpleResponse::new(b"abcdef".to_vec());
    assert!(!p.is_finished());
    assert_eq!(p.peek(), b"abcdef");
    p.next(3);
    assert_eq!(p.peek(), b"def");
    p.next(3);
    assert!(p.is_finished());
}

#[test]
fn file_producer_streams_head_then_chunks() {
    let cookie = Cookie::session("sid".to_string());
    let mut f = FileResponse::new("www/index.html", &cookie, 10);
    let mut out: Vec<u8> = Vec::new();
    while !f.is_finished() {
        if f.needs_fill() {
            break;
        }
        let chunk = f.peek().to_vec();
        let n = chunk.len();
        out.extend_from_slice(&chunk);
        f.next(n);
    }
    let head = String::from_utf8(out.clone()).unwrap();
    assert!(head.starts_with(
        "HTTP/1.1 200 OK\r\nServer: localserver\r\nContent-Length: 10\r\nContent-Type: text/html\r\n"
    ));
    assert!(head.contains("Set-Cookie: session_id=sid; Path=/; HttpOnly\r\n"));
    assert!(head.ends_with("\r\n\r\n"));

    assert!(f.needs_fill());
    f.fill(b"0123456".to_vec());
    let c1 = f.peek().to_vec();
    f.next(c1.len());
    out.extend_from_slice(&c1);
    assert!(f.needs_fill());
    f.fill(b"789".to_vec());
    let c2 = f.peek().to_vec();
    f.next(c2.len());
    out.extend_from_slice(&c2);
    f.fill(Vec::new());
    assert!(f.is_finished());
    assert!(out.ends_with(b"0123456789"));
}

#[test]
fn fresh_sessions_get_a_cookie_and_a_record() {
    let mut store = SessionStore::new();
    let mut b = HttpRequestBuilder::new();
    b.append(b"GET / HTTP/1.1\r\nHost: a\r\n\r\n".to_vec()).unwrap();
    let cookie = handle_session(b.get().unwrap(), &mut store, 1000);
    assert_eq!(cookie.name, "session_id");
    assert_eq!(cookie.value.len(), 36);
    assert_eq!(store.len(), 1);
    let rec = store.get(&cookie.value).unwrap();
    assert_eq!(rec.created_at, 1000);
    assert_eq!(rec.last_seen, 1000);
}

#[test]
fn known_sessions_are_reused_and_refreshed() {
    let mut store = SessionStore::new();
    store.insert("abc".to_string(), SessionRecord { created_at: 5, last_seen: 5 });
    let mut b = HttpRequestBuilder::new();
    b.append(b"GET / HTTP/1.1\r\nCookie: other=1; session_id=abc\r\n\r\n".to_vec()).unwrap();
    let cookie = handle_session(b.get().unwrap(), &mut store, 99);
    assert_eq!(cookie.value, "abc");
    assert_eq!(store.len(), 1);
    let rec = store.get("abc").unwrap();
    assert_eq!(rec.created_at, 5);
    assert_eq!(rec.last_seen, 99);
}

#[test]
fn session_sweep_drops_stale_records() {
    let mut store = SessionStore::new();
    store.insert("old".to_string(), SessionRecord { created_at: 1, last_seen: 1 });
    store.insert("new".to_string(), SessionRecord { created_at: 1, last_seen: 50 });
    store.sweep(10);
    assert!(store.get("old").is_none());
    assert!(store.get("new").is_some());
}

#[test]
fn cookie_header_parsing_finds_the_id() {
    assert_eq!(find_session_id("session_id=xyz").unwrap(), "xyz");
    assert_eq!(find_session_id("a=b; session_id = xyz ; c=d").unwrap(), "xyz");
    assert!(find_session_id("a=b; c=d").is_none());
    let cookie = Cookie::session("xyz".to_string());
    assert_eq!(cookie.to_header_value(), "session_id=xyz; Path=/; HttpOnly");
}

#[test]
fn boundary_extraction() {
    assert_eq!(
        extract_boundary("multipart/form-data; boundary=XyZ").unwrap(),
        "XyZ"
    );
    assert!(extract_boundary("multipart/form-data").is_none());
}

#[test]
fn multipart_responses() {
    let cookie = Cookie::session("sid".to_string());
    let none: Vec<String> = Vec::new();
    let r = multipart_response(&none, None, &cookie);
    assert!(r.starts_with(b"HTTP/1.1 400 Bad Request\r\n"));
    let two = vec!["a.txt".to_string(), "b.png".to_string()];
    let r2 = multipart_response(&two, None, &cookie);
    assert!(r2.starts_with(b"HTTP/1.1 201 Created\r\n"));
    assert!(r2.ends_with(b"Successfully uploaded 2 file(s): a.txt, b.png"));
    let r3 = multipart_response(&two, Some("disk full".to_string()), &cookie);
    assert!(r3.starts_with(b"HTTP/1.1 500 Internal Server Error\r\n"));
    assert!(r3.ends_with(b"Error: disk full"));
}

#[test]
fn decimal_and_number_parsing() {
    assert_eq!(decimal_string(0), "0");
    assert_eq!(decimal_string(1234), "1234");
    assert_eq!(decimal_string(18446744073709551615), "18446744073709551615");
    assert_eq!(parse_u64_str("123").unwrap(), 123);
    assert_eq!(parse_u64_str("+7").unwrap(), 7);
    assert!(parse_u64_str("").is_none());
    assert!(parse_u64_str("12a").is_none());
    assert!(parse_u64_str("99999999999999999999999").is_none());
    assert_eq!(parse_u16_str("8080").unwrap(), 8080);
    assert!(parse_u16_str("70000").is_none());
}

#[test]
fn trimming() {
    assert_eq!(trim("  a b \t"), "a b");
    assert_eq!(trim(""), "");
    assert_eq!(trim("   "), "");
}
