//! The CGI bridge's response assembly on concrete outputs.

use localserver::cgi::{CgiOutcome, cgi_response};

#[test]
fn cgi_status_header_becomes_the_status_line() {
    let out = b"Content-Type: text/plain\r\nStatus: 404 Not Found\r\n\r\nmissing".to_vec();
    let r = cgi_response(CgiOutcome::Output(out));
    assert_eq!(
        r,
        b"HTTP/1.1 404 Not Found\r\nContent-Type: text/plain\r\n\r\nmissing".to_vec()
    );
}

#[test]
fn cgi_without_status_is_200() {
    let out = b"Content-Type: text/html\r\n\r\n<p>hi</p>".to_vec();
    let r = cgi_response(CgiOutcome::Output(out.clone()));
    let mut expect = b"HTTP/1.1 200 OK\r\n".to_vec();
    expect.extend_from_slice(&out);
    assert_eq!(r, expect);
}

#[test]
fn cgi_with_bare_newlines_is_merged_too() {
    let out = b"status:502 Bad Gateway\nX-More: yes\n\nbody".to_vec();
    let r = cgi_response(CgiOutcome::Output(out));
    assert_eq!(r, b"HTTP/1.1 502 Bad Gateway\r\nX-More: yes\n\nbody".to_vec());
}

#[test]
fn cgi_failures_map_to_gateway_statuses() {
    let spawn = cgi_response(CgiOutcome::SpawnFailed);
    assert!(spawn.starts_with(b"HTTP/1.1 500 Internal Server Error\r\n"));
    let failed = cgi_response(CgiOutcome::Failed);
    assert!(failed.starts_with(b"HTTP/1.1 502 Bad Gateway\r\n"));
    let slow = cgi_response(CgiOutcome::TimedOut);
    assert!(slow.starts_with(b"HTTP/1.1 504 Gateway Timeout\r\n"));
}
