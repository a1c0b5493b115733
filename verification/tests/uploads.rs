//! Upload, delete and listing decisions driven through the dispatcher,
//! and the method-handler planning functions on their own.

use localserver::config::{Route, ServerConfig};
use localserver::handler::{GetPlan, PostPlan, handle_get, handle_post};
use localserver::read::{
    DispatchAction, dispatch_request, process_read_chunk, respond_delete, respond_listing,
    respond_multipart, respond_upload,
};
use localserver::request::HttpRequestBuilder;
use localserver::server::{ListenerInfo, SocketStatus, Status};
use localserver::session::{Cookie, SessionStore};
use localserver::write::{advance_response, response_finished, response_needs_fill, response_ready};

fn bytes_contain(haystack: &[u8], needle: &[u8]) -> bool {
    if needle.is_empty() {
        return true;
    }
    if haystack.len() < needle.len() {
        return false;
    }
    (0..=haystack.len() - needle.len()).any(|i| &haystack[i..i + needle.len()] == needle)
}

fn drain(s: &mut SocketStatus) -> Vec<u8> {
    let mut out = Vec::new();
    loop {
        assert!(!response_needs_fill(s));
        let chunk = response_ready(s).to_vec();
        if chunk.is_empty() {
            break;
        }
        let n = chunk.len();
        out.extend_from_slice(&chunk);
        advance_response(s, n, 0);
        if response_finished(s) {
            break;
        }
    }
    out
}

fn upload_server() -> ServerConfig {
    ServerConfig {
        server_name: "s".to_string(),
        host: "127.0.0.1".to_string(),
        ports: vec![8080],
        default_server: false,
        error_pages: Vec::new(),
        client_max_body_size: 1000000,
        root: "./www".to_string(),
        routes: vec![Route {
            path: "/up".to_string(),
            methods: vec!["GET".to_string(), "POST".to_string(), "DELETE".to_string()],
            root: Some("store".to_string()),
            default_file: None,
            redirect: None,
            cgi: None,
            list_directory: None,
        }],
    }
}

fn listener() -> ListenerInfo {
    ListenerInfo {
        host: "127.0.0.1".to_string(),
        port: 8080,
        servers: vec![upload_server()],
        default_server_index: 0,
    }
}

#[test]
fn post_with_typed_body_is_saved_under_the_resolved_path() {
    let li = listener();
    let mut store = SessionStore::new();
    let mut s = SocketStatus::new(0);
    process_read_chunk(
        &mut s,
        b"POST /up/data.txt HTTP/1.1\r\nHost: any\r\nContent-Type: text/plain\r\nContent-Length: 2\r\n\r\nhi"
            .to_vec(),
        &li,
        1,
    );
    let (action, cookie) = dispatch_request(&mut s, &li, &mut store, 2);
    let save_path = match action {
        DispatchAction::Upload { save_path, .. } => save_path,
        _ => panic!("expected an upload"),
    };
    assert_eq!(save_path, "./www/store/data.txt");
    respond_upload(&mut s, &save_path, None, &cookie);
    let out = drain(&mut s);
    assert!(out.starts_with(b"HTTP/1.1 200 OK\r\n"));
    assert!(out.ends_with(b"File uploaded successfully"));
}

#[test]
fn failed_upload_reports_500_with_the_reason() {
    let li = listener();
    let mut store = SessionStore::new();
    let mut s = SocketStatus::new(0);
    process_read_chunk(
        &mut s,
        b"POST /up/data.txt HTTP/1.1\r\nHost: any\r\nContent-Type: text/plain\r\nContent-Length: 2\r\n\r\nhi"
            .to_vec(),
        &li,
        1,
    );
    let (action, cookie) = dispatch_request(&mut s, &li, &mut store, 2);
    let save_path = match action {
        DispatchAction::Upload { save_path, .. } => save_path,
        _ => panic!("expected an upload"),
    };
    respond_upload(&mut s, &save_path, Some("disk full".to_string()), &cookie);
    let out = drain(&mut s);
    assert!(out.starts_with(b"HTTP/1.1 500 Internal Server Error\r\n"));
    assert!(out.ends_with(b"Error: disk full"));
}

#[test]
fn post_without_a_body_is_rejected() {
    let li = listener();
    let mut store = SessionStore::new();
    let mut s = SocketStatus::new(0);
    process_read_chunk(&mut s, b"POST /up HTTP/1.1\r\nHost: any\r\n\r\n".to_vec(), &li, 1);
    let (action, _cookie) = dispatch_request(&mut s, &li, &mut store, 2);
    assert!(matches!(action, DispatchAction::Respond));
    let out = drain(&mut s);
    assert!(out.starts_with(b"HTTP/1.1 400 Bad Request\r\n"));
    assert!(out.ends_with(b"Empty body"));
}

#[test]
fn post_with_unknown_type_is_415() {
    let li = listener();
    let mut store = SessionStore::new();
    let mut s = SocketStatus::new(0);
    process_read_chunk(
        &mut s,
        b"POST /up HTTP/1.1\r\nHost: any\r\nContent-Type: weird/thing\r\nContent-Length: 2\r\n\r\nhi"
            .to_vec(),
        &li,
        1,
    );
    let (action, _cookie) = dispatch_request(&mut s, &li, &mut store, 2);
    assert!(matches!(action, DispatchAction::Respond));
    let out = drain(&mut s);
    assert!(out.starts_with(b"HTTP/1.1 415 Unsupported Media Type\r\n"));
    assert!(out.ends_with(b"Unsupported Content-Type"));
}

#[test]
fn multipart_post_hands_out_the_boundary() {
    let li = listener();
    let mut store = SessionStore::new();
    let mut s = SocketStatus::new(0);
    process_read_chunk(
        &mut s,
        b"POST /up HTTP/1.1\r\nHost: any\r\nContent-Type: multipart/form-data; boundary=XX\r\nContent-Length: 2\r\n\r\nhi"
            .to_vec(),
        &li,
        1,
    );
    let (action, cookie) = dispatch_request(&mut s, &li, &mut store, 2);
    match action {
        DispatchAction::UploadMultipart { dir, boundary, base } => {
            assert_eq!(boundary, "XX");
            assert_eq!(dir, "./www/store");
            assert_eq!(base, "./www/store");
        },
        _ => panic!("expected a multipart upload"),
    }
    respond_multipart(&mut s, &["part.txt".to_string()], None, &cookie);
    let out = drain(&mut s);
    assert!(out.starts_with(b"HTTP/1.1 201 Created\r\n"));
    assert!(out.ends_with(b"Successfully uploaded 1 file(s): part.txt"));
}

#[test]
fn delete_resolves_and_reports_both_outcomes() {
    let li = listener();
    let mut store = SessionStore::new();
    let mut s = SocketStatus::new(0);
    process_read_chunk(
        &mut s,
        b"DELETE /up/old.txt HTTP/1.1\r\nHost: any\r\n\r\n".to_vec(),
        &li,
        1,
    );
    let (action, cookie) = dispatch_request(&mut s, &li, &mut store, 2);
    let path = match action {
        DispatchAction::Delete { path, base, error_page } => {
            assert_eq!(base, "./www/store");
            assert_eq!(error_page, "./error_pages/404.html");
            path
        },
        _ => panic!("expected a delete"),
    };
    assert_eq!(path, "./www/store/old.txt");
    respond_delete(&mut s, true, None, &cookie);
    let out = drain(&mut s);
    assert_eq!(
        out,
        b"HTTP/1.1 204 No Content\r\nServer: localserver\r\nContent-Length: 0\r\n\r\n".to_vec()
    );

    let mut s2 = SocketStatus::new(0);
    process_read_chunk(
        &mut s2,
        b"DELETE /up/old.txt HTTP/1.1\r\nHost: any\r\n\r\n".to_vec(),
        &li,
        1,
    );
    let (_, cookie2) = dispatch_request(&mut s2, &li, &mut store, 2);
    respond_delete(&mut s2, false, Some(b"<h1>gone</h1>".to_vec()), &cookie2);
    let out2 = drain(&mut s2);
    assert!(out2.starts_with(b"HTTP/1.1 404 Not Found\r\n"));
    assert!(out2.ends_with(b"<h1>gone</h1>"));
}

#[test]
fn listing_route_asks_for_a_listing() {
    let mut srv = upload_server();
    srv.routes[0].list_directory = Some(true);
    let li = ListenerInfo {
        host: "127.0.0.1".to_string(),
        port: 8080,
        servers: vec![srv],
        default_server_index: 0,
    };
    let mut store = SessionStore::new();
    let mut s = SocketStatus::new(0);
    process_read_chunk(&mut s, b"GET /up HTTP/1.1\r\nHost: any\r\n\r\n".to_vec(), &li, 1);
    let (action, cookie) = dispatch_request(&mut s, &li, &mut store, 2);
    match action {
        DispatchAction::Listing { dir } => assert_eq!(dir, "./www/store"),
        _ => panic!("expected a listing"),
    }
    respond_listing(&mut s, b"<ul></ul>".to_vec(), &cookie);
    let out = drain(&mut s);
    assert!(out.starts_with(b"HTTP/1.1 200 OK\r\n"));
    assert!(bytes_contain(&out, b"Content-Type: text/html\r\n"));
    assert!(out.ends_with(b"<ul></ul>"));
}

#[test]
fn get_plans_follow_route_flags() {
    let mut srv = upload_server();
    srv.routes[0].default_file = Some("index.html".to_string());
    let mut b = HttpRequestBuilder::new();
    b.append(b"GET /up HTTP/1.1\r\nHost: a\r\n\r\n".to_vec()).unwrap();
    let req = b.get().unwrap();
    match handle_get("./www/store", &srv, req) {
        GetPlan::ServeDefault { path } => assert_eq!(path, "./www/store/index.html"),
        _ => panic!("expected the default file"),
    }
    srv.routes[0].list_directory = Some(true);
    match handle_get("./www/store", &srv, req) {
        GetPlan::Listing { dir } => assert_eq!(dir, "./www/store"),
        _ => panic!("expected a listing"),
    }
    let mut b2 = HttpRequestBuilder::new();
    b2.append(b"GET /up/file.txt HTTP/1.1\r\nHost: a\r\n\r\n".to_vec()).unwrap();
    let req2 = b2.get().unwrap();
    match handle_get("./www/store/file.txt", &srv, req2) {
        GetPlan::ServeResolved { path } => assert_eq!(path, "./www/store/file.txt"),
        _ => panic!("expected the resolved file"),
    }
}

#[test]
fn post_plan_generates_a_name_when_the_path_names_none() {
    let mut b = HttpRequestBuilder::new();
    b.append(
        b"POST /up/ HTTP/1.1\r\nHost: a\r\nContent-Type: image/png\r\nContent-Length: 2\r\n\r\nhi"
            .to_vec(),
    )
    .unwrap();
    let req = b.get().unwrap();
    let cookie = Cookie::session("sid".to_string());
    match handle_post("./www/store", req, &cookie) {
        PostPlan::Direct { save_path } => {
            assert!(save_path.starts_with("./www/store/upload_"));
            assert!(save_path.ends_with(".png"));
        },
        _ => panic!("expected a direct upload"),
    }
}

#[test]
fn connection_starts_reading() {
    let s = SocketStatus::new(7);
    assert!(matches!(s.status, Status::Read));
    assert!(s.response.is_none());
    assert_eq!(s.ttl, 7);
}
