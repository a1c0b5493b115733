//! End-to-end serving scenarios driven through the connection state
//! machine, plus routing, path resolution, configuration parsing and
//! listener setup.

use localserver::config::{Config, Route, ServerConfig, parse_config};
use localserver::read::{
    DispatchAction, ReadStep, dispatch_request, find_matching_route, process_read_chunk,
    resolve_file_path, respond_error_page, respond_method_not_allowed, attach_file_response,
};
use localserver::request::HttpMethod;
use localserver::router::Router;
use localserver::server::{ListenerInfo, SocketStatus, Status, build_listeners};
use localserver::session::SessionStore;
use localserver::write::{
    advance_response, fill_response, finish_response, response_finished, response_needs_fill,
    response_ready, should_keep_alive,
};

fn bytes_contain(haystack: &[u8], needle: &[u8]) -> bool {
    if needle.is_empty() {
        return true;
    }
    if haystack.len() < needle.len() {
        return false;
    }
    (0..=haystack.len() - needle.len()).any(|i| &haystack[i..i + needle.len()] == needle)
}

fn route(path: &str, methods: &[&str]) -> Route {
    Route {
        path: path.to_string(),
        methods: methods.iter().map(|m| m.to_string()).collect(),
        root: Some(String::new()),
        default_file: None,
        redirect: None,
        cgi: None,
        list_directory: None,
    }
}

fn server(name: &str, host: &str, port: u16, root: &str, routes: Vec<Route>) -> ServerConfig {
    ServerConfig {
        server_name: name.to_string(),
        host: host.to_string(),
        ports: vec![port],
        default_server: false,
        error_pages: Vec::new(),
        client_max_body_size: 1000000,
        root: root.to_string(),
        routes,
    }
}

fn listener_for(servers: Vec<ServerConfig>, port: u16) -> ListenerInfo {
    ListenerInfo {
        host: "127.0.0.1".to_string(),
        port,
        servers,
        default_server_index: 0,
    }
}

fn drain(s: &mut SocketStatus) -> Vec<u8> {
    let mut out = Vec::new();
    loop {
        if response_needs_fill(s) {
            panic!("response expects file bytes");
        }
        let chunk = response_ready(s).to_vec();
        if chunk.is_empty() {
            break;
        }
        let n = chunk.len();
        out.extend_from_slice(&chunk);
        advance_response(s, n, 0);
        if response_finished(s) {
            break;
        }
    }
    out
}

#[test]
fn get_static_file_serves_the_bytes() {
    let srv = server("s", "127.0.0.1", 8080, "./www", vec![route("/", &["GET"])]);
    let listener = listener_for(vec![srv], 8080);
    let mut store = SessionStore::new();
    let mut s = SocketStatus::new(0);
    let step = process_read_chunk(
        &mut s,
        b"GET /index.html HTTP/1.1\r\nHost: any\r\n\r\n".to_vec(),
        &listener,
        1,
    );
    assert!(matches!(step, ReadStep::Ready));
    let (action, cookie) = dispatch_request(&mut s, &listener, &mut store, 2);
    let path = match action {
        DispatchAction::ServeFile { path, .. } => path,
        other => panic!("expected a file to serve, got {:?}", action_name(&other)),
    };
    assert!(path.starts_with("./www/"));
    assert!(path.ends_with("/index.html"));
    attach_file_response(&mut s, &path, &cookie, 5);
    assert!(matches!(s.status, Status::Write));
    let mut out = Vec::new();
    let mut fed = false;
    loop {
        if response_needs_fill(&s) {
            if fed {
                fill_response(&mut s, Vec::new());
            } else {
                fill_response(&mut s, b"hello".to_vec());
                fed = true;
            }
            continue;
        }
        if response_finished(&s) {
            break;
        }
        let chunk = response_ready(&s).to_vec();
        let n = chunk.len();
        out.extend_from_slice(&chunk);
        advance_response(&mut s, n, 3);
    }
    assert!(out.starts_with(
        b"HTTP/1.1 200 OK\r\nServer: localserver\r\nContent-Length: 5\r\nContent-Type: text/html\r\n"
    ));
    assert!(out.ends_with(b"hello"));
}

fn action_name(a: &DispatchAction) -> &'static str {
    match a {
        DispatchAction::Respond => "respond",
        DispatchAction::ServeFile { .. } => "serve-file",
        DispatchAction::Listing { .. } => "listing",
        DispatchAction::Upload { .. } => "upload",
        DispatchAction::UploadMultipart { .. } => "upload-multipart",
        DispatchAction::Delete { .. } => "delete",
        DispatchAction::NotFound { .. } => "not-found",
        DispatchAction::MethodNotAllowed { .. } => "method-not-allowed",
        DispatchAction::Cgi { .. } => "cgi",
    }
}

#[test]
fn missing_file_gets_a_404() {
    let srv = server("s", "127.0.0.1", 8080, "./www", vec![route("/", &["GET"])]);
    let listener = listener_for(vec![srv], 8080);
    let mut store = SessionStore::new();
    let mut s = SocketStatus::new(0);
    process_read_chunk(
        &mut s,
        b"GET /missing HTTP/1.1\r\nHost: any\r\n\r\n".to_vec(),
        &listener,
        1,
    );
    let (action, cookie) = dispatch_request(&mut s, &listener, &mut store, 2);
    match action {
        DispatchAction::ServeFile { path, base, error_page } => {
            assert!(path.ends_with("/missing"));
            assert_eq!(base, "./www/");
            assert_eq!(error_page, "./error_pages/404.html");
            respond_error_page(&mut s, 404, "Not Found", None, &cookie);
        },
        _ => panic!("expected a file attempt"),
    }
    let out = drain(&mut s);
    assert!(out.starts_with(b"HTTP/1.1 404 Not Found\r\n"));
}

#[test]
fn forbidden_method_gets_405_with_allow() {
    let srv = server("s", "127.0.0.1", 8080, "./www", vec![route("/", &["GET"])]);
    let listener = listener_for(vec![srv], 8080);
    let mut store = SessionStore::new();
    let mut s = SocketStatus::new(0);
    process_read_chunk(&mut s, b"POST / HTTP/1.1\r\nHost: any\r\n\r\n".to_vec(), &listener, 1);
    let (action, cookie) = dispatch_request(&mut s, &listener, &mut store, 2);
    match action {
        DispatchAction::MethodNotAllowed { allowed, .. } => {
            assert_eq!(allowed, vec!["GET".to_string()]);
            respond_method_not_allowed(&mut s, &allowed, None, &cookie);
        },
        _ => panic!("expected 405"),
    }
    let out = drain(&mut s);
    assert!(out.starts_with(b"HTTP/1.1 405 Method Not Allowed\r\n"));
    assert!(bytes_contain(&out, b"Allow: GET\r\n"));
    assert!(bytes_contain(&out, b"Server: localserver\r\n"));
}

#[test]
fn oversized_body_gets_413_before_the_body_arrives() {
    let mut srv = server("s", "127.0.0.1", 8080, "./www", vec![route("/", &["GET", "POST"])]);
    srv.client_max_body_size = 10;
    let listener = listener_for(vec![srv], 8080);
    let mut s = SocketStatus::new(0);
    let head = b"POST /up HTTP/1.1\r\nHost: any\r\nContent-Length: 1000\r\n\r\n".to_vec();
    let step = process_read_chunk(&mut s, head, &listener, 1);
    assert!(matches!(step, ReadStep::NeedMore));
    let step2 = process_read_chunk(&mut s, vec![b'x'; 20], &listener, 2);
    assert!(matches!(step2, ReadStep::Respond));
    assert!(s.body_too_large);
    assert!(matches!(s.status, Status::Write));
    let out = drain(&mut s);
    assert!(out.starts_with(b"HTTP/1.1 413 Payload Too Large\r\n"));
    assert!(out.ends_with(b"Request body too large"));
}

#[test]
fn malformed_head_gets_400() {
    let srv = server("s", "127.0.0.1", 8080, "./www", vec![route("/", &["GET"])]);
    let listener = listener_for(vec![srv], 8080);
    let mut s = SocketStatus::new(0);
    let step = process_read_chunk(&mut s, b"NONSENSE\r\n\r\n".to_vec(), &listener, 1);
    assert!(matches!(step, ReadStep::Respond));
    let out = drain(&mut s);
    assert!(out.starts_with(b"HTTP/1.1 400 Bad Request\r\n"));
}

#[test]
fn redirect_route_gets_301_with_location() {
    let mut r = route("/old", &["GET"]);
    r.redirect = Some("/new".to_string());
    let srv = server("s", "127.0.0.1", 8080, "./www", vec![r]);
    let listener = listener_for(vec![srv], 8080);
    let mut store = SessionStore::new();
    let mut s = SocketStatus::new(0);
    process_read_chunk(&mut s, b"GET /old HTTP/1.1\r\nHost: any\r\n\r\n".to_vec(), &listener, 1);
    let (action, _cookie) = dispatch_request(&mut s, &listener, &mut store, 2);
    assert!(matches!(action, DispatchAction::Respond));
    let out = drain(&mut s);
    assert!(out.starts_with(b"HTTP/1.1 301 Moved Permanently\r\n"));
    assert!(bytes_contain(&out, b"Location: /new\r\n"));
}

#[test]
fn virtual_hosts_select_by_host_header() {
    let a = server("a", "127.0.0.1", 8080, "./a_root", vec![route("/", &["GET"])]);
    let b = server("b", "127.0.0.1", 8080, "./b_root", vec![route("/", &["GET"])]);
    let listener = listener_for(vec![a, b], 8080);
    let mut store = SessionStore::new();

    let mut s1 = SocketStatus::new(0);
    process_read_chunk(&mut s1, b"GET /x HTTP/1.1\r\nHost: b\r\n\r\n".to_vec(), &listener, 1);
    let (action1, _) = dispatch_request(&mut s1, &listener, &mut store, 2);
    match action1 {
        DispatchAction::ServeFile { path, .. } => assert!(path.starts_with("./b_root/")),
        _ => panic!("expected a file"),
    }

    let mut s2 = SocketStatus::new(0);
    process_read_chunk(&mut s2, b"GET /x HTTP/1.1\r\nHost: c\r\n\r\n".to_vec(), &listener, 1);
    let (action2, _) = dispatch_request(&mut s2, &listener, &mut store, 2);
    match action2 {
        DispatchAction::ServeFile { path, .. } => assert!(path.starts_with("./a_root/")),
        _ => panic!("expected a file"),
    }
}

#[test]
fn traversal_is_rejected_with_404() {
    let srv = server("s", "127.0.0.1", 8080, "./www", vec![route("/", &["GET"])]);
    let listener = listener_for(vec![srv], 8080);
    let mut store = SessionStore::new();
    let mut s = SocketStatus::new(0);
    process_read_chunk(
        &mut s,
        b"GET /../etc/passwd HTTP/1.1\r\nHost: any\r\n\r\n".to_vec(),
        &listener,
        1,
    );
    let (action, _) = dispatch_request(&mut s, &listener, &mut store, 2);
    assert!(matches!(action, DispatchAction::NotFound { .. }));
}

#[test]
fn resolution_stays_under_the_base() {
    let srv = server("s", "127.0.0.1", 8080, "./www", vec![route("/", &["GET"])]);
    let r = &srv.routes[0];
    assert!(resolve_file_path(&srv, r, "/../etc/passwd").is_none());
    assert!(resolve_file_path(&srv, r, "/a/../../etc").is_none());
    let ok = resolve_file_path(&srv, r, "/a/b/../c").unwrap();
    assert!(ok.starts_with("./www/"));
    assert!(ok.ends_with("a/c"));
}

#[test]
fn keep_alive_resets_the_connection() {
    let srv = server("s", "127.0.0.1", 8080, "./www", vec![route("/", &["GET"])]);
    let listener = listener_for(vec![srv], 8080);
    let mut s = SocketStatus::new(0);
    process_read_chunk(
        &mut s,
        b"GET / HTTP/1.1\r\nHost: any\r\nConnection: keep-alive\r\n\r\n".to_vec(),
        &listener,
        1,
    );
    assert!(should_keep_alive(s.request.get().unwrap()));
    let keep = finish_response(&mut s);
    assert!(keep);
    assert!(matches!(s.status, Status::Read));
    assert!(s.response.is_none());
    assert!(!s.request.header_done());
    assert!(!s.server_selected);

    let step = process_read_chunk(
        &mut s,
        b"GET /again HTTP/1.1\r\nHost: any\r\n\r\n".to_vec(),
        &listener,
        5,
    );
    assert!(matches!(step, ReadStep::Ready));
    assert_eq!(s.request.get().unwrap().path, "/again");
}

#[test]
fn connection_close_finishes() {
    let srv = server("s", "127.0.0.1", 8080, "./www", vec![route("/", &["GET"])]);
    let listener = listener_for(vec![srv], 8080);
    let mut s = SocketStatus::new(0);
    process_read_chunk(&mut s, b"GET / HTTP/1.1\r\nHost: any\r\n\r\n".to_vec(), &listener, 1);
    let keep = finish_response(&mut s);
    assert!(!keep);
    assert!(matches!(s.status, Status::Finish));
}

#[test]
fn longest_prefix_wins_and_short_prefixes_do_not_shadow() {
    let srv = server(
        "s",
        "127.0.0.1",
        8080,
        "./www",
        vec![route("/", &["GET"]), route("/a", &["GET"]), route("/a/b", &["GET"])],
    );
    assert_eq!(find_matching_route(&srv, "/a/b/c").unwrap().path, "/a/b");
    assert_eq!(find_matching_route(&srv, "/a/x").unwrap().path, "/a");
    assert_eq!(find_matching_route(&srv, "/ab").unwrap().path, "/");
    assert_eq!(find_matching_route(&srv, "/zzz").unwrap().path, "/");
    let bare = server("s", "127.0.0.1", 8080, "./www", vec![route("/a", &["GET"])]);
    assert!(find_matching_route(&bare, "/zzz").is_none());
}

#[test]
fn router_serves_routes_and_handlers() {
    let mut router: Router<fn() -> u32> = Router::new();
    router.load_routes(vec![route("/static", &["GET"])]);
    assert!(router.route("/custom").is_none());
    fn h() -> u32 {
        7
    }
    router.add_handler("/custom", h);
    let found = router.route("/custom").unwrap();
    assert_eq!(found(), 7);

    let mut b = localserver::request::HttpRequestBuilder::new();
    b.append(b"GET /static/x.css HTTP/1.1\r\nHost: a\r\n\r\n".to_vec()).unwrap();
    let req = b.get().unwrap();
    assert_eq!(router.find_route("/static/x.css").unwrap().path, "/static");
    let p = router.resolve_static_path(req).unwrap();
    assert_eq!(p, "/x.css");
    let resp = router.handle_request(req, Some(b"body".to_vec()));
    assert_eq!(resp.status_code, 200);
    let bytes = resp.to_bytes();
    assert!(bytes.starts_with(b"HTTP/1.1 200 OK\r\n"));
    assert!(bytes_contain(&bytes, b"Content-Type: text/css\r\n"));
    let nf = router.handle_request(req, None);
    assert_eq!(nf.status_code, 404);
}

#[test]
fn config_parses_the_documented_shape() {
    let text = "servers:\n  - server_name: \"example\"\n    host: 127.0.0.1\n    ports:\n      - 8080\n      - 9090\n    default_server: true\n    client_max_body_size: 1000000\n    root: \"./www\"\n    error_pages:\n      404: \"./errors/404.html\"\n    routes:\n      - path: \"/static\"\n        methods: [GET, POST]\n        root: \"static\"\n        default_file: \"index.html\"\n        list_directory: true\n";
    let cfg = parse_config(text).unwrap();
    assert_eq!(cfg.servers.len(), 1);
    let s = &cfg.servers[0];
    assert_eq!(s.server_name, "example");
    assert_eq!(s.host, "127.0.0.1");
    assert_eq!(s.ports, vec![8080, 9090]);
    assert!(s.default_server);
    assert_eq!(s.client_max_body_size, 1000000);
    assert_eq!(s.root, "./www");
    assert_eq!(s.error_pages.len(), 1);
    assert_eq!(s.error_pages[0].code, 404);
    assert_eq!(s.error_pages[0].path, "./errors/404.html");
    assert_eq!(s.routes.len(), 1);
    let r = &s.routes[0];
    assert_eq!(r.path, "/static");
    assert_eq!(r.methods, vec!["GET".to_string(), "POST".to_string()]);
    assert_eq!(r.root.as_deref(), Some("static"));
    assert_eq!(r.default_file.as_deref(), Some("index.html"));
    assert_eq!(r.list_directory, Some(true));
}

#[test]
fn config_defaults_and_comments() {
    let text = "servers:\n  # a comment\n  - host: 0.0.0.0\n    root: \"./w\"\n";
    let cfg = parse_config(text).unwrap();
    let s = &cfg.servers[0];
    assert_eq!(s.server_name, "0.0.0.0");
    assert_eq!(s.ports, vec![80]);
    assert_eq!(s.client_max_body_size, 1000000);
    assert!(!s.default_server);
}

#[test]
fn config_rejects_bad_input() {
    assert!(parse_config("").is_err());
    assert!(parse_config("nonsense:\n").is_err());
    assert!(parse_config("servers:\n").is_err());
    assert!(parse_config("servers:\n  - host: h\n").is_err());
    assert!(parse_config("servers:\n  - host: h\n    root: r\n    bogus_key: 1\n").is_err());
    assert!(
        parse_config("servers:\n  - host: h\n    root: r\n    ports:\n      - nope\n").is_err()
    );
    assert!(
        parse_config(
            "servers:\n  - host: h\n    root: r\n    routes:\n      - path: \"/\"\n"
        ).is_err()
    );
}

#[test]
fn listeners_group_servers_by_host_and_port() {
    let mut a = server("a", "127.0.0.1", 8080, "./a", vec![route("/", &["GET"])]);
    let mut b = server("b", "127.0.0.1", 8080, "./b", vec![route("/", &["GET"])]);
    b.default_server = true;
    let c = server("c", "127.0.0.1", 9090, "./c", vec![route("/", &["GET"])]);
    a.ports = vec![8080, 9090];
    let cfg = Config { servers: vec![a, b, c] };
    let listeners = build_listeners(&cfg);
    assert_eq!(listeners.len(), 2);
    let l0 = &listeners[0];
    assert_eq!(l0.port, 8080);
    assert_eq!(l0.servers.len(), 2);
    assert_eq!(l0.default_server_index, 1);
    assert_eq!(l0.servers[1].server_name, "b");
    let l1 = &listeners[1];
    assert_eq!(l1.port, 9090);
    assert_eq!(l1.servers.len(), 2);
    assert_eq!(l1.default_server_index, 0);
}

#[test]
fn canonical_containment_rule() {
    assert!(localserver::read::canonical_within("/srv/www", "/srv/www"));
    assert!(localserver::read::canonical_within("/srv/www", "/srv/www/a/b.html"));
    assert!(!localserver::read::canonical_within("/srv/www", "/srv/www-other/x"));
    assert!(!localserver::read::canonical_within("/srv/www", "/etc/passwd"));
}

#[test]
fn expiry_is_measured_from_last_activity() {
    let s = SocketStatus::new(100);
    assert!(!s.is_expired(104, 5));
    assert!(s.is_expired(106, 5));
}
