//! The read side of a connection: host and route resolution, and the safe
//! mapping from a request path to a file system path.

use vstd::prelude::*;

use vstd::string::StringExecFns;

use crate::config::{Route, RouteV, ServerConfig, ErrorPageV, spec_split_char, split_char_all};
use crate::request::{HttpHeaders, spec_lookup, spec_find_from, lemma_find_from_props};
use crate::models::HttpResponseCommon;
use crate::server::{ListenerInfo, SocketStatus};
use crate::strutil::{
    eq_str, spec_starts_with, starts_with_str, str_len, substr, decimal_string, spec_decimal,
    split_once_char,
};

verus! {

/// The route's path covers the request path: the catch-all `/` covers
/// everything, otherwise the request path is the route path or extends it
/// past a `/`.
pub open spec fn spec_route_matches(rp: Seq<char>, route_path: Seq<char>) -> bool {
    route_path == "/"@ || rp == route_path || spec_starts_with(rp, route_path + "/"@)
}

/// Executable counterpart of `spec_route_matches`.
pub fn route_matches(request_path: &str, route_path: &str) -> (r: bool)
    ensures
        r == spec_route_matches(request_path@, route_path@),
{
    if eq_str(route_path, "/") {
        true
    } else if eq_str(request_path, route_path) {
        true
    } else {
        let mut with_slash = route_path.to_owned();
        with_slash.append("/");
        starts_with_str(request_path, with_slash.as_str())
    }
}

/// The matching route the fold settles on: the longest match wins, and of
/// two equally long matches the later one.
pub open spec fn spec_best_route(routes: Seq<RouteV>, rp: Seq<char>, i: int, best: Option<
    int,
>) -> Option<int>
    decreases routes.len() - i,
    when 0 <= i
{
    if i >= routes.len() {
        best
    } else {
        let better = if spec_route_matches(rp, routes[i].path) && (match best {
            Some(b) => routes[i].path.len() >= routes[b].path.len(),
            None => true,
        }) {
            Some(i)
        } else {
            best
        };
        spec_best_route(routes, rp, i + 1, better)
    }
}

proof fn lemma_best_route_props(routes: Seq<RouteV>, rp: Seq<char>, i: int, best: Option<int>)
    requires
        0 <= i,
        match best {
            Some(b) => 0 <= b < routes.len() && spec_route_matches(rp, routes[b].path)
                && forall|k: int|
                    0 <= k < i && spec_route_matches(rp, (#[trigger] routes[k]).path)
                        ==> routes[k].path.len() <= routes[b].path.len(),
            None => forall|k: int|
                0 <= k < i ==> !spec_route_matches(rp, (#[trigger] routes[k]).path),
        },
    ensures
        match spec_best_route(routes, rp, i, best) {
            Some(b) => 0 <= b < routes.len() && spec_route_matches(rp, routes[b].path)
                && forall|k: int|
                    0 <= k < routes.len() && spec_route_matches(rp, (#[trigger] routes[k]).path)
                        ==> routes[k].path.len() <= routes[b].path.len(),
            None => forall|k: int|
                0 <= k < routes.len() ==> !spec_route_matches(rp, (#[trigger] routes[k]).path),
        },
    decreases routes.len() - i,
{
    if i >= routes.len() {
    } else {
        let better = if spec_route_matches(rp, routes[i].path) && (match best {
            Some(b) => routes[i].path.len() >= routes[b].path.len(),
            None => true,
        }) {
            Some(i)
        } else {
            best
        };
        lemma_best_route_props(routes, rp, i + 1, better);
    }
}

/// The longest-prefix rule: the chosen route covers the path, and no
/// covering route has a longer path; when nothing covers, there is none.
pub proof fn law_longest_prefix(routes: Seq<RouteV>, rp: Seq<char>)
    ensures
        match spec_best_route(routes, rp, 0, None) {
            Some(b) => 0 <= b < routes.len() && spec_route_matches(rp, routes[b].path)
                && forall|k: int|
                    0 <= k < routes.len() && spec_route_matches(rp, (#[trigger] routes[k]).path)
                        ==> routes[k].path.len() <= routes[b].path.len(),
            None => forall|k: int|
                0 <= k < routes.len() ==> !spec_route_matches(rp, (#[trigger] routes[k]).path),
        },
{
    lemma_best_route_props(routes, rp, 0, None);
}

/// Picks the route whose path is the longest prefix of the request path;
/// `/` always qualifies.
pub fn find_matching_route<'a>(server: &'a ServerConfig, request_path: &str) -> (r: Option<
    &'a Route,
>)
    ensures
        match r {
            Some(route) => spec_best_route(server@.routes, request_path@, 0, None) matches Some(b)
                && route@ == server@.routes[b],
            None => spec_best_route(server@.routes, request_path@, 0, None) is None,
        },
{
    let n = server.routes.len();
    let mut best: Option<usize> = None;
    let mut i: usize = 0;
    while i < n
        invariant
            0 <= i <= n,
            n == server.routes@.len(),
            server@.routes.len() == n,
            forall|k: int| 0 <= k < n ==> server@.routes[k] == (#[trigger] server.routes@[k])@,
            match best {
                Some(b) => b < n && spec_best_route(server@.routes, request_path@, 0, None)
                    == spec_best_route(server@.routes, request_path@, i as int, Some(b as int)),
                None => spec_best_route(server@.routes, request_path@, 0, None) == spec_best_route(
                    server@.routes,
                    request_path@,
                    i as int,
                    None::<int>,
                ),
            },
        decreases n - i,
    {
        let candidate = &server.routes[i];
        let is_match = route_matches(request_path, candidate.path.as_str());
        let take = if is_match {
            match best {
                Some(b) => {
                    let bl = str_len(server.routes[b].path.as_str());
                    let cl = str_len(candidate.path.as_str());
                    cl >= bl
                },
                None => true,
            }
        } else {
            false
        };
        if take {
            best = Some(i);
        }
        i = i + 1;
    }
    match best {
        Some(b) => Some(&server.routes[b]),
        None => None,
    }
}

/// The host named in the request: the `Host` header up to the first `:`,
/// or nothing.
pub open spec fn spec_hostname_of(headers: Seq<(Seq<char>, Seq<char>)>) -> Seq<char> {
    match spec_lookup(headers, "host"@) {
        Some(h) => match spec_find_from(h, ':', 0) {
            Some(i) => h.subrange(0, i),
            None => h,
        },
        None => Seq::empty(),
    }
}

/// Extracts the hostname from the request headers.
pub fn extract_hostname(headers: &HttpHeaders) -> (r: String)
    ensures
        r@ == spec_hostname_of(headers@),
{
    match headers.get("host") {
        Some(h) => {
            match split_once_char(h.as_str(), ':') {
                Some(ab) => {
                    proof {
                        let i = choose|i: int|
                            0 <= i < h@.len() && h@[i] == ':' && (forall|k: int|
                                0 <= k < i ==> h@[k] != ':') && ab.0@ == h@.subrange(0, i)
                                && ab.1@ == h@.subrange(i + 1, h@.len() as int);
                        crate::request::lemma_find_from_first(h@, ':', i);
                    }
                    ab.0
                },
                None => {
                    proof {
                        crate::request::lemma_find_from_none(h@, ':', 0);
                    }
                    h.clone()
                },
            }
        },
        None => String::new(),
    }
}

/// The configured page for a status code, else the conventional location.
pub open spec fn spec_error_page_path(pages: Seq<ErrorPageV>, code: u16) -> Seq<char> {
    spec_error_page_find(pages, code, 0)
}

/// Searches the configured error pages front to back.
pub open spec fn spec_error_page_find(pages: Seq<ErrorPageV>, code: u16, i: int) -> Seq<char>
    decreases pages.len() - i,
    when 0 <= i
{
    if i >= pages.len() {
        "./error_pages/"@ + spec_decimal(code as nat) + ".html"@
    } else if pages[i].code == code {
        pages[i].path
    } else {
        spec_error_page_find(pages, code, i + 1)
    }
}

/// The path of the page to serve for a status code: the configured page,
/// else the conventional location under `./error_pages/`.
pub fn get_error_page_path(server: &ServerConfig, status_code: u16) -> (r: String)
    ensures
        r@ == spec_error_page_path(server@.error_pages, status_code),
{
    let n = server.error_pages.len();
    let mut i: usize = 0;
    while i < n
        invariant
            0 <= i <= n,
            n == server.error_pages@.len(),
            server@.error_pages.len() == n,
            forall|k: int|
                0 <= k < n ==> server@.error_pages[k] == (#[trigger] server.error_pages@[k])@,
            spec_error_page_path(server@.error_pages, status_code) == spec_error_page_find(
                server@.error_pages,
                status_code,
                i as int,
            ),
        decreases n - i,
    {
        if server.error_pages[i].code == status_code {
            return server.error_pages[i].path.clone();
        }
        i = i + 1;
    }
    let mut s: String = "./error_pages/".to_owned();
    s.append(decimal_string(status_code as u64).as_str());
    s.append(".html");
    s
}

/// The server a hostname selects: the first whose name is the hostname,
/// else the listener's default.
pub open spec fn spec_server_sel(servers: Seq<crate::config::ServerConfigV>, host: Seq<char>, d: int) -> int {
    match spec_first_name_match(servers, host, 0) {
        Some(i) => i,
        None => d,
    }
}

/// The first server whose name equals the hostname.
pub open spec fn spec_first_name_match(
    servers: Seq<crate::config::ServerConfigV>,
    host: Seq<char>,
    i: int,
) -> Option<int>
    decreases servers.len() - i,
    when 0 <= i
{
    if i >= servers.len() {
        None
    } else if servers[i].server_name == host {
        Some(i)
    } else {
        spec_first_name_match(servers, host, i + 1)
    }
}

/// Selects the server for a hostname: the first name match, else the
/// listener's default server.
pub fn select_server<'a>(listener_info: &'a ListenerInfo, hostname: &str) -> (r: &'a ServerConfig)
    requires
        listener_info.default_server_index < listener_info.servers@.len(),
    ensures
        r@ == listener_info@.servers[spec_server_sel(
            listener_info@.servers,
            hostname@,
            listener_info.default_server_index as int,
        )],
        0 <= spec_server_sel(
            listener_info@.servers,
            hostname@,
            listener_info.default_server_index as int,
        ) < listener_info@.servers.len(),
{
    let n = listener_info.servers.len();
    let mut i: usize = 0;
    while i < n
        invariant
            0 <= i <= n,
            n == listener_info.servers@.len(),
            listener_info@.servers.len() == n,
            forall|k: int|
                0 <= k < n ==> listener_info@.servers[k] == (
                #[trigger] listener_info.servers@[k])@,
            spec_first_name_match(listener_info@.servers, hostname@, 0)
                == spec_first_name_match(listener_info@.servers, hostname@, i as int),
        decreases n - i,
    {
        if eq_str(listener_info.servers[i].server_name.as_str(), hostname) {
            return &listener_info.servers[i];
        }
        i = i + 1;
    }
    &listener_info.servers[listener_info.default_server_index]
}

/// Lexical normalisation of relative path segments: empty and `.` vanish,
/// `..` pops, and popping past the start rejects the path.
pub open spec fn spec_norm_segs(segs: Seq<Seq<char>>, i: int, stack: Seq<Seq<char>>) -> Option<
    Seq<Seq<char>>,
>
    decreases segs.len() - i,
    when 0 <= i
{
    if i >= segs.len() {
        Some(stack)
    } else {
        let s = segs[i];
        if s.len() == 0 || s == "."@ {
            spec_norm_segs(segs, i + 1, stack)
        } else if s == ".."@ {
            if stack.len() == 0 {
                None
            } else {
                spec_norm_segs(segs, i + 1, stack.drop_last())
            }
        } else {
            spec_norm_segs(segs, i + 1, stack.push(s))
        }
    }
}

/// Segments joined with `/`.
pub open spec fn spec_join_slash(parts: Seq<Seq<char>>) -> Seq<char>
    decreases parts.len(),
{
    if parts.len() == 0 {
        Seq::empty()
    } else if parts.len() == 1 {
        parts[0]
    } else {
        spec_join_slash(parts.drop_last()) + "/"@ + parts.last()
    }
}

/// The directory every resolved file must stay under.
pub open spec fn spec_base_of(server_root: Seq<char>, route_root: Option<Seq<char>>) -> Seq<char> {
    server_root + "/"@ + (match route_root {
        Some(rr) => rr,
        None => Seq::empty(),
    })
}

/// The part of the request path the route leaves open.
pub open spec fn spec_relative_of(rp: Seq<char>, route_path: Seq<char>) -> Seq<char> {
    let stripped = if spec_starts_with(rp, route_path) {
        rp.subrange(route_path.len() as int, rp.len() as int)
    } else {
        Seq::empty()
    };
    crate::strutil::spec_ltrim_char(stripped, '/')
}

/// What path resolution yields: the base when nothing is left, else the
/// base extended by the normalised segments; `None` when the path climbs
/// out of the base.
pub open spec fn spec_resolve(
    server_root: Seq<char>,
    route_root: Option<Seq<char>>,
    route_path: Seq<char>,
    rp: Seq<char>,
) -> Option<Seq<char>> {
    let base = spec_base_of(server_root, route_root);
    let rel = spec_relative_of(rp, route_path);
    match spec_norm_segs(spec_split_char(rel, '/'), 0, Seq::empty()) {
        Some(stack) => if stack.len() == 0 {
            Some(base)
        } else {
            Some(base + "/"@ + spec_join_slash(stack))
        },
        None => None,
    }
}

/// Resolves a request path to a file system path under the route's base
/// directory, or rejects it. A path that climbs out of the base with `..`
/// segments is rejected, so every accepted path stays under the base.
pub fn resolve_file_path(server: &ServerConfig, route: &Route, request_path: &str) -> (r: Option<
    String,
>)
    ensures
        match r {
            Some(p) => spec_resolve(server@.root, route@.root, route@.path, request_path@)
                == Some(p@) && (p@ == spec_base_of(server@.root, route@.root)
                || spec_starts_with(p@, spec_base_of(server@.root, route@.root) + "/"@)),
            None => spec_resolve(server@.root, route@.root, route@.path, request_path@) is None,
        },
{
    let mut base: String = server.root.clone();
    base.append("/");
    match &route.root {
        Some(rr) => {
            base.append(rr.as_str());
        },
        None => {},
    }
    let stripped: String = if starts_with_str(request_path, route.path.as_str()) {
        let rl = str_len(request_path);
        let pl = str_len(route.path.as_str());
        substr(request_path, pl, rl)
    } else {
        String::new()
    };
    let rel = crate::strutil::ltrim_char_str(stripped.as_str(), '/');
    let segs = split_char_all(rel.as_str(), '/');
    let ghost segv = segs.deep_view();
    let n = segs.len();
    let mut stack: Vec<String> = Vec::new();
    let mut i: usize = 0;
    proof {
        assert(stack.deep_view() =~= Seq::<Seq<char>>::empty());
    }
    while i < n
        invariant
            0 <= i <= n,
            n == segs@.len(),
            segv == segs.deep_view(),
            segv.len() == n,
            segv == spec_split_char(spec_relative_of(request_path@, route@.path), '/'),
            spec_norm_segs(segv, 0, Seq::empty()) == spec_norm_segs(
                segv,
                i as int,
                stack.deep_view(),
            ),
        decreases n - i,
    {
        proof {
            assert(segv[i as int] == segs@[i as int]@);
        }
        let s = vstd::slice::slice_index_get(segs.as_slice(), i);
        if str_len(s.as_str()) == 0 || eq_str(s.as_str(), ".") {
        } else if eq_str(s.as_str(), "..") {
            let ghost stv = stack.deep_view();
            match stack.pop() {
                Some(_) => {
                    proof {
                        assert(stack.deep_view() =~= stv.drop_last());
                    }
                },
                None => {
                    proof {
                        assert(stack.deep_view().len() == 0);
                        assert(spec_norm_segs(segv, i as int, stv) is None);
                    }
                    return None;
                },
            }
        } else {
            let ghost stv = stack.deep_view();
            stack.push(s.clone());
            proof {
                assert(stack.deep_view() =~= stv.push(segv[i as int]));
            }
        }
        i = i + 1;
    }
    let ghost basev = base@;
    if stack.len() == 0 {
        return Some(base);
    }
    let m = stack.len();
    let mut out = base;
    out.append("/");
    let mut j: usize = 0;
    let ghost stackv = stack.deep_view();
    while j < m
        invariant
            0 <= j <= m,
            m == stack@.len(),
            stackv == stack.deep_view(),
            stackv.len() == m,
            m > 0,
            j > 0 ==> out@ == basev + "/"@ + spec_join_slash(stackv.subrange(0, j as int)),
            j == 0 ==> out@ == basev + "/"@,
        decreases m - j,
    {
        proof {
            assert(stackv[j as int] == stack@[j as int]@);
        }
        if j > 0 {
            out.append("/");
        }
        out.append(vstd::slice::slice_index_get(stack.as_slice(), j).as_str());
        proof {
            let pre = stackv.subrange(0, j + 1);
            assert(pre.drop_last() =~= stackv.subrange(0, j as int));
            assert(pre.last() == stackv[j as int]);
            if j == 0 {
                assert(pre =~= seq![stackv[0]]);
                assert(out@ =~= basev + "/"@ + spec_join_slash(pre));
            } else {
                assert(out@ =~= basev + "/"@ + spec_join_slash(pre));
            }
        }
        j = j + 1;
    }
    proof {
        assert(stackv.subrange(0, m as int) =~= stackv);
        lemma_concat_starts_with(basev, spec_join_slash(stackv));
    }
    Some(out)
}

proof fn lemma_concat_starts_with(base: Seq<char>, rest: Seq<char>)
    ensures
        spec_starts_with(base + "/"@ + rest, base + "/"@),
{
    let full = base + "/"@ + rest;
    assert(full.subrange(0, (base + "/"@).len() as int) =~= base + "/"@);
}

/// What one read of the socket led to: keep reading, dispatch the
/// complete request, or start writing a response already decided.
pub enum ReadStep {
    NeedMore,
    Ready,
    Respond,
}

/// Absorbs one chunk read from the socket. The head is parsed when its
/// terminator arrives and the virtual host is latched; a body that passes
/// the admission limit is cut short with a 413; a malformed head gets a
/// 400; a complete request is handed on for dispatch.
pub fn process_read_chunk(
    s: &mut SocketStatus,
    chunk: Vec<u8>,
    listener: &ListenerInfo,
    now: u64,
) -> (r: ReadStep)
    requires
        old(s).wf(),
        old(s).status is Read,
        !old(s).body_too_large,
        listener.wf(),
    ensures
        final(s).wf(),
        final(s).ttl == now,
        final(s).request.bytes() == old(s).request.bytes() + chunk@,
        match r {
            ReadStep::NeedMore => final(s).status is Read && !final(s).body_too_large
                && !(final(s).request.spec_state() is Complete),
            ReadStep::Ready => final(s).status is Read && !final(s).body_too_large
                && final(s).request.spec_state() is Complete
                && !final(s).request.spec_failed(),
            ReadStep::Respond => final(s).status is Write && final(s).response is Some,
        },
        (r is NeedMore || r is Ready) ==> (match final(s).max_body_size {
            Some(m) => crate::request::spec_body_sofar(final(s).request.bytes()) <= m,
            None => true,
        }),
        r is Respond ==> final(s).request.spec_failed() || final(s).body_too_large,
        final(s).body_too_large && !old(s).body_too_large ==> (match final(s).max_body_size {
            Some(m) => crate::request::spec_body_sofar(final(s).request.bytes()) > m,
            None => false,
        }),
        final(s).request.spec_failed() ==> crate::request::spec_head_end(final(s).request.bytes()) is Some && (
        crate::request::spec_head_ascii(final(s).request.bytes())
            ==> crate::request::spec_parse_error(final(s).request.bytes())),
        (old(s).request.spec_state() is Headline && crate::request::spec_head_ascii(
            final(s).request.bytes(),
        ) && crate::request::spec_parse_error(final(s).request.bytes()))
            ==> final(s).request.spec_failed(),
        (!final(s).request.spec_failed() && (match final(s).max_body_size {
            Some(m) => crate::request::spec_body_sofar(final(s).request.bytes()) > m,
            None => false,
        })) ==> final(s).body_too_large && final(s).request.spec_state() is Complete,
        old(s).server_selected ==> final(s).server_selected && final(s).max_body_size == old(
            s,
        ).max_body_size,
        final(s).body_too_large && !old(s).body_too_large ==> r is Respond && (match final(s).response {
            Some(p) => p.pending() == crate::response::spec_build_bytes(
                413,
                "Payload Too Large"@,
                Seq::<(Seq<char>, Seq<char>)>::empty(),
                vstd::utf8::encode_utf8("Request body too large"@),
            ) && p.done() == Seq::<u8>::empty(),
            None => false,
        }),
        final(s).request.spec_failed() ==> r is Respond && (match final(s).response {
            Some(p) => p.pending() == crate::response::spec_build_bytes(
                400,
                "Bad Request"@,
                Seq::<(Seq<char>, Seq<char>)>::empty(),
                vstd::utf8::encode_utf8("Bad Request"@),
            ) && p.done() == Seq::<u8>::empty(),
            None => false,
        }),
{
    s.ttl = now;
    match s.request.append(chunk) {
        Err(_) => {
            let body = "Bad Request".as_bytes_vec();
            let bytes = crate::response::HttpResponseBuilder::new(400, "Bad Request").body(
                body,
            ).build();
            s.response = Some(
                crate::models::ResponseProducer::Simple(crate::models::SimpleResponse::new(bytes)),
            );
            s.status = crate::server::Status::Write;
            ReadStep::Respond
        },
        Ok(()) => {
            if s.request.header_done() && !s.server_selected {
                let hostname: String = match s.request.get_before_done() {
                    Some(req) => extract_hostname(&req.headers),
                    None => String::new(),
                };
                proof {
                    assert(listener.servers@.len() == listener@.servers.len());
                }
                let selected = select_server(listener, hostname.as_str());
                s.max_body_size = Some(selected.client_max_body_size);
                s.server_selected = true;
            }
            let over: bool = match s.max_body_size {
                Some(max) => s.request.body_len() > max,
                None => false,
            };
            if over {
                proof {
                    crate::request::law_header_done_iff(s.request);
                }
                s.body_too_large = true;
                s.request.set_state(crate::request::ParserState::Complete);
                let body = "Request body too large".as_bytes_vec();
                let bytes = crate::response::HttpResponseBuilder::new(
                    413,
                    "Payload Too Large",
                ).body(body).build();
                s.response = Some(
                    crate::models::ResponseProducer::Simple(
                        crate::models::SimpleResponse::new(bytes),
                    ),
                );
                s.status = crate::server::Status::Write;
                ReadStep::Respond
            } else if s.request.done() {
                ReadStep::Ready
            } else {
                ReadStep::NeedMore
            }
        },
    }
}

/// Attaches an in-memory response and turns the connection to writing.
pub fn respond_bytes(s: &mut SocketStatus, bytes: Vec<u8>)
    requires
        old(s).wf(),
    ensures
        final(s).wf(),
        final(s).status is Write,
        final(s).request == old(s).request,
        final(s).ttl == old(s).ttl,
        match final(s).response {
            Some(p) => p.pending() == bytes@ && p.done() == Seq::<u8>::empty() && p.eof(),
            None => false,
        },
{
    s.response = Some(
        crate::models::ResponseProducer::Simple(crate::models::SimpleResponse::new(bytes)),
    );
    s.status = crate::server::Status::Write;
}

/// Serves an error page the caller read, or the minimal response when it
/// could not be read, and turns the connection to writing.
pub fn respond_error_page(
    s: &mut SocketStatus,
    status_code: u16,
    status_text: &str,
    page: Option<Vec<u8>>,
    cookie: &crate::session::Cookie,
)
    requires
        old(s).wf(),
    ensures
        final(s).wf(),
        final(s).status is Write,
        final(s).request == old(s).request,
        match final(s).response {
            Some(p) => p.pending() == crate::response::spec_error_page_bytes(
                status_code,
                status_text@,
                match page {
                    Some(pg) => Some(pg@),
                    None => None,
                },
                *cookie,
            ) && p.done() == Seq::<u8>::empty() && p.eof(),
            None => false,
        },
{
    let bytes = crate::response::serve_error_page(page, status_code, status_text, cookie);
    respond_bytes(s, bytes);
}

/// Serves a 405 naming the allowed methods and turns the connection to
/// writing.
pub fn respond_method_not_allowed(
    s: &mut SocketStatus,
    allowed: &[String],
    page: Option<Vec<u8>>,
    cookie: &crate::session::Cookie,
)
    requires
        old(s).wf(),
    ensures
        final(s).wf(),
        final(s).status is Write,
        final(s).request == old(s).request,
        ({
            let allow = crate::strutil::spec_trim(
                crate::response::spec_join_comma(allowed.deep_view()),
            );
            let sc = crate::response::spec_sc_of(*cookie);
            let expect = match page {
                Some(pg) => crate::response::spec_build_bytes(
                    405,
                    "Method Not Allowed"@,
                    seq![("Allow"@, allow), ("Content-Type"@, "text/html"@), ("Set-Cookie"@, sc)],
                    pg@,
                ),
                None => crate::response::spec_build_bytes(
                    405,
                    "Method Not Allowed"@,
                    seq![("Allow"@, allow), ("Content-Type"@, "text/plain"@), ("Set-Cookie"@, sc)],
                    vstd::utf8::encode_utf8("Method Not Allowed"@),
                ),
            };
            match final(s).response {
                Some(p) => p.pending() == expect && p.done() == Seq::<u8>::empty(),
                None => false,
            }
        }),
{
    let bytes = crate::response::handle_method_not_allowed(allowed, page, cookie);
    respond_bytes(s, bytes);
}

/// Serves a directory listing the caller generated and turns the
/// connection to writing.
pub fn respond_listing(s: &mut SocketStatus, html: Vec<u8>, cookie: &crate::session::Cookie)
    requires
        old(s).wf(),
    ensures
        final(s).wf(),
        final(s).status is Write,
        final(s).request == old(s).request,
        match final(s).response {
            Some(p) => p.pending() == crate::response::spec_build_bytes(
                200,
                "OK"@,
                seq![
                    ("Content-Type"@, "text/html"@),
                    ("Set-Cookie"@, crate::response::spec_sc_of(*cookie)),
                ],
                html@,
            ) && p.done() == Seq::<u8>::empty(),
            None => false,
        },
{
    let bytes = crate::response::serve_directory_listing(html, cookie);
    respond_bytes(s, bytes);
}

/// Serves the outcome of an upload the caller attempted and turns the
/// connection to writing.
pub fn respond_upload(
    s: &mut SocketStatus,
    file_path: &str,
    write_error: Option<String>,
    cookie: &crate::session::Cookie,
)
    requires
        old(s).wf(),
    ensures
        final(s).wf(),
        final(s).status is Write,
        final(s).request == old(s).request,
        ({
            let sc = crate::response::spec_sc_of(*cookie);
            let expect = match write_error {
                None => crate::response::spec_build_bytes(
                    200,
                    "OK"@,
                    seq![("Content-Type"@, "text/plain"@), ("Set-Cookie"@, sc)],
                    vstd::utf8::encode_utf8("File uploaded successfully"@),
                ),
                Some(e) => crate::response::spec_build_bytes(
                    500,
                    "Internal Server Error"@,
                    seq![("Content-Type"@, "text/plain"@), ("Set-Cookie"@, sc)],
                    vstd::utf8::encode_utf8("Error: "@ + e@),
                ),
            };
            match final(s).response {
                Some(p) => p.pending() == expect && p.done() == Seq::<u8>::empty(),
                None => false,
            }
        }),
{
    let bytes = crate::response::handle_post(file_path, write_error, cookie);
    respond_bytes(s, bytes);
}

/// Serves the outcome of a multipart upload and turns the connection to
/// writing: a failed part write becomes a 500, no extracted file a 400,
/// success a 201 naming the saved files.
pub fn respond_multipart(
    s: &mut SocketStatus,
    saved: &[String],
    first_error: Option<String>,
    cookie: &crate::session::Cookie,
)
    requires
        old(s).wf(),
    ensures
        final(s).wf(),
        final(s).status is Write,
        final(s).request == old(s).request,
        ({
            let expect = match first_error {
                Some(e) => crate::response::spec_build_bytes(
                    500,
                    "Internal Server Error"@,
                    seq![
                        ("Content-Type"@, "text/plain"@),
                        ("Set-Cookie"@, crate::response::spec_sc_of(*cookie)),
                    ],
                    vstd::utf8::encode_utf8("Error: "@ + e@),
                ),
                None => if saved@.len() == 0 {
                    crate::response::spec_build_bytes(
                        400,
                        "Bad Request"@,
                        Seq::<(Seq<char>, Seq<char>)>::empty(),
                        vstd::utf8::encode_utf8("Invalid multipart body or no files found"@),
                    )
                } else {
                    crate::response::spec_build_bytes(
                        201,
                        "Created"@,
                        Seq::<(Seq<char>, Seq<char>)>::empty(),
                        vstd::utf8::encode_utf8(
                            crate::response::spec_multipart_message(saved.deep_view()),
                        ),
                    )
                },
            };
            match final(s).response {
                Some(p) => p.pending() == expect && p.done() == Seq::<u8>::empty(),
                None => false,
            }
        }),
{
    let bytes = crate::response::multipart_response(saved, first_error, cookie);
    respond_bytes(s, bytes);
}

/// Serves the response of one CGI run and turns the connection to writing.
pub fn respond_cgi(s: &mut SocketStatus, outcome: crate::cgi::CgiOutcome)
    requires
        old(s).wf(),
    ensures
        final(s).wf(),
        final(s).status is Write,
        final(s).request == old(s).request,
        ({
            let expect = match outcome {
                crate::cgi::CgiOutcome::Output(v) => crate::cgi::spec_cgi_output_bytes(v@),
                crate::cgi::CgiOutcome::SpawnFailed => crate::response::spec_build_bytes(
                    500,
                    "Internal Server Error"@,
                    Seq::<(Seq<char>, Seq<char>)>::empty(),
                    Seq::<u8>::empty(),
                ),
                crate::cgi::CgiOutcome::Failed => crate::response::spec_build_bytes(
                    502,
                    "Bad Gateway"@,
                    Seq::<(Seq<char>, Seq<char>)>::empty(),
                    Seq::<u8>::empty(),
                ),
                crate::cgi::CgiOutcome::TimedOut => crate::response::spec_build_bytes(
                    504,
                    "Gateway Timeout"@,
                    Seq::<(Seq<char>, Seq<char>)>::empty(),
                    Seq::<u8>::empty(),
                ),
            };
            match final(s).response {
                Some(p) => p.pending() == expect && p.done() == Seq::<u8>::empty(),
                None => false,
            }
        }),
{
    let bytes = crate::cgi::cgi_response(outcome);
    respond_bytes(s, bytes);
}

/// Serves the outcome of a delete the caller attempted and turns the
/// connection to writing.
pub fn respond_delete(
    s: &mut SocketStatus,
    removed: bool,
    page: Option<Vec<u8>>,
    cookie: &crate::session::Cookie,
)
    requires
        old(s).wf(),
    ensures
        final(s).wf(),
        final(s).status is Write,
        final(s).request == old(s).request,
        ({
            let expect = if removed {
                crate::response::spec_build_bytes(
                    204,
                    "No Content"@,
                    Seq::<(Seq<char>, Seq<char>)>::empty(),
                    Seq::<u8>::empty(),
                )
            } else {
                crate::response::spec_error_page_bytes(
                    404,
                    "Not Found"@,
                    match page {
                        Some(pg) => Some(pg@),
                        None => None,
                    },
                    *cookie,
                )
            };
            match final(s).response {
                Some(p) => p.pending() == expect && p.done() == Seq::<u8>::empty(),
                None => false,
            }
        }),
{
    let bytes = crate::handler::handle_delete(removed, page, cookie);
    respond_bytes(s, bytes);
}

/// Attaches a streaming file response whose head announces the file's
/// length, and turns the connection to writing; the caller then feeds the
/// file's bytes chunk by chunk.
pub fn attach_file_response(
    s: &mut SocketStatus,
    path: &str,
    cookie: &crate::session::Cookie,
    file_len: u64,
)
    requires
        old(s).wf(),
    ensures
        final(s).wf(),
        final(s).status is Write,
        final(s).request == old(s).request,
        match final(s).response {
            Some(p) => p matches crate::models::ResponseProducer::File(f) && f.head_bytes()
                == vstd::utf8::encode_utf8(
                crate::models::spec_file_head(file_len, path@, *cookie),
            ) && f.pending() == f.head_bytes() && f.done() == Seq::<u8>::empty() && f.fed()
                == Seq::<u8>::empty() && !f.eof(),
            None => false,
        },
{
    let f = crate::models::FileResponse::new(path, cookie, file_len);
    s.response = Some(crate::models::ResponseProducer::File(f));
    s.status = crate::server::Status::Write;
}

/// The base directory a route serves from, as path resolution uses it.
pub fn route_base(server: &ServerConfig, route: &Route) -> (r: String)
    ensures
        r@ == spec_base_of(server@.root, route@.root),
{
    let mut base: String = server.root.clone();
    base.append("/");
    match &route.root {
        Some(rr) => {
            base.append(rr.as_str());
        },
        None => {},
    }
    base
}

/// The containment rule on canonical paths: the target is the base itself
/// or lies strictly under it. The caller canonicalizes both on disk (the
/// target's parent when the target does not yet exist) and refuses the
/// request when this answers false, which closes the symlink escape that
/// lexical resolution alone cannot see.
pub fn canonical_within(base: &str, p: &str) -> (r: bool)
    ensures
        r == (p@ == base@ || spec_starts_with(p@, base@ + "/"@)),
{
    if eq_str(p, base) {
        true
    } else {
        let mut b = base.to_owned();
        b.append("/");
        starts_with_str(p, b.as_str())
    }
}

/// A method the route allows: some configured method token parses to the
/// request's method.
pub open spec fn spec_method_allowed(methods: Seq<Seq<char>>, m: crate::request::HttpMethod) -> bool {
    exists|k: int|
        0 <= k < methods.len() && crate::request::spec_method_matches(m, methods[k])
}

/// What the dispatcher asks the embedding loop to do: everything that
/// touches the file system or an outside process is handed out; the
/// decisions themselves are all made here.
pub enum DispatchAction {
    Respond,
    ServeFile { path: String, base: String, error_page: String },
    Listing { dir: String },
    Upload { save_path: String, base: String },
    UploadMultipart { dir: String, boundary: String, base: String },
    Delete { path: String, base: String, error_page: String },
    NotFound { error_page: String },
    MethodNotAllowed { allowed: Vec<String>, error_page: String },
    Cgi { script: String },
}

/// Dispatches a complete request: finds or mints the session, selects the
/// virtual host by the `Host` header, picks the route by longest prefix,
/// and decides the response or the file work the caller must do.
pub fn dispatch_request(
    s: &mut SocketStatus,
    listener: &ListenerInfo,
    store: &mut crate::session::SessionStore,
    now: u64,
) -> (r: (DispatchAction, crate::session::Cookie))
    requires
        old(s).wf(),
        old(s).status is Read,
        !old(s).body_too_large,
        old(s).request.spec_state() is Complete,
        !old(s).request.spec_failed(),
        listener.wf(),
    ensures
        final(s).wf(),
        final(s).request == old(s).request,
        r.1.name@ == "session_id"@,
        crate::session::spec_store_lookup(final(store)@, r.1.value@) matches Some(rec)
            && rec.last_seen == now,
        r.0 is Respond ==> final(s).status is Write && final(s).response is Some,
        !(r.0 is Respond) ==> final(s).status is Read && final(s).response == old(s).response,
        ({
            let req = old(s).request.spec_request()->Some_0;
            let srv = listener@.servers[spec_server_sel(
                listener@.servers,
                spec_hostname_of(req.headers@),
                listener@.default_server_index,
            )];
            let sel = spec_best_route(srv.routes, req.path@, 0, None);
            match r.0 {
                DispatchAction::NotFound { error_page } => {
                    &&& error_page@ == spec_error_page_path(srv.error_pages, 404)
                    &&& (sel is None || (sel matches Some(b) && srv.routes[b].redirect is None
                        && spec_resolve(
                        srv.root,
                        srv.routes[b].root,
                        srv.routes[b].path,
                        req.path@,
                    ) is None))
                },
                DispatchAction::MethodNotAllowed { allowed, error_page } => {
                    &&& error_page@ == spec_error_page_path(srv.error_pages, 405)
                    &&& (sel matches Some(b) && srv.routes[b].redirect is None
                        && allowed.deep_view() == srv.routes[b].methods && (!spec_method_allowed(
                        srv.routes[b].methods,
                        req.method,
                    ) || req.method is Other))
                },
                DispatchAction::ServeFile { path, base, error_page } => {
                    &&& error_page@ == spec_error_page_path(srv.error_pages, 404)
                    &&& (sel matches Some(b) && base@ == spec_base_of(
                        srv.root,
                        srv.routes[b].root,
                    ) && srv.routes[b].redirect is None
                        && spec_method_allowed(srv.routes[b].methods, req.method)
                        && req.method is GET && (match crate::handler::spec_exact_route(
                        srv.routes,
                        req.path@,
                        0,
                    ) {
                        Some(i) => srv.routes[i].list_directory != Some(true) && (match srv.routes[
                            i
                        ].default_file {
                            Some(d) => path@ == crate::handler::spec_route_dir(
                                srv.root,
                                srv.routes[i].root,
                            ) + "/"@ + d,
                            None => spec_resolve(
                                srv.root,
                                srv.routes[b].root,
                                srv.routes[b].path,
                                req.path@,
                            ) == Some(path@),
                        }),
                        None => spec_resolve(
                            srv.root,
                            srv.routes[b].root,
                            srv.routes[b].path,
                            req.path@,
                        ) == Some(path@),
                    }))
                },
                DispatchAction::Listing { dir } => {
                    &&& (sel matches Some(b) && srv.routes[b].redirect is None
                        && spec_method_allowed(srv.routes[b].methods, req.method)
                        && req.method is GET)
                    &&& (crate::handler::spec_exact_route(srv.routes, req.path@, 0) matches Some(
                        i,
                    ) && srv.routes[i].list_directory == Some(true) && dir@
                        == crate::handler::spec_route_dir(srv.root, srv.routes[i].root))
                },
                DispatchAction::Upload { save_path, base } => {
                    &&& (sel matches Some(b) && base@ == spec_base_of(
                        srv.root,
                        srv.routes[b].root,
                    ) && srv.routes[b].redirect is None
                        && spec_method_allowed(srv.routes[b].methods, req.method)
                        && req.method is POST && req.body is Some && (match spec_lookup(
                        req.headers@,
                        "content-type"@,
                    ) {
                        Some(c) => crate::handler::spec_direct_upload_type(c) && (match
                            spec_resolve(
                            srv.root,
                            srv.routes[b].root,
                            srv.routes[b].path,
                            req.path@,
                        ) {
                            Some(rsv) => if crate::handler::spec_names_file(req.path@) {
                                save_path@ == rsv
                            } else {
                                exists|id: Seq<char>|
                                    id.len() == 36 && save_path@ == rsv + "/upload_"@ + id + "."@
                                        + crate::handler::spec_subtype_of(c)
                            },
                            None => false,
                        }),
                        None => false,
                    }))
                },
                DispatchAction::UploadMultipart { dir, boundary, base } => {
                    &&& (sel matches Some(b) && base@ == spec_base_of(
                        srv.root,
                        srv.routes[b].root,
                    ) && srv.routes[b].redirect is None
                        && spec_method_allowed(srv.routes[b].methods, req.method)
                        && req.method is POST && req.body is Some && spec_resolve(
                        srv.root,
                        srv.routes[b].root,
                        srv.routes[b].path,
                        req.path@,
                    ) == Some(dir@) && (match spec_lookup(req.headers@, "content-type"@) {
                        Some(c) => !crate::handler::spec_direct_upload_type(c)
                            && crate::strutil::spec_starts_with(c, "multipart/form-data"@)
                            && crate::response::spec_boundary_of(c) == Some(boundary@),
                        None => false,
                    }))
                },
                DispatchAction::Delete { path, base, error_page } => {
                    &&& error_page@ == spec_error_page_path(srv.error_pages, 404)
                    &&& (sel matches Some(b) && base@ == spec_base_of(
                        srv.root,
                        srv.routes[b].root,
                    ) && srv.routes[b].redirect is None
                        && spec_method_allowed(srv.routes[b].methods, req.method)
                        && req.method is DELETE && spec_resolve(
                        srv.root,
                        srv.routes[b].root,
                        srv.routes[b].path,
                        req.path@,
                    ) == Some(path@))
                },
                DispatchAction::Cgi { script } => {
                    sel matches Some(b) && srv.routes[b].redirect is None && (match srv.routes[
                        b
                    ].cgi {
                        Some(ext) => crate::strutil::spec_ends_with(req.path@, ext)
                            && spec_method_allowed(srv.routes[b].methods, req.method)
                            && spec_resolve(
                            srv.root,
                            srv.routes[b].root,
                            srv.routes[b].path,
                            req.path@,
                        ) == Some(script@),
                        None => false,
                    })
                },
                DispatchAction::Respond => (match sel {
                    Some(b) => match srv.routes[b].redirect {
                        Some(url) => (match final(s).response {
                            Some(p) => p.pending() == crate::response::spec_build_bytes(
                                301,
                                "Moved Permanently"@,
                                seq![
                                    ("Location"@, crate::strutil::spec_trim(url)),
                                    ("Set-Cookie"@, crate::response::spec_sc_of(r.1)),
                                ],
                                Seq::<u8>::empty(),
                            ),
                            None => false,
                        }),
                        None => req.method is POST && crate::handler::spec_post_rejects(req) && (
                        match final(s).response {
                            Some(p) => p.pending() == crate::handler::spec_post_reject_bytes(
                                req,
                                r.1,
                            ),
                            None => false,
                        }),
                    },
                    None => false,
                }),
            }
        }),
{
    proof {
        crate::request::law_complete_has_request(s.request);
    }
    let (cookie, hostname, rpath, method) = {
        let req = s.request.get().unwrap();
        let cookie = crate::session::handle_session(req, store, now);
        let hostname = extract_hostname(&req.headers);
        let rpath = req.path.clone();
        let method: crate::request::HttpMethod = match &req.method {
            crate::request::HttpMethod::GET => crate::request::HttpMethod::GET,
            crate::request::HttpMethod::POST => crate::request::HttpMethod::POST,
            crate::request::HttpMethod::DELETE => crate::request::HttpMethod::DELETE,
            crate::request::HttpMethod::Other(t) => crate::request::HttpMethod::Other(t.clone()),
        };
        (cookie, hostname, rpath, method)
    };
    proof {
        assert(listener.servers@.len() == listener@.servers.len());
    }
    let selected = select_server(listener, hostname.as_str());
    let route = match find_matching_route(selected, rpath.as_str()) {
        Some(rt) => rt,
        None => {
            let error_page = get_error_page_path(selected, 404);
            return (DispatchAction::NotFound { error_page }, cookie);
        },
    };
    match &route.redirect {
        Some(url) => {
            proof {
                reveal_strlit("Location");
                reveal_strlit("Set-Cookie");
                crate::strutil::lemma_trim_id("Location"@);
            }
            let b = crate::response::HttpResponseBuilder::redirect(url.as_str()).cookie(&cookie);
            proof {
                let h1 = Seq::<(Seq<char>, Seq<char>)>::empty().push(
                    ("Location"@, crate::strutil::spec_trim(url@)),
                );
                crate::response::lemma_remove_absent(h1, "Set-Cookie"@);
                assert(b.headers@ =~= seq![
                    ("Location"@, crate::strutil::spec_trim(url@)),
                    ("Set-Cookie"@, crate::response::spec_sc_of(cookie)),
                ]);
            }
            let bytes = b.build();
            respond_bytes(s, bytes);
            return (DispatchAction::Respond, cookie);
        },
        None => {},
    }
    let ghost reqv = old(s).request.spec_request()->Some_0;
    let m = route.methods.len();
    let mut allowed = false;
    let mut i: usize = 0;
    while i < m
        invariant
            0 <= i <= m,
            m == route.methods@.len(),
            route@.methods.len() == m,
            forall|k: int| 0 <= k < m ==> route@.methods[k] == (#[trigger] route.methods@[k])@,
            method == reqv.method,
            allowed == exists|k: int|
                0 <= k < i && crate::request::spec_method_matches(
                    reqv.method,
                    #[trigger] route@.methods[k],
                ),
        decreases m - i,
    {
        let parsed = crate::request::HttpMethod::from_str(route.methods[i].as_str());
        if parsed.same(&method) {
            proof {
                assert(crate::request::spec_method_matches(
                    reqv.method,
                    route@.methods[i as int],
                ));
            }
            allowed = true;
        } else {
            proof {
                reveal_strlit("GET");
                reveal_strlit("POST");
                reveal_strlit("DELETE");
                if crate::request::spec_method_matches(reqv.method, route@.methods[i as int]) {
                    assert(parsed.spec_eq(method));
                }
            }
        }
        i = i + 1;
    }
    if !allowed {
        let mut allowed_vec: Vec<String> = Vec::new();
        let mut j: usize = 0;
        proof {
            assert(allowed_vec.deep_view() =~= Seq::<Seq<char>>::empty());
        }
        while j < m
            invariant
                0 <= j <= m,
                m == route.methods@.len(),
                route@.methods.len() == m,
                forall|k: int|
                    0 <= k < m ==> route@.methods[k] == (#[trigger] route.methods@[k])@,
                allowed_vec.deep_view() == route@.methods.subrange(0, j as int),
            decreases m - j,
        {
            let ghost av = allowed_vec.deep_view();
            allowed_vec.push(route.methods[j].clone());
            proof {
                assert(allowed_vec.deep_view() =~= av.push(route@.methods[j as int]));
                assert(allowed_vec.deep_view() =~= route@.methods.subrange(0, j + 1));
            }
            j = j + 1;
        }
        proof {
            assert(route@.methods.subrange(0, m as int) =~= route@.methods);
        }
        let error_page = get_error_page_path(selected, 405);
        return (DispatchAction::MethodNotAllowed { allowed: allowed_vec, error_page }, cookie);
    }
    let resolved: String = match resolve_file_path(selected, route, rpath.as_str()) {
        Some(p) => p,
        None => {
            let error_page = get_error_page_path(selected, 404);
            return (DispatchAction::NotFound { error_page }, cookie);
        },
    };
    let base = route_base(selected, route);
    match &route.cgi {
        Some(ext) => {
            if crate::strutil::ends_with_str(rpath.as_str(), ext.as_str()) {
                return (DispatchAction::Cgi { script: resolved }, cookie);
            }
        },
        None => {},
    }
    match &method {
        crate::request::HttpMethod::GET => {
            let plan = {
                let req2 = s.request.get().unwrap();
                crate::handler::handle_get(resolved.as_str(), selected, req2)
            };
            match plan {
                crate::handler::GetPlan::Listing { dir } => (DispatchAction::Listing { dir }, cookie),
                crate::handler::GetPlan::ServeDefault { path } => {
                    let error_page = get_error_page_path(selected, 404);
                    (DispatchAction::ServeFile { path, base, error_page }, cookie)
                },
                crate::handler::GetPlan::ServeResolved { path } => {
                    let error_page = get_error_page_path(selected, 404);
                    (DispatchAction::ServeFile { path, base, error_page }, cookie)
                },
            }
        },
        crate::request::HttpMethod::POST => {
            let plan = {
                let req2 = s.request.get().unwrap();
                crate::handler::handle_post(resolved.as_str(), req2, &cookie)
            };
            match plan {
                crate::handler::PostPlan::Reject { response } => {
                    respond_bytes(s, response);
                    (DispatchAction::Respond, cookie)
                },
                crate::handler::PostPlan::Direct { save_path } => {
                    (DispatchAction::Upload { save_path, base }, cookie)
                },
                crate::handler::PostPlan::Multipart { dir, boundary } => {
                    (DispatchAction::UploadMultipart { dir, boundary, base }, cookie)
                },
            }
        },
        crate::request::HttpMethod::DELETE => {
            let error_page = get_error_page_path(selected, 404);
            (DispatchAction::Delete { path: resolved, base, error_page }, cookie)
        },
        crate::request::HttpMethod::Other(_) => {
            let mut allowed_vec: Vec<String> = Vec::new();
            let mut j: usize = 0;
            proof {
                assert(allowed_vec.deep_view() =~= Seq::<Seq<char>>::empty());
            }
            while j < m
                invariant
                    0 <= j <= m,
                    m == route.methods@.len(),
                    route@.methods.len() == m,
                    forall|k: int|
                        0 <= k < m ==> route@.methods[k] == (#[trigger] route.methods@[k])@,
                    allowed_vec.deep_view() == route@.methods.subrange(0, j as int),
                decreases m - j,
            {
                let ghost av = allowed_vec.deep_view();
                allowed_vec.push(route.methods[j].clone());
                proof {
                    assert(allowed_vec.deep_view() =~= av.push(route@.methods[j as int]));
                    assert(allowed_vec.deep_view() =~= route@.methods.subrange(0, j + 1));
                }
                j = j + 1;
            }
            proof {
                assert(route@.methods.subrange(0, m as int) =~= route@.methods);
            }
            let error_page = get_error_page_path(selected, 405);
            (DispatchAction::MethodNotAllowed { allowed: allowed_vec, error_page }, cookie)
        },
    }
}

/// Every resolved path stays under the base: resolution never yields a
/// path outside the route's directory, whatever `..` segments the request
/// carries.
pub proof fn law_resolution_safety(
    server_root: Seq<char>,
    route_root: Option<Seq<char>>,
    route_path: Seq<char>,
    rp: Seq<char>,
)
    ensures
        match spec_resolve(server_root, route_root, route_path, rp) {
            Some(p) => p == spec_base_of(server_root, route_root) || spec_starts_with(
                p,
                spec_base_of(server_root, route_root) + "/"@,
            ),
            None => true,
        },
{
    let base = spec_base_of(server_root, route_root);
    let rel = spec_relative_of(rp, route_path);
    match spec_norm_segs(spec_split_char(rel, '/'), 0, Seq::empty()) {
        Some(stack) => {
            if stack.len() > 0 {
                lemma_concat_starts_with(base, spec_join_slash(stack));
            }
        },
        None => {},
    }
}

} // verus!
