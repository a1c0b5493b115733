//! A standalone router: registered handlers by exact path, configured
//! routes by longest prefix, and static-file responses built from bytes
//! the caller has read.

use vstd::prelude::*;

use vstd::string::StrSliceExecFns;

use crate::config::{Route, RouteV};
use crate::read::{spec_best_route, route_matches};
use crate::request::{HttpHeaders, HttpRequest, spec_remove_entry};
use crate::response::spec_build_bytes;
use crate::strutil::{
    eq_str, spec_trim, spec_starts_with, starts_with_str, str_len, substr, spec_ltrim_char,
    ltrim_char_str,
};

verus! {

/// The status text this server uses for a code; empty when the code is
/// not one it ever sends.
pub open spec fn spec_status_text(code: u16) -> Seq<char> {
    if code == 200 {
        "OK"@
    } else if code == 201 {
        "Created"@
    } else if code == 204 {
        "No Content"@
    } else if code == 301 {
        "Moved Permanently"@
    } else if code == 400 {
        "Bad Request"@
    } else if code == 404 {
        "Not Found"@
    } else if code == 405 {
        "Method Not Allowed"@
    } else if code == 413 {
        "Payload Too Large"@
    } else if code == 415 {
        "Unsupported Media Type"@
    } else if code == 500 {
        "Internal Server Error"@
    } else {
        Seq::empty()
    }
}

/// The status text for a code.
pub fn status_text(code: u16) -> (r: &'static str)
    ensures
        r@ == spec_status_text(code),
{
    proof {
        reveal_strlit("");
    }
    if code == 200 {
        "OK"
    } else if code == 201 {
        "Created"
    } else if code == 204 {
        "No Content"
    } else if code == 301 {
        "Moved Permanently"
    } else if code == 400 {
        "Bad Request"
    } else if code == 404 {
        "Not Found"
    } else if code == 405 {
        "Method Not Allowed"
    } else if code == 413 {
        "Payload Too Large"
    } else if code == 415 {
        "Unsupported Media Type"
    } else if code == 500 {
        "Internal Server Error"
    } else {
        ""
    }
}

/// A response under construction: status, headers and body.
pub struct HttpResponse {
    pub status_code: u16,
    pub headers: HttpHeaders,
    pub body: Vec<u8>,
}

impl HttpResponse {
    /// An empty response with the given status.
    pub fn new(status_code: u16) -> (r: HttpResponse)
        ensures
            r.status_code == status_code,
            r.headers@ == Seq::<(Seq<char>, Seq<char>)>::empty(),
            r.body@ == Seq::<u8>::empty(),
    {
        HttpResponse { status_code, headers: HttpHeaders::new(), body: Vec::new() }
    }

    /// Sets a header, replacing an earlier one under the same name.
    pub fn set_header(&mut self, key: String, value: String)
        ensures
            final(self).status_code == old(self).status_code,
            final(self).body@ == old(self).body@,
            final(self).headers@ == spec_remove_entry(old(self).headers@, spec_trim(key@)).push(
                (spec_trim(key@), spec_trim(value@)),
            ),
    {
        self.headers.insert(key.as_str(), value.as_str());
    }

    /// Sets the body.
    pub fn set_body(&mut self, body: Vec<u8>)
        ensures
            final(self).status_code == old(self).status_code,
            final(self).headers@ == old(self).headers@,
            final(self).body@ == body@,
    {
        self.body = body;
    }

    /// Renders the response to its wire bytes.
    pub fn to_bytes(self) -> (r: Vec<u8>)
        ensures
            r@ == spec_build_bytes(
                self.status_code,
                spec_status_text(self.status_code),
                self.headers@,
                self.body@,
            ),
    {
        let b = crate::response::HttpResponseBuilder {
            status_code: self.status_code,
            status_text: status_text(self.status_code).to_owned(),
            headers: self.headers,
            body: self.body,
        };
        b.build()
    }
}

/// The content type the extension after the last dot selects, if known.
pub open spec fn spec_rfind(s: Seq<char>, c: char) -> Option<int>
    decreases s.len(),
{
    if s.len() == 0 {
        None
    } else if s.last() == c {
        Some(s.len() - 1)
    } else {
        spec_rfind(s.drop_last(), c)
    }
}

/// The extension `get_content_type` inspects: after the last dot, or the
/// whole name when there is none.
pub open spec fn spec_extension_of(p: Seq<char>) -> Seq<char> {
    match spec_rfind(p, '.') {
        Some(i) => p.subrange(i + 1, p.len() as int),
        None => p,
    }
}

/// The content type table keyed by extension.
pub open spec fn spec_content_type_of(ext: Seq<char>) -> Option<Seq<char>> {
    if ext == "html"@ || ext == "htm"@ {
        Some("text/html; charset=utf-8"@)
    } else if ext == "css"@ {
        Some("text/css"@)
    } else if ext == "js"@ {
        Some("application/javascript"@)
    } else if ext == "json"@ {
        Some("application/json"@)
    } else if ext == "png"@ {
        Some("image/png"@)
    } else if ext == "jpg"@ || ext == "jpeg"@ {
        Some("image/jpeg"@)
    } else if ext == "gif"@ {
        Some("image/gif"@)
    } else if ext == "svg"@ {
        Some("image/svg+xml"@)
    } else if ext == "txt"@ {
        Some("text/plain"@)
    } else if ext == "pdf"@ {
        Some("application/pdf"@)
    } else {
        None
    }
}

proof fn lemma_rfind_last(s: Seq<char>, c: char, j: int)
    requires
        0 <= j < s.len(),
        s[j] == c,
        forall|k: int| j < k < s.len() ==> s[k] != c,
    ensures
        spec_rfind(s, c) == Some(j),
    decreases s.len(),
{
    if j == s.len() - 1 {
    } else {
        lemma_rfind_last(s.drop_last(), c, j);
    }
}

proof fn lemma_rfind_none(s: Seq<char>, c: char)
    requires
        forall|k: int| 0 <= k < s.len() ==> s[k] != c,
    ensures
        spec_rfind(s, c) is None,
    decreases s.len(),
{
    if s.len() > 0 {
        lemma_rfind_none(s.drop_last(), c);
    }
}

/// Looks the content type up from the extension after the last dot.
pub fn get_content_type(path: &str) -> (r: Option<String>)
    ensures
        match r {
            Some(ct) => spec_content_type_of(spec_extension_of(path@)) == Some(ct@),
            None => spec_content_type_of(spec_extension_of(path@)) is None,
        },
{
    let n = str_len(path);
    let mut j: usize = n;
    while j > 0 && path.get_char(j - 1) != '.'
        invariant
            0 <= j <= n,
            n == path@.len(),
            forall|k: int| j <= k < n ==> path@[k] != '.',
        decreases j,
    {
        j = j - 1;
    }
    let ext: String = if j == 0 {
        proof {
            lemma_rfind_none(path@, '.');
        }
        path.to_owned()
    } else {
        proof {
            lemma_rfind_last(path@, '.', j - 1);
        }
        substr(path, j, n)
    };
    let e = ext.as_str();
    if eq_str(e, "html") || eq_str(e, "htm") {
        Some("text/html; charset=utf-8".to_owned())
    } else if eq_str(e, "css") {
        Some("text/css".to_owned())
    } else if eq_str(e, "js") {
        Some("application/javascript".to_owned())
    } else if eq_str(e, "json") {
        Some("application/json".to_owned())
    } else if eq_str(e, "png") {
        Some("image/png".to_owned())
    } else if eq_str(e, "jpg") || eq_str(e, "jpeg") {
        Some("image/jpeg".to_owned())
    } else if eq_str(e, "gif") {
        Some("image/gif".to_owned())
    } else if eq_str(e, "svg") {
        Some("image/svg+xml".to_owned())
    } else if eq_str(e, "txt") {
        Some("text/plain".to_owned())
    } else if eq_str(e, "pdf") {
        Some("application/pdf".to_owned())
    } else {
        None
    }
}

/// The file a configured route serves for a request path.
pub open spec fn spec_static_path(route: RouteV, rp: Seq<char>) -> Seq<char> {
    let root = match route.root {
        Some(r) => r,
        None => "public"@,
    };
    let fp = if spec_starts_with(rp, route.path) {
        rp.skip(route.path.len() as int)
    } else {
        "/"@
    };
    let fp2 = if fp.len() == 0 || fp == "/"@ {
        match route.default_file {
            Some(d) => d,
            None => "index.html"@,
        }
    } else {
        spec_ltrim_char(fp, '/')
    };
    root + "/"@ + fp2
}

/// Routes requests: registered handlers first, then configured routes by
/// longest prefix. The handler type is the embedder's own, most naturally
/// a function from request to response; the router only stores and finds
/// handlers, the embedder invokes them.
pub struct Router<H> {
    handlers: Vec<(String, H)>,
    config_routes: Vec<Route>,
}

/// The handler registered under an exact path: the latest registration
/// under that path wins.
pub open spec fn spec_handler_at<H>(s: Seq<(Seq<char>, H)>, path: Seq<char>) -> Option<H>
    decreases s.len(),
{
    if s.len() == 0 {
        None
    } else if s.last().0 == path {
        Some(s.last().1)
    } else {
        spec_handler_at(s.drop_last(), path)
    }
}

impl<H> Router<H> {
    /// The registered handlers with their paths, in registration order.
    pub closed spec fn handler_view(&self) -> Seq<(Seq<char>, H)> {
        Seq::new(self.handlers@.len(), |i: int| (self.handlers@[i].0@, self.handlers@[i].1))
    }

    /// The configured routes.
    pub closed spec fn spec_routes(&self) -> Seq<RouteV> {
        Seq::new(self.config_routes@.len(), |i: int| self.config_routes@[i]@)
    }

    /// An empty router.
    pub fn new() -> (r: Router<H>)
        ensures
            r.handler_view() == Seq::<(Seq<char>, H)>::empty(),
            r.spec_routes() == Seq::<RouteV>::empty(),
    {
        let r = Router::<H> { handlers: Vec::new(), config_routes: Vec::new() };
        proof {
            assert(r.handler_view() =~= Seq::<(Seq<char>, H)>::empty());
            assert(r.spec_routes() =~= Seq::<RouteV>::empty());
        }
        r
    }

    /// Replaces the configured routes.
    pub fn load_routes(&mut self, routes: Vec<Route>)
        ensures
            final(self).spec_routes() == routes.deep_view(),
            final(self).handler_view() == old(self).handler_view(),
    {
        self.config_routes = routes;
        proof {
            assert(self.spec_routes() =~= self.config_routes.deep_view());
        }
    }

    /// Registers a handler under an exact path.
    pub fn add_handler(&mut self, path: &str, handler: H)
        ensures
            final(self).handler_view() == old(self).handler_view().push((path@, handler)),
            final(self).spec_routes() == old(self).spec_routes(),
    {
        self.handlers.push((path.to_owned(), handler));
        proof {
            assert(self.handler_view() =~= old(self).handler_view().push((path@, handler)));
        }
    }

    /// The handler registered under a path, if any; the caller invokes it.
    /// The returned handler is the one most recently registered under that
    /// exact path.
    pub fn route(&self, path: &str) -> (r: Option<&H>)
        ensures
            match r {
                Some(h) => spec_handler_at(self.handler_view(), path@) == Some(*h),
                None => spec_handler_at(self.handler_view(), path@) is None,
            },
    {
        let n = self.handlers.len();
        proof {
            assert(self.handler_view().subrange(0, n as int) =~= self.handler_view());
        }
        let mut i: usize = n;
        while i > 0
            invariant
                0 <= i <= n,
                n == self.handlers@.len(),
                self.handler_view().len() == n,
                spec_handler_at(self.handler_view(), path@) == spec_handler_at(
                    self.handler_view().subrange(0, i as int),
                    path@,
                ),
            decreases i,
        {
            proof {
                let pre = self.handler_view().subrange(0, i as int);
                assert(pre.drop_last() =~= self.handler_view().subrange(0, i - 1));
                assert(pre.last() == self.handler_view()[i - 1]);
                assert(self.handler_view()[i - 1] == (self.handlers@[i - 1].0@, self.handlers@[
                    i - 1].1));
            }
            if eq_str(self.handlers[i - 1].0.as_str(), path) {
                return Some(&self.handlers[i - 1].1);
            }
            i = i - 1;
        }
        proof {
            assert(self.handler_view().subrange(0, 0) =~= Seq::<(Seq<char>, H)>::empty());
        }
        None
    }

    /// The configured route whose path is the longest prefix of the
    /// request path.
    pub fn find_route(&self, path: &str) -> (r: Option<&Route>)
        ensures
            match r {
                Some(route) => spec_best_route(self.spec_routes(), path@, 0, None) matches Some(b)
                    && route@ == self.spec_routes()[b],
                None => spec_best_route(self.spec_routes(), path@, 0, None) is None,
            },
    {
        let n = self.config_routes.len();
        let mut best: Option<usize> = None;
        let mut i: usize = 0;
        while i < n
            invariant
                0 <= i <= n,
                n == self.config_routes@.len(),
                self.spec_routes().len() == n,
                forall|k: int|
                    0 <= k < n ==> self.spec_routes()[k] == (
                    #[trigger] self.config_routes@[k])@,
                match best {
                    Some(b) => b < n && spec_best_route(self.spec_routes(), path@, 0, None)
                        == spec_best_route(
                        self.spec_routes(),
                        path@,
                        i as int,
                        Some(b as int),
                    ),
                    None => spec_best_route(self.spec_routes(), path@, 0, None)
                        == spec_best_route(self.spec_routes(), path@, i as int, None::<int>),
                },
            decreases n - i,
        {
            let candidate = &self.config_routes[i];
            let is_match = route_matches(path, candidate.path.as_str());
            let take = if is_match {
                match best {
                    Some(b) => {
                        let bl = str_len(self.config_routes[b].path.as_str());
                        let cl = str_len(candidate.path.as_str());
                        cl >= bl
                    },
                    None => true,
                }
            } else {
                false
            };
            if take {
                best = Some(i);
            }
            i = i + 1;
        }
        match best {
            Some(b) => Some(&self.config_routes[b]),
            None => None,
        }
    }

    /// The file the request would be served from, so the caller can read
    /// it before asking for the response.
    pub fn resolve_static_path(&self, request: &HttpRequest) -> (r: Option<String>)
        ensures
            match r {
                Some(p) => spec_best_route(self.spec_routes(), request.path@, 0, None) matches Some(
                    b,
                ) && p@ == spec_static_path(self.spec_routes()[b], request.path@),
                None => spec_best_route(self.spec_routes(), request.path@, 0, None) is None,
            },
    {
        match self.find_route(request.path.as_str()) {
            Some(route) => Some(static_file_path(route, request.path.as_str())),
            None => None,
        }
    }

    /// Builds the response for a request from configured routes: 404 when
    /// no route matches, 405 when the route forbids the method, else the
    /// file contents the caller read from `resolve_static_path`, or 404
    /// when the read failed.
    pub fn handle_request(&self, request: &HttpRequest, file: Option<Vec<u8>>) -> (r: HttpResponse)
        ensures
            ({
                let sel = spec_best_route(self.spec_routes(), request.path@, 0, None);
                match sel {
                    Some(b) => {
                        let route = self.spec_routes()[b];
                        if route.methods.len() > 0 && !route.methods.contains(
                            request.method.spec_token(),
                        ) {
                            r.status_code == 405
                        } else {
                            match file {
                                Some(contents) => r.status_code == 200 && r.body@ == contents@,
                                None => r.status_code == 404,
                            }
                        }
                    },
                    None => r.status_code == 404,
                }
            }),
    {
        match self.find_route(request.path.as_str()) {
            Some(route) => {
                let mut allowed = route.methods.len() == 0;
                let m = route.methods.len();
                let token = request.method.to_str();
                let mut i: usize = 0;
                while i < m
                    invariant
                        0 <= i <= m,
                        m == route.methods@.len(),
                        route@.methods.len() == m,
                        forall|k: int|
                            0 <= k < m ==> route@.methods[k] == (
                            #[trigger] route.methods@[k])@,
                        token@ == request.method.spec_token(),
                        allowed == (route.methods@.len() == 0 || exists|k: int|
                            0 <= k < i && route@.methods[k] == token@),
                    decreases m - i,
                {
                    if eq_str(route.methods[i].as_str(), token) {
                        allowed = true;
                        proof {
                            assert(route@.methods[i as int] == token@);
                        }
                    }
                    i = i + 1;
                }
                if !allowed {
                    proof {
                        assert(!route@.methods.contains(request.method.spec_token()));
                    }
                    self.method_not_allowed()
                } else {
                    proof {
                        if route@.methods.len() > 0 {
                            assert(route@.methods.contains(request.method.spec_token()));
                        }
                    }
                    self.serve_static(request, route, file)
                }
            },
            None => self.not_found(),
        }
    }

    /// Builds the static-file response from bytes the caller read.
    pub fn serve_static(&self, request: &HttpRequest, route: &Route, file: Option<Vec<u8>>) -> (r:
        HttpResponse)
        ensures
            match file {
                Some(contents) => r.status_code == 200 && r.body@ == contents@,
                None => r.status_code == 404,
            },
    {
        match file {
            Some(contents) => {
                let full_path = static_file_path(route, request.path.as_str());
                let mut response = HttpResponse::new(200);
                match get_content_type(full_path.as_str()) {
                    Some(content_type) => {
                        response.set_header("Content-Type".to_owned(), content_type);
                    },
                    None => {},
                }
                response.set_body(contents);
                response
            },
            None => self.not_found(),
        }
    }

    /// The canned 404 page.
    pub fn not_found(&self) -> (r: HttpResponse)
        ensures
            r.status_code == 404,
            r.headers@ == Seq::<(Seq<char>, Seq<char>)>::empty(),
            r.body@ == vstd::utf8::encode_utf8(
                "<html><body><h1>404 - Not Found</h1></body></html>"@,
            ),
    {
        let mut response = HttpResponse::new(404);
        let body = "<html><body><h1>404 - Not Found</h1></body></html>".as_bytes_vec();
        response.set_body(body);
        response
    }

    /// The canned 405 page.
    pub fn method_not_allowed(&self) -> (r: HttpResponse)
        ensures
            r.status_code == 405,
            r.headers@ == Seq::<(Seq<char>, Seq<char>)>::empty(),
            r.body@ == vstd::utf8::encode_utf8(
                "<html><body><h1>405 - Method Not Allowed</h1></body></html>"@,
            ),
    {
        let mut response = HttpResponse::new(405);
        let body = "<html><body><h1>405 - Method Not Allowed</h1></body></html>".as_bytes_vec();
        response.set_body(body);
        response
    }
}

/// The file path a route serves for a request path: the route's root,
/// then the remainder of the request path, or the default file at the
/// route's own path.
pub fn static_file_path(route: &Route, request_path: &str) -> (r: String)
    ensures
        r@ == spec_static_path(route@, request_path@),
{
    let root: String = match &route.root {
        Some(rt) => rt.clone(),
        None => "public".to_owned(),
    };
    let fp: String = if starts_with_str(request_path, route.path.as_str()) {
        let pl = str_len(route.path.as_str());
        let rl = str_len(request_path);
        substr(request_path, pl, rl)
    } else {
        "/".to_owned()
    };
    let fp2: String = if str_len(fp.as_str()) == 0 || eq_str(fp.as_str(), "/") {
        match &route.default_file {
            Some(d) => d.clone(),
            None => "index.html".to_owned(),
        }
    } else {
        ltrim_char_str(fp.as_str(), '/')
    };
    let mut out = root;
    out.append("/");
    out.append(fp2.as_str());
    out
}

} // verus!
