//! Method handlers as decision functions: what a GET serves, where a POST
//! stores its body, and the response once the caller has done the file
//! work.

use vstd::prelude::*;

use vstd::string::StringExecFns;
use vstd::utf8::encode_utf8;

use crate::config::{RouteV, ServerConfig};
use crate::request::{HttpRequest, spec_lookup};
use crate::response::{
    HttpResponseBuilder, extract_boundary, spec_boundary_of, spec_build_bytes, spec_sc_of,
    spec_error_page_bytes, serve_error_page,
};
use crate::session::{Cookie, fresh_id};
use crate::strutil::{
    eq_str, spec_trim_char, trim_char, spec_starts_with, starts_with_str, str_len, substr,
    split_once_char,
};

verus! {

/// What a GET request is to be served: a directory listing, the route's
/// default file, or the file the request path resolves to.
pub enum GetPlan {
    Listing { dir: String },
    ServeDefault { path: String },
    ServeResolved { path: String },
}

/// The first route whose path, slashes trimmed, equals the request path,
/// slashes trimmed.
pub open spec fn spec_exact_route(routes: Seq<RouteV>, rp: Seq<char>, i: int) -> Option<int>
    decreases routes.len() - i,
    when 0 <= i
{
    if i >= routes.len() {
        None
    } else if spec_trim_char(routes[i].path, '/') == spec_trim_char(rp, '/') {
        Some(i)
    } else {
        spec_exact_route(routes, rp, i + 1)
    }
}

/// The directory a route lists: the server root joined with the route's
/// root.
pub open spec fn spec_route_dir(server_root: Seq<char>, route_root: Option<Seq<char>>) -> Seq<
    char,
> {
    server_root + "/"@ + (match route_root {
        Some(rr) => rr,
        None => Seq::empty(),
    })
}

/// Decides what a GET serves. A route that names the request path exactly
/// serves its listing or its default file; everything else serves the
/// resolved file path.
pub fn handle_get(resolved_path: &str, server: &ServerConfig, request: &HttpRequest) -> (r:
    GetPlan)
    ensures
        ({
            let sel = spec_exact_route(server@.routes, request.path@, 0);
            match r {
                GetPlan::Listing { dir } => sel matches Some(i) && server@.routes[i].list_directory
                    == Some(true) && dir@ == spec_route_dir(
                    server@.root,
                    server@.routes[i].root,
                ),
                GetPlan::ServeDefault { path } => sel matches Some(i) && (server@.routes[
                    i
                ].list_directory != Some(true) && (server@.routes[i].default_file matches Some(d)
                    && path@ == spec_route_dir(server@.root, server@.routes[i].root) + "/"@ + d)),
                GetPlan::ServeResolved { path } => path@ == resolved_path@ && (match sel {
                    Some(i) => server@.routes[i].list_directory != Some(true) && server@.routes[
                        i
                    ].default_file is None,
                    None => true,
                }),
            }
        }),
{
    let trimmed = trim_char(request.path.as_str(), '/');
    let n = server.routes.len();
    let mut i: usize = 0;
    while i < n
        invariant
            0 <= i <= n,
            n == server.routes@.len(),
            server@.routes.len() == n,
            forall|k: int| 0 <= k < n ==> server@.routes[k] == (#[trigger] server.routes@[k])@,
            trimmed@ == spec_trim_char(request.path@, '/'),
            spec_exact_route(server@.routes, request.path@, 0) == spec_exact_route(
                server@.routes,
                request.path@,
                i as int,
            ),
        decreases n - i,
    {
        let rt = trim_char(server.routes[i].path.as_str(), '/');
        if eq_str(rt.as_str(), trimmed.as_str()) {
            let route = &server.routes[i];
            let list_dir = match route.list_directory {
                Some(b) => b,
                None => false,
            };
            let mut dir: String = server.root.clone();
            dir.append("/");
            match &route.root {
                Some(rr) => {
                    dir.append(rr.as_str());
                },
                None => {},
            }
            if list_dir {
                return GetPlan::Listing { dir };
            }
            match &route.default_file {
                Some(d) => {
                    let mut path = dir;
                    path.append("/");
                    path.append(d.as_str());
                    return GetPlan::ServeDefault { path };
                },
                None => {
                    return GetPlan::ServeResolved { path: resolved_path.to_owned() };
                },
            }
        }
        i = i + 1;
    }
    GetPlan::ServeResolved { path: resolved_path.to_owned() }
}

/// Where a POST stores its body, or the response that rejects it.
pub enum PostPlan {
    Reject { response: Vec<u8> },
    Direct { save_path: String },
    Multipart { dir: String, boundary: String },
}

/// The content type belongs to a class stored as one raw file.
pub open spec fn spec_direct_upload_type(ct: Seq<char>) -> bool {
    spec_starts_with(ct, "application/"@) || spec_starts_with(ct, "image/"@) || spec_starts_with(
        ct,
        "audio/"@,
    ) || spec_starts_with(ct, "video/"@) || spec_starts_with(ct, "font/"@) || spec_starts_with(
        ct,
        "text/"@,
    )
}

/// The subtype of a content type: between the first slash and the next,
/// or `dat` when there is no slash.
pub open spec fn spec_subtype_of(ct: Seq<char>) -> Seq<char> {
    match crate::request::spec_find_from(ct, '/', 0) {
        Some(i) => {
            let rest = ct.subrange(i + 1, ct.len() as int);
            match crate::request::spec_find_from(rest, '/', 0) {
                Some(j) => rest.subrange(0, j),
                None => rest,
            }
        },
        None => "dat"@,
    }
}

/// The subtype of a content type, used as an upload file extension.
fn subtype_of(ct: &str) -> (r: String)
    ensures
        r@ == spec_subtype_of(ct@),
{
    match split_once_char(ct, '/') {
        Some(ab) => {
            proof {
                let i = choose|i: int|
                    0 <= i < ct@.len() && ct@[i] == '/' && (forall|k: int|
                        0 <= k < i ==> ct@[k] != '/') && ab.0@ == ct@.subrange(0, i) && ab.1@
                        == ct@.subrange(i + 1, ct@.len() as int);
                crate::request::lemma_find_from_first(ct@, '/', i);
            }
            let rest = ab.1;
            match split_once_char(rest.as_str(), '/') {
                Some(cd) => {
                    proof {
                        let j = choose|j: int|
                            0 <= j < rest@.len() && rest@[j] == '/' && (forall|k: int|
                                0 <= k < j ==> rest@[k] != '/') && cd.0@ == rest@.subrange(0, j)
                                && cd.1@ == rest@.subrange(j + 1, rest@.len() as int);
                        crate::request::lemma_find_from_first(rest@, '/', j);
                    }
                    cd.0
                },
                None => {
                    proof {
                        crate::request::lemma_find_from_none(rest@, '/', 0);
                    }
                    rest
                },
            }
        },
        None => {
            proof {
                crate::request::lemma_find_from_none(ct@, '/', 0);
            }
            "dat".to_owned()
        },
    }
}

/// The request path's last segment is non-empty: the path names a file,
/// so the upload keeps that name.
pub open spec fn spec_names_file(rp: Seq<char>) -> bool {
    match crate::router::spec_rfind(rp, '/') {
        Some(i) => i + 1 < rp.len(),
        None => rp.len() > 0,
    }
}

/// A POST the handler refuses outright: no body, no Content-Type, a
/// multipart type without a boundary, or a type it cannot store.
pub open spec fn spec_post_rejects(req: HttpRequest) -> bool {
    ||| req.body is None
    ||| match spec_lookup(req.headers@, "content-type"@) {
        None => true,
        Some(c) => !spec_direct_upload_type(c) && (!spec_starts_with(
            c,
            "multipart/form-data"@,
        ) || spec_boundary_of(c) is None),
    }
}

/// The exact response a refused POST gets.
pub open spec fn spec_post_reject_bytes(req: HttpRequest, c: Cookie) -> Seq<u8> {
    if req.body is None {
        spec_build_bytes(
            400,
            "Bad Request"@,
            seq![("Set-Cookie"@, spec_sc_of(c))],
            encode_utf8("Empty body"@),
        )
    } else {
        match spec_lookup(req.headers@, "content-type"@) {
            None => spec_build_bytes(
                400,
                "Bad Request"@,
                Seq::<(Seq<char>, Seq<char>)>::empty(),
                encode_utf8("Missing Content-Type"@),
            ),
            Some(ct) => if spec_starts_with(ct, "multipart/form-data"@) {
                spec_build_bytes(
                    400,
                    "Bad Request"@,
                    Seq::<(Seq<char>, Seq<char>)>::empty(),
                    encode_utf8("Missing multipart boundary"@),
                )
            } else {
                spec_build_bytes(
                    415,
                    "Unsupported Media Type"@,
                    Seq::<(Seq<char>, Seq<char>)>::empty(),
                    encode_utf8("Unsupported Content-Type"@),
                )
            },
        }
    }
}

/// Decides where a POST stores its body. A typed raw body is saved under
/// the resolved path, or under a fresh name when the path names no file;
/// a multipart body is dissected by the caller under the resolved
/// directory; anything else is rejected.
pub fn handle_post(file_path: &str, request: &HttpRequest, cookie: &Cookie) -> (r: PostPlan)
    ensures
        ({
            let ct = spec_lookup(request.headers@, "content-type"@);
            match r {
                PostPlan::Reject { response } => spec_post_rejects(*request) && response@
                    == spec_post_reject_bytes(*request, *cookie),
                PostPlan::Direct { save_path } => {
                    &&& request.body is Some
                    &&& ct matches Some(c) && spec_direct_upload_type(c)
                    &&& if spec_names_file(request.path@) {
                        save_path@ == file_path@
                    } else {
                        exists|id: Seq<char>|
                            id.len() == 36 && save_path@ == file_path@ + "/upload_"@ + id + "."@
                                + spec_subtype_of(ct->Some_0)
                    }
                },
                PostPlan::Multipart { dir, boundary } => {
                    &&& request.body is Some
                    &&& ct matches Some(c) && !spec_direct_upload_type(c) && spec_starts_with(
                        c,
                        "multipart/form-data"@,
                    )
                    &&& spec_boundary_of(ct->Some_0) == Some(boundary@)
                    &&& dir@ == file_path@
                },
            }
        }),
{
    if request.body.is_none() {
        proof {
            reveal_strlit("Set-Cookie");
            crate::strutil::lemma_trim_id("Set-Cookie"@);
        }
        let body = "Empty body".as_bytes_vec();
        let b = HttpResponseBuilder::bad_request().body(body).cookie(cookie);
        proof {
            assert(b.headers@ =~= seq![("Set-Cookie"@, spec_sc_of(*cookie))]);
        }
        return PostPlan::Reject { response: b.build() };
    }
    let ct: String = match request.headers.get("content-type") {
        Some(v) => v.clone(),
        None => {
            let body = "Missing Content-Type".as_bytes_vec();
            return PostPlan::Reject { response: HttpResponseBuilder::bad_request().body(
                body,
            ).build() };
        },
    };
    let direct = starts_with_str(ct.as_str(), "application/") || starts_with_str(
        ct.as_str(),
        "image/",
    ) || starts_with_str(ct.as_str(), "audio/") || starts_with_str(ct.as_str(), "video/")
        || starts_with_str(ct.as_str(), "font/") || starts_with_str(ct.as_str(), "text/");
    if direct {
        let rp = request.path.as_str();
        let n = str_len(rp);
        let mut j: usize = n;
        while j > 0 && rp.get_char(j - 1) != '/'
            invariant
                0 <= j <= n,
                n == rp@.len(),
                forall|k: int| j <= k < n ==> rp@[k] != '/',
            decreases j,
        {
            j = j - 1;
        }
        let names_file: bool = if j == 0 {
            proof {
                lemma_rfind_none_slash(rp@);
            }
            n > 0
        } else {
            proof {
                lemma_rfind_last_slash(rp@, j - 1);
            }
            j < n
        };
        if names_file {
            PostPlan::Direct { save_path: file_path.to_owned() }
        } else {
            let id = fresh_id();
            let ghost idv = id@;
            let ext = subtype_of(ct.as_str());
            let mut save_path: String = file_path.to_owned();
            save_path.append("/upload_");
            save_path.append(id.as_str());
            save_path.append(".");
            save_path.append(ext.as_str());
            proof {
                assert(save_path@ == file_path@ + "/upload_"@ + idv + "."@ + spec_subtype_of(
                    ct@,
                ));
            }
            PostPlan::Direct { save_path }
        }
    } else if starts_with_str(ct.as_str(), "multipart/form-data") {
        match extract_boundary(ct.as_str()) {
            Some(boundary) => PostPlan::Multipart { dir: file_path.to_owned(), boundary },
            None => {
                let body = "Missing multipart boundary".as_bytes_vec();
                PostPlan::Reject { response: HttpResponseBuilder::bad_request().body(
                    body,
                ).build() }
            },
        }
    } else {
        let body = "Unsupported Content-Type".as_bytes_vec();
        PostPlan::Reject { response: HttpResponseBuilder::unsupported_media_type().body(
            body,
        ).build() }
    }
}

proof fn lemma_rfind_none_slash(s: Seq<char>)
    requires
        forall|k: int| 0 <= k < s.len() ==> s[k] != '/',
    ensures
        crate::router::spec_rfind(s, '/') is None,
    decreases s.len(),
{
    if s.len() > 0 {
        lemma_rfind_none_slash(s.drop_last());
    }
}

proof fn lemma_rfind_last_slash(s: Seq<char>, j: int)
    requires
        0 <= j < s.len(),
        s[j] == '/',
        forall|k: int| j < k < s.len() ==> s[k] != '/',
    ensures
        crate::router::spec_rfind(s, '/') == Some(j),
    decreases s.len(),
{
    if j == s.len() - 1 {
    } else {
        lemma_rfind_last_slash(s.drop_last(), j);
    }
}

/// Builds the response for a delete the caller has attempted: 204 when
/// the file was removed, the 404 page otherwise.
pub fn handle_delete(removed: bool, error_page: Option<Vec<u8>>, cookie: &Cookie) -> (r: Vec<u8>)
    ensures
        removed ==> r@ == spec_build_bytes(
            204,
            "No Content"@,
            Seq::<(Seq<char>, Seq<char>)>::empty(),
            Seq::<u8>::empty(),
        ),
        !removed ==> r@ == spec_error_page_bytes(
            404,
            "Not Found"@,
            match error_page {
                Some(p) => Some(p@),
                None => None,
            },
            *cookie,
        ),
{
    if removed {
        HttpResponseBuilder::no_content().build()
    } else {
        serve_error_page(error_page, 404, "Not Found", cookie)
    }
}

} // verus!
