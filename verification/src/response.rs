//! In-memory HTTP responses: a builder that renders a status line, headers
//! and body to the exact wire bytes, and the content-type tables.

use vstd::prelude::*;

use vstd::string::{StrSliceExecFns, StringExecFns, StringSliceAdditionalSpecFns};
use vstd::utf8::encode_utf8;

use crate::request::{HttpHeaders, spec_remove_entry};
use crate::session::Cookie;
use crate::strutil::{
    decimal_string, spec_decimal, spec_trim, spec_ends_with, ends_with_str, lemma_trim_id,
    lemma_decimal_digits, spec_is_space, spec_is_digit,
};

verus! {

/// One rendered header line.
pub open spec fn spec_header_line(e: (Seq<char>, Seq<char>)) -> Seq<char> {
    e.0 + ": "@ + e.1 + "\r\n"@
}

/// The rendered header block, in stored order.
pub open spec fn spec_header_block(hs: Seq<(Seq<char>, Seq<char>)>) -> Seq<char>
    decreases hs.len(),
{
    if hs.len() == 0 {
        Seq::empty()
    } else {
        spec_header_block(hs.drop_last()) + spec_header_line(hs.last())
    }
}

/// The whole response head: status line, header block, blank line.
pub open spec fn spec_response_head(
    code: u16,
    text: Seq<char>,
    hs: Seq<(Seq<char>, Seq<char>)>,
) -> Seq<char> {
    "HTTP/1.1 "@ + spec_decimal(code as nat) + " "@ + text + "\r\n"@ + spec_header_block(hs)
        + "\r\n"@
}

/// What `build` returns: the head with the `Server` name and the body's
/// `Content-Length` appended, encoded, followed by the body bytes.
pub open spec fn spec_build_bytes(
    code: u16,
    text: Seq<char>,
    hs: Seq<(Seq<char>, Seq<char>)>,
    body: Seq<u8>,
) -> Seq<u8> {
    let hs1 = spec_remove_entry(hs, "Server"@).push(("Server"@, "localserver"@));
    let hs2 = spec_remove_entry(hs1, "Content-Length"@).push(
        ("Content-Length"@, spec_decimal(body.len())),
    );
    encode_utf8(spec_response_head(code, text, hs2)) + body
}

/// Builds one in-memory response.
pub struct HttpResponseBuilder {
    pub status_code: u16,
    pub status_text: String,
    pub headers: HttpHeaders,
    pub body: Vec<u8>,
}

impl HttpResponseBuilder {
    /// A response with the given status and no headers or body yet.
    pub fn new(status_code: u16, status_text: &str) -> (r: Self)
        ensures
            r.status_code == status_code,
            r.status_text@ == status_text@,
            r.headers@ == Seq::<(Seq<char>, Seq<char>)>::empty(),
            r.body@ == Seq::<u8>::empty(),
    {
        Self {
            status_code,
            status_text: status_text.to_owned(),
            headers: HttpHeaders::new(),
            body: Vec::new(),
        }
    }

    /// Adds a header, replacing any earlier one under the same name.
    pub fn header(self, key: &str, value: &str) -> (r: Self)
        ensures
            r.status_code == self.status_code,
            r.status_text@ == self.status_text@,
            r.body@ == self.body@,
            r.headers@ == spec_remove_entry(self.headers@, spec_trim(key@)).push(
                (spec_trim(key@), spec_trim(value@)),
            ),
    {
        let mut s = self;
        s.headers.insert(key, value);
        s
    }

    /// Sets the body.
    pub fn body(self, body: Vec<u8>) -> (r: Self)
        ensures
            r.status_code == self.status_code,
            r.status_text@ == self.status_text@,
            r.headers@ == self.headers@,
            r.body@ == body@,
    {
        let mut s = self;
        s.body = body;
        s
    }

    /// Attaches the session cookie.
    pub fn cookie(self, c: &Cookie) -> (r: Self)
        ensures
            r.status_code == self.status_code,
            r.status_text@ == self.status_text@,
            r.body@ == self.body@,
            r.headers@ == spec_remove_entry(self.headers@, "Set-Cookie"@).push(
                (
                    "Set-Cookie"@,
                    spec_trim(crate::session::spec_cookie_header_value(c.name@, c.value@)),
                ),
            ),
    {
        let v = c.to_header_value();
        let r = self.header("Set-Cookie", v.as_str());
        proof {
            reveal_strlit("Set-Cookie");
            lemma_trim_id("Set-Cookie"@);
        }
        r
    }

    /// Renders the response: the `Server` name and the body's
    /// `Content-Length` are set, and the result is the exact byte sequence
    /// that goes on the wire.
    pub fn build(self) -> (r: Vec<u8>)
        ensures
            r@ == spec_build_bytes(self.status_code, self.status_text@, self.headers@, self.body@),
    {
        let mut b = self;
        let len_str = decimal_string(b.body.len() as u64);
        proof {
            reveal_strlit("Server");
            reveal_strlit("localserver");
            reveal_strlit("Content-Length");
            lemma_trim_id("Server"@);
            lemma_trim_id("localserver"@);
            lemma_trim_id("Content-Length"@);
            lemma_decimal_digits(b.body@.len());
            assert forall|k: int| 0 <= k < len_str@.len() implies !spec_is_space(
                len_str@[k],
            ) by {
                assert(spec_is_digit(len_str@[k]));
            }
            lemma_trim_id(len_str@);
        }
        b.headers.insert("Server", "localserver");
        b.headers.insert("Content-Length", len_str.as_str());
        let ghost hs2 = b.headers@;
        let mut head: String = "HTTP/1.1 ".to_owned();
        head.append(decimal_string(b.status_code as u64).as_str());
        head.append(" ");
        head.append(b.status_text.as_str());
        head.append("\r\n");
        let ghost status_part = head@;
        proof {
            assert(status_part == "HTTP/1.1 "@ + spec_decimal(b.status_code as nat) + " "@
                + b.status_text@ + "\r\n"@);
        }
        let n = b.headers.len();
        let mut i: usize = 0;
        proof {
            assert(hs2.subrange(0, 0) =~= Seq::<(Seq<char>, Seq<char>)>::empty());
            assert(head@ =~= status_part + spec_header_block(hs2.subrange(0, 0)));
        }
        while i < n
            invariant
                0 <= i <= n,
                n == b.headers@.len(),
                b.headers@ == hs2,
                head@ == status_part + spec_header_block(hs2.subrange(0, i as int)),
            decreases n - i,
        {
            let (k, v) = b.headers.entry_at(i);
            head.append(k.as_str());
            head.append(": ");
            head.append(v.as_str());
            head.append("\r\n");
            proof {
                let pre = hs2.subrange(0, i + 1);
                assert(pre.drop_last() =~= hs2.subrange(0, i as int));
                assert(pre.last() == hs2[i as int]);
                assert(head@ =~= status_part + spec_header_block(pre));
            }
            i = i + 1;
        }
        head.append("\r\n");
        proof {
            assert(hs2.subrange(0, n as int) =~= hs2);
            assert(head@ =~= spec_response_head(b.status_code, b.status_text@, hs2));
        }
        let mut bytes = head.as_str().as_bytes_vec();
        let mut body = b.body;
        bytes.append(&mut body);
        bytes
    }

    /// 200 OK.
    pub fn ok() -> (r: Self)
        ensures
            r.status_code == 200,
            r.status_text@ == "OK"@,
            r.headers@ == Seq::<(Seq<char>, Seq<char>)>::empty(),
            r.body@ == Seq::<u8>::empty(),
    {
        Self::new(200, "OK")
    }

    /// 404 Not Found.
    pub fn not_found() -> (r: Self)
        ensures
            r.status_code == 404,
            r.status_text@ == "Not Found"@,
            r.headers@ == Seq::<(Seq<char>, Seq<char>)>::empty(),
            r.body@ == Seq::<u8>::empty(),
    {
        Self::new(404, "Not Found")
    }

    /// 405 Method Not Allowed.
    pub fn method_not_allowed() -> (r: Self)
        ensures
            r.status_code == 405,
            r.status_text@ == "Method Not Allowed"@,
            r.headers@ == Seq::<(Seq<char>, Seq<char>)>::empty(),
            r.body@ == Seq::<u8>::empty(),
    {
        Self::new(405, "Method Not Allowed")
    }

    /// 204 No Content.
    pub fn no_content() -> (r: Self)
        ensures
            r.status_code == 204,
            r.status_text@ == "No Content"@,
            r.headers@ == Seq::<(Seq<char>, Seq<char>)>::empty(),
            r.body@ == Seq::<u8>::empty(),
    {
        Self::new(204, "No Content")
    }

    /// 500 Internal Server Error.
    pub fn internal_error() -> (r: Self)
        ensures
            r.status_code == 500,
            r.status_text@ == "Internal Server Error"@,
            r.headers@ == Seq::<(Seq<char>, Seq<char>)>::empty(),
            r.body@ == Seq::<u8>::empty(),
    {
        Self::new(500, "Internal Server Error")
    }

    /// 400 Bad Request.
    pub fn bad_request() -> (r: Self)
        ensures
            r.status_code == 400,
            r.status_text@ == "Bad Request"@,
            r.headers@ == Seq::<(Seq<char>, Seq<char>)>::empty(),
            r.body@ == Seq::<u8>::empty(),
    {
        Self::new(400, "Bad Request")
    }

    /// 201 Created.
    pub fn created() -> (r: Self)
        ensures
            r.status_code == 201,
            r.status_text@ == "Created"@,
            r.headers@ == Seq::<(Seq<char>, Seq<char>)>::empty(),
            r.body@ == Seq::<u8>::empty(),
    {
        Self::new(201, "Created")
    }

    /// 415 Unsupported Media Type.
    pub fn unsupported_media_type() -> (r: Self)
        ensures
            r.status_code == 415,
            r.status_text@ == "Unsupported Media Type"@,
            r.headers@ == Seq::<(Seq<char>, Seq<char>)>::empty(),
            r.body@ == Seq::<u8>::empty(),
    {
        Self::new(415, "Unsupported Media Type")
    }

    /// 301 redirect to `location`.
    pub fn redirect(location: &str) -> (r: Self)
        ensures
            r.status_code == 301,
            r.status_text@ == "Moved Permanently"@,
            r.headers@ == Seq::<(Seq<char>, Seq<char>)>::empty().push(
                ("Location"@, spec_trim(location@)),
            ),
            r.body@ == Seq::<u8>::empty(),
    {
        let r = Self::new(301, "Moved Permanently").header("Location", location);
        proof {
            reveal_strlit("Location");
            lemma_trim_id("Location"@);
        }
        r
    }
}

/// The content type the file name's ending selects.
pub open spec fn spec_detect_content_type(p: Seq<char>) -> Seq<char> {
    if spec_ends_with(p, ".html"@) || spec_ends_with(p, ".htm"@) {
        "text/html"@
    } else if spec_ends_with(p, ".css"@) {
        "text/css"@
    } else if spec_ends_with(p, ".js"@) {
        "application/javascript"@
    } else if spec_ends_with(p, ".json"@) {
        "application/json"@
    } else if spec_ends_with(p, ".png"@) {
        "image/png"@
    } else if spec_ends_with(p, ".jpg"@) || spec_ends_with(p, ".jpeg"@) {
        "image/jpeg"@
    } else if spec_ends_with(p, ".gif"@) {
        "image/gif"@
    } else if spec_ends_with(p, ".svg"@) {
        "image/svg+xml"@
    } else if spec_ends_with(p, ".txt"@) {
        "text/plain"@
    } else if spec_ends_with(p, ".pdf"@) {
        "application/pdf"@
    } else {
        "application/octet-stream"@
    }
}

/// Detects a content type from the file name's ending.
pub fn detect_content_type(path: &str) -> (r: &'static str)
    ensures
        r@ == spec_detect_content_type(path@),
{
    if ends_with_str(path, ".html") || ends_with_str(path, ".htm") {
        "text/html"
    } else if ends_with_str(path, ".css") {
        "text/css"
    } else if ends_with_str(path, ".js") {
        "application/javascript"
    } else if ends_with_str(path, ".json") {
        "application/json"
    } else if ends_with_str(path, ".png") {
        "image/png"
    } else if ends_with_str(path, ".jpg") || ends_with_str(path, ".jpeg") {
        "image/jpeg"
    } else if ends_with_str(path, ".gif") {
        "image/gif"
    } else if ends_with_str(path, ".svg") {
        "image/svg+xml"
    } else if ends_with_str(path, ".txt") {
        "text/plain"
    } else if ends_with_str(path, ".pdf") {
        "application/pdf"
    } else {
        "application/octet-stream"
    }
}

/// Methods joined with a comma and a space, as the `Allow` header wants.
pub open spec fn spec_join_comma(ms: Seq<Seq<char>>) -> Seq<char>
    decreases ms.len(),
{
    if ms.len() == 0 {
        Seq::empty()
    } else if ms.len() == 1 {
        ms[0]
    } else {
        spec_join_comma(ms.drop_last()) + ", "@ + ms.last()
    }
}

/// Joins strings with `", "`.
pub fn join_comma(items: &[String]) -> (r: String)
    ensures
        r@ == spec_join_comma(items.deep_view()),
{
    let n = items.len();
    let mut s = String::new();
    let mut i: usize = 0;
    proof {
        assert(items.deep_view().subrange(0, 0) =~= Seq::<Seq<char>>::empty());
    }
    while i < n
        invariant
            0 <= i <= n,
            n == items@.len(),
            items.deep_view().len() == n,
            forall|k: int| 0 <= k < n ==> items.deep_view()[k] == (#[trigger] items@[k])@,
            s@ == spec_join_comma(items.deep_view().subrange(0, i as int)),
        decreases n - i,
    {
        if i > 0 {
            s.append(", ");
        }
        s.append(vstd::slice::slice_index_get(items, i).as_str());
        proof {
            let pre = items.deep_view().subrange(0, i + 1);
            assert(pre.drop_last() =~= items.deep_view().subrange(0, i as int));
            assert(pre.last() == items.deep_view()[i as int]);
            if i == 0 {
                assert(s@ =~= spec_join_comma(pre));
            } else {
                assert(s@ =~= spec_join_comma(pre));
            }
        }
        i = i + 1;
    }
    proof {
        assert(items.deep_view().subrange(0, n as int) =~= items.deep_view());
    }
    s
}

pub proof fn lemma_remove_absent(hs: Seq<(Seq<char>, Seq<char>)>, name: Seq<char>)
    requires
        forall|i: int| 0 <= i < hs.len() ==> (#[trigger] hs[i]).0.len() != name.len(),
    ensures
        spec_remove_entry(hs, name) == hs,
    decreases hs.len(),
{
    if hs.len() == 0 {
    } else {
        lemma_remove_absent(hs.drop_last(), name);
        assert(!crate::request::spec_eq_ci(hs.last().0, name));
        assert(spec_remove_entry(hs, name) =~= hs);
    }
}

/// Builds a `405 Method Not Allowed` response naming the allowed methods;
/// the body is the configured error page when one could be read.
pub fn handle_method_not_allowed(
    allowed_methods: &[String],
    error_page: Option<Vec<u8>>,
    cookie: &Cookie,
) -> (r: Vec<u8>)
    ensures
        ({
            let allow = spec_trim(spec_join_comma(allowed_methods.deep_view()));
            let sc = spec_trim(
                crate::session::spec_cookie_header_value(cookie.name@, cookie.value@),
            );
            match error_page {
                Some(page) => r@ == spec_build_bytes(
                    405,
                    "Method Not Allowed"@,
                    seq![
                        ("Allow"@, allow),
                        ("Content-Type"@, "text/html"@),
                        ("Set-Cookie"@, sc),
                    ],
                    page@,
                ),
                None => r@ == spec_build_bytes(
                    405,
                    "Method Not Allowed"@,
                    seq![
                        ("Allow"@, allow),
                        ("Content-Type"@, "text/plain"@),
                        ("Set-Cookie"@, sc),
                    ],
                    encode_utf8("Method Not Allowed"@),
                ),
            }
        }),
{
    let allow_header = join_comma(allowed_methods);
    proof {
        reveal_strlit("Allow");
        reveal_strlit("Content-Type");
        reveal_strlit("Set-Cookie");
        reveal_strlit("text/html");
        reveal_strlit("text/plain");
        lemma_trim_id("Allow"@);
        lemma_trim_id("Content-Type"@);
        lemma_trim_id("text/html"@);
        lemma_trim_id("text/plain"@);
    }
    match error_page {
        Some(page) => {
            let b = HttpResponseBuilder::method_not_allowed().header(
                "Allow",
                allow_header.as_str(),
            ).header("Content-Type", "text/html").cookie(cookie).body(page);
            proof {
                lemma_mna_headers(b.headers@, allow_header@, "text/html"@, cookie.name@, cookie.value@);
            }
            b.build()
        },
        None => {
            let body = "Method Not Allowed".as_bytes_vec();
            let b = HttpResponseBuilder::method_not_allowed().header(
                "Allow",
                allow_header.as_str(),
            ).header("Content-Type", "text/plain").cookie(cookie).body(body);
            proof {
                lemma_mna_headers(b.headers@, allow_header@, "text/plain"@, cookie.name@, cookie.value@);
            }
            b.build()
        },
    }
}

/// The rendered `Set-Cookie` value of a cookie, as a header stores it.
pub open spec fn spec_sc_of(c: Cookie) -> Seq<char> {
    spec_trim(crate::session::spec_cookie_header_value(c.name@, c.value@))
}

/// A detected content type never needs trimming.
pub proof fn lemma_ct_trim_id(p: Seq<char>)
    ensures
        spec_trim(spec_detect_content_type(p)) == spec_detect_content_type(p),
{
    reveal_strlit("text/html");
    reveal_strlit("text/css");
    reveal_strlit("application/javascript");
    reveal_strlit("application/json");
    reveal_strlit("image/png");
    reveal_strlit("image/jpeg");
    reveal_strlit("image/gif");
    reveal_strlit("image/svg+xml");
    reveal_strlit("text/plain");
    reveal_strlit("application/pdf");
    reveal_strlit("application/octet-stream");
    lemma_trim_id(spec_detect_content_type(p));
}

/// What a served file renders to: a 200 with its detected content type,
/// the session cookie, and the file's bytes as the body.
pub open spec fn spec_serve_file_bytes(path: Seq<char>, content: Seq<u8>, c: Cookie) -> Seq<u8> {
    spec_build_bytes(
        200,
        "OK"@,
        seq![
            ("Content-Type"@, spec_detect_content_type(path)),
            ("Set-Cookie"@, spec_sc_of(c)),
        ],
        content,
    )
}

/// What an error response renders to: the configured page as an HTML body
/// when it could be read, else a bare head.
pub open spec fn spec_error_page_bytes(
    code: u16,
    text: Seq<char>,
    page: Option<Seq<u8>>,
    c: Cookie,
) -> Seq<u8> {
    match page {
        Some(p) => spec_build_bytes(
            code,
            text,
            seq![("Content-Type"@, "text/html"@), ("Set-Cookie"@, spec_sc_of(c))],
            p,
        ),
        None => spec_build_bytes(code, text, seq![("Set-Cookie"@, spec_sc_of(c))], Seq::empty()),
    }
}

/// Serves the bytes of the file at `path`: a 200 whose content type the
/// file name selects.
pub fn serve_file(path: &str, content: Vec<u8>, cookie: &Cookie) -> (r: Vec<u8>)
    ensures
        r@ == spec_serve_file_bytes(path@, content@, *cookie),
{
    let ct = detect_content_type(path);
    proof {
        reveal_strlit("Content-Type");
        reveal_strlit("Set-Cookie");
        lemma_trim_id("Content-Type"@);
        lemma_ct_trim_id(path@);
    }
    let b = HttpResponseBuilder::ok().header("Content-Type", ct).cookie(cookie).body(content);
    proof {
        let h1 = Seq::<(Seq<char>, Seq<char>)>::empty().push(
            ("Content-Type"@, spec_detect_content_type(path@)),
        );
        lemma_remove_absent(h1, "Set-Cookie"@);
        assert(b.headers@ =~= seq![
            ("Content-Type"@, spec_detect_content_type(path@)),
            ("Set-Cookie"@, spec_sc_of(*cookie)),
        ]);
    }
    b.build()
}

/// Serves a custom error page, or a minimal head when none could be read.
pub fn serve_error_page(
    content: Option<Vec<u8>>,
    status_code: u16,
    status_text: &str,
    cookie: &Cookie,
) -> (r: Vec<u8>)
    ensures
        r@ == spec_error_page_bytes(
            status_code,
            status_text@,
            match content {
                Some(p) => Some(p@),
                None => None,
            },
            *cookie,
        ),
{
    proof {
        reveal_strlit("Content-Type");
        reveal_strlit("Set-Cookie");
        reveal_strlit("text/html");
        lemma_trim_id("Content-Type"@);
        lemma_trim_id("text/html"@);
    }
    match content {
        Some(page) => {
            let b = HttpResponseBuilder::new(status_code, status_text).header(
                "Content-Type",
                "text/html",
            ).cookie(cookie).body(page);
            proof {
                let h1 = Seq::<(Seq<char>, Seq<char>)>::empty().push(
                    ("Content-Type"@, "text/html"@),
                );
                lemma_remove_absent(h1, "Set-Cookie"@);
                assert(b.headers@ =~= seq![
                    ("Content-Type"@, "text/html"@),
                    ("Set-Cookie"@, spec_sc_of(*cookie)),
                ]);
            }
            b.build()
        },
        None => {
            let b = HttpResponseBuilder::new(status_code, status_text).cookie(cookie);
            proof {
                assert(b.headers@ =~= seq![("Set-Cookie"@, spec_sc_of(*cookie))]);
            }
            b.build()
        },
    }
}

/// Serves the file when it could be read, else the 404 error page.
pub fn serve_file_or_404(
    file_path: &str,
    file: Option<Vec<u8>>,
    error_page: Option<Vec<u8>>,
    cookie: &Cookie,
) -> (r: Vec<u8>)
    ensures
        match file {
            Some(content) => r@ == spec_serve_file_bytes(file_path@, content@, *cookie),
            None => r@ == spec_error_page_bytes(
                404,
                "Not Found"@,
                match error_page {
                    Some(p) => Some(p@),
                    None => None,
                },
                *cookie,
            ),
        },
{
    match file {
        Some(content) => serve_file(file_path, content, cookie),
        None => serve_error_page(error_page, 404, "Not Found", cookie),
    }
}

/// Serves a GET for a resolved file path from the bytes the caller read.
pub fn handle_get(
    file_path: &str,
    file: Option<Vec<u8>>,
    error_page: Option<Vec<u8>>,
    cookie: &Cookie,
) -> (r: Vec<u8>)
    ensures
        match file {
            Some(content) => r@ == spec_serve_file_bytes(file_path@, content@, *cookie),
            None => r@ == spec_error_page_bytes(
                404,
                "Not Found"@,
                match error_page {
                    Some(p) => Some(p@),
                    None => None,
                },
                *cookie,
            ),
        },
{
    serve_file_or_404(file_path, file, error_page, cookie)
}

/// Builds the response for an upload the caller has attempted: a 200 when
/// the body was written, a 500 naming the failure otherwise.
pub fn handle_post(file_path: &str, write_error: Option<String>, cookie: &Cookie) -> (r: Vec<u8>)
    ensures
        match write_error {
            None => r@ == spec_build_bytes(
                200,
                "OK"@,
                seq![
                    ("Content-Type"@, "text/plain"@),
                    ("Set-Cookie"@, spec_sc_of(*cookie)),
                ],
                encode_utf8("File uploaded successfully"@),
            ),
            Some(e) => r@ == spec_build_bytes(
                500,
                "Internal Server Error"@,
                seq![
                    ("Content-Type"@, "text/plain"@),
                    ("Set-Cookie"@, spec_sc_of(*cookie)),
                ],
                encode_utf8("Error: "@ + e@),
            ),
        },
{
    proof {
        reveal_strlit("Content-Type");
        reveal_strlit("Set-Cookie");
        reveal_strlit("text/plain");
        lemma_trim_id("Content-Type"@);
        lemma_trim_id("text/plain"@);
    }
    match write_error {
        None => {
            let body = "File uploaded successfully".as_bytes_vec();
            let b = HttpResponseBuilder::ok().header("Content-Type", "text/plain").cookie(
                cookie,
            ).body(body);
            proof {
                let h1 = Seq::<(Seq<char>, Seq<char>)>::empty().push(
                    ("Content-Type"@, "text/plain"@),
                );
                lemma_remove_absent(h1, "Set-Cookie"@);
                assert(b.headers@ =~= seq![
                    ("Content-Type"@, "text/plain"@),
                    ("Set-Cookie"@, spec_sc_of(*cookie)),
                ]);
            }
            b.build()
        },
        Some(e) => {
            let mut msg: String = "Error: ".to_owned();
            msg.append(e.as_str());
            let body = msg.as_str().as_bytes_vec();
            let b = HttpResponseBuilder::internal_error().header(
                "Content-Type",
                "text/plain",
            ).cookie(cookie).body(body);
            proof {
                let h1 = Seq::<(Seq<char>, Seq<char>)>::empty().push(
                    ("Content-Type"@, "text/plain"@),
                );
                lemma_remove_absent(h1, "Set-Cookie"@);
                assert(b.headers@ =~= seq![
                    ("Content-Type"@, "text/plain"@),
                    ("Set-Cookie"@, spec_sc_of(*cookie)),
                ]);
            }
            b.build()
        },
    }
}

/// Builds the response for a delete the caller has attempted: 204 when the
/// file was removed, the 404 page otherwise.
pub fn handle_delete(removed: bool, error_page: Option<Vec<u8>>, cookie: &Cookie) -> (r: Vec<u8>)
    ensures
        removed ==> r@ == spec_build_bytes(
            204,
            "No Content"@,
            Seq::<(Seq<char>, Seq<char>)>::empty(),
            Seq::<u8>::empty(),
        ),
        !removed ==> r@ == spec_error_page_bytes(
            404,
            "Not Found"@,
            match error_page {
                Some(p) => Some(p@),
                None => None,
            },
            *cookie,
        ),
{
    if removed {
        HttpResponseBuilder::no_content().build()
    } else {
        serve_error_page(error_page, 404, "Not Found", cookie)
    }
}

/// The boundary a `multipart/form-data` content type names: the value of
/// its first `boundary=` parameter, parameters separated by `;`.
pub open spec fn spec_boundary_of(h: Seq<char>) -> Option<Seq<char>>
    decreases h.len(),
    via spec_boundary_of_decreases
{
    let seg_end = match crate::request::spec_find_from(h, ';', 0) {
        Some(i) => i,
        None => h.len() as int,
    };
    let seg = h.subrange(0, seg_end);
    let parsed = spec_segment_boundary(seg);
    if parsed is Some {
        parsed
    } else if seg_end < h.len() {
        spec_boundary_of(h.subrange(seg_end + 1, h.len() as int))
    } else {
        None
    }
}

#[via_fn]
proof fn spec_boundary_of_decreases(h: Seq<char>) {
    crate::request::lemma_find_from_props(h, ';', 0);
}

/// The boundary one `k=v` parameter yields, if its key trims to
/// `boundary`.
pub open spec fn spec_segment_boundary(seg: Seq<char>) -> Option<Seq<char>> {
    match crate::request::spec_find_from(seg, '=', 0) {
        Some(e) => if spec_trim(seg.subrange(0, e)) == "boundary"@ {
            Some(spec_trim(seg.subrange(e + 1, seg.len() as int)))
        } else {
            None
        },
        None => None,
    }
}

/// Finds the multipart boundary in a content type value.
pub fn extract_boundary(content_type: &str) -> (r: Option<String>)
    ensures
        match r {
            Some(b) => spec_boundary_of(content_type@) == Some(b@),
            None => spec_boundary_of(content_type@) is None,
        },
    decreases content_type@.len(),
{
    let h = content_type;
    let (seg, rest) = match crate::strutil::split_once_char(h, ';') {
        Some(pair) => {
            proof {
                let i = choose|i: int|
                    0 <= i < h@.len() && h@[i] == ';' && (forall|k: int|
                        0 <= k < i ==> h@[k] != ';') && pair.0@ == h@.subrange(0, i) && pair.1@
                        == h@.subrange(i + 1, h@.len() as int);
                crate::request::lemma_find_from_first(h@, ';', i);
            }
            (pair.0, Some(pair.1))
        },
        None => {
            proof {
                crate::request::lemma_find_from_none(h@, ';', 0);
            }
            (h.to_owned(), None)
        },
    };
    proof {
        if crate::request::spec_find_from(h@, ';', 0) is None {
            assert(h@.subrange(0, h@.len() as int) =~= h@);
        }
    }
    let parsed: Option<String> = match crate::strutil::split_once_char(seg.as_str(), '=') {
        Some(kv) => {
            proof {
                let i = choose|i: int|
                    0 <= i < seg@.len() && seg@[i] == '=' && (forall|k: int|
                        0 <= k < i ==> seg@[k] != '=') && kv.0@ == seg@.subrange(0, i) && kv.1@
                        == seg@.subrange(i + 1, seg@.len() as int);
                crate::request::lemma_find_from_first(seg@, '=', i);
            }
            let key = crate::strutil::trim(kv.0.as_str());
            if crate::strutil::eq_str(key.as_str(), "boundary") {
                Some(crate::strutil::trim(kv.1.as_str()))
            } else {
                None
            }
        },
        None => {
            proof {
                crate::request::lemma_find_from_none(seg@, '=', 0);
            }
            None
        },
    };
    match parsed {
        Some(v) => Some(v),
        None => match rest {
            Some(r2) => {
                proof {
                    crate::request::lemma_find_from_props(h@, ';', 0);
                }
                extract_boundary(r2.as_str())
            },
            None => None,
        },
    }
}

/// The message a successful multipart upload reports.
pub open spec fn spec_multipart_message(names: Seq<Seq<char>>) -> Seq<char> {
    "Successfully uploaded "@ + spec_decimal(names.len()) + " file(s): "@ + spec_join_comma(
        names,
    )
}

/// Builds the response for a dissected multipart upload: a failed part
/// write is a 500 naming the failure, no extracted file a 400, and
/// otherwise a 201 naming the saved files.
pub fn multipart_response(saved: &[String], first_error: Option<String>, cookie: &Cookie) -> (r:
    Vec<u8>)
    ensures
        match first_error {
            Some(e) => r@ == spec_build_bytes(
                500,
                "Internal Server Error"@,
                seq![
                    ("Content-Type"@, "text/plain"@),
                    ("Set-Cookie"@, spec_sc_of(*cookie)),
                ],
                encode_utf8("Error: "@ + e@),
            ),
            None => {
                &&& saved@.len() == 0 ==> r@ == spec_build_bytes(
                    400,
                    "Bad Request"@,
                    Seq::<(Seq<char>, Seq<char>)>::empty(),
                    encode_utf8("Invalid multipart body or no files found"@),
                )
                &&& saved@.len() > 0 ==> r@ == spec_build_bytes(
                    201,
                    "Created"@,
                    Seq::<(Seq<char>, Seq<char>)>::empty(),
                    encode_utf8(spec_multipart_message(saved.deep_view())),
                )
            },
        },
{
    match first_error {
        Some(e) => {
            proof {
                reveal_strlit("Content-Type");
                reveal_strlit("Set-Cookie");
                reveal_strlit("text/plain");
                lemma_trim_id("Content-Type"@);
                lemma_trim_id("text/plain"@);
            }
            let mut msg: String = "Error: ".to_owned();
            msg.append(e.as_str());
            let body = msg.as_str().as_bytes_vec();
            let b = HttpResponseBuilder::internal_error().header(
                "Content-Type",
                "text/plain",
            ).cookie(cookie).body(body);
            proof {
                let h1 = Seq::<(Seq<char>, Seq<char>)>::empty().push(
                    ("Content-Type"@, "text/plain"@),
                );
                lemma_remove_absent(h1, "Set-Cookie"@);
                assert(b.headers@ =~= seq![
                    ("Content-Type"@, "text/plain"@),
                    ("Set-Cookie"@, spec_sc_of(*cookie)),
                ]);
            }
            return b.build();
        },
        None => {},
    }
    if saved.len() == 0 {
        let body = "Invalid multipart body or no files found".as_bytes_vec();
        HttpResponseBuilder::bad_request().body(body).build()
    } else {
        let mut msg: String = "Successfully uploaded ".to_owned();
        msg.append(decimal_string(saved.len() as u64).as_str());
        msg.append(" file(s): ");
        msg.append(join_comma(saved).as_str());
        proof {
            assert(saved.deep_view().len() == saved@.len());
            assert(msg@ =~= spec_multipart_message(saved.deep_view()));
        }
        let body = msg.as_str().as_bytes_vec();
        HttpResponseBuilder::created().body(body).build()
    }
}

/// Builds a directory-listing response from the generated page.
pub fn serve_directory_listing(html: Vec<u8>, cookie: &Cookie) -> (r: Vec<u8>)
    ensures
        r@ == spec_build_bytes(
            200,
            "OK"@,
            seq![("Content-Type"@, "text/html"@), ("Set-Cookie"@, spec_sc_of(*cookie))],
            html@,
        ),
{
    proof {
        reveal_strlit("Content-Type");
        reveal_strlit("Set-Cookie");
        reveal_strlit("text/html");
        lemma_trim_id("Content-Type"@);
        lemma_trim_id("text/html"@);
    }
    let b = HttpResponseBuilder::ok().header("Content-Type", "text/html").cookie(cookie).body(
        html,
    );
    proof {
        let h1 = Seq::<(Seq<char>, Seq<char>)>::empty().push(("Content-Type"@, "text/html"@));
        lemma_remove_absent(h1, "Set-Cookie"@);
        assert(b.headers@ =~= seq![
            ("Content-Type"@, "text/html"@),
            ("Set-Cookie"@, spec_sc_of(*cookie)),
        ]);
    }
    b.build()
}

proof fn lemma_mna_headers(
    hs: Seq<(Seq<char>, Seq<char>)>,
    allow: Seq<char>,
    ct: Seq<char>,
    cname: Seq<char>,
    cvalue: Seq<char>,
)
    requires
        hs == crate::request::spec_remove_entry(
            crate::request::spec_remove_entry(
                Seq::<(Seq<char>, Seq<char>)>::empty().push(("Allow"@, spec_trim(allow))),
                "Content-Type"@,
            ).push(("Content-Type"@, ct)),
            "Set-Cookie"@,
        ).push(("Set-Cookie"@, spec_trim(crate::session::spec_cookie_header_value(cname, cvalue)))),
    ensures
        hs == seq![
            ("Allow"@, spec_trim(allow)),
            ("Content-Type"@, ct),
            (
                "Set-Cookie"@,
                spec_trim(crate::session::spec_cookie_header_value(cname, cvalue)),
            ),
        ],
{
    reveal_strlit("Allow");
    reveal_strlit("Content-Type");
    reveal_strlit("Set-Cookie");
    let h1 = Seq::<(Seq<char>, Seq<char>)>::empty().push(("Allow"@, spec_trim(allow)));
    lemma_remove_absent(h1, "Content-Type"@);
    let h2 = h1.push(("Content-Type"@, ct));
    lemma_remove_absent(h2, "Set-Cookie"@);
    assert(hs =~= seq![
        ("Allow"@, spec_trim(allow)),
        ("Content-Type"@, ct),
        ("Set-Cookie"@, spec_trim(crate::session::spec_cookie_header_value(cname, cvalue))),
    ]);
}

} // verus!
