//! The configuration tree and its parser: an indentation-sensitive subset
//! of YAML, two spaces per level, `#` starting a comment.

use vstd::prelude::*;

use crate::strutil::{
    trim, spec_trim, eq_str, substr, str_len, parse_u16_str, parse_usize_str, split_once_char,
    spec_parses_as_uint, spec_uint_val, starts_with_str, spec_starts_with, spec_trim_char,
    trim_char,
};
use crate::request::{
    spec_find_from, lemma_find_from_first, lemma_find_from_none, lemma_find_from_props,
};

verus! {

/// The whole configuration: one or more virtual servers.
#[derive(Debug)]
pub struct Config {
    pub servers: Vec<ServerConfig>,
}

/// One virtual server.
#[derive(Debug)]
pub struct ServerConfig {
    pub server_name: String,
    pub host: String,
    pub ports: Vec<u16>,
    pub default_server: bool,
    pub error_pages: Vec<ErrorPage>,
    pub client_max_body_size: usize,
    pub root: String,
    pub routes: Vec<Route>,
}

/// A status code mapped to the page served for it.
#[derive(Debug)]
pub struct ErrorPage {
    pub code: u16,
    pub path: String,
}

/// One URL-path prefix and its handling policy.
#[derive(Debug)]
pub struct Route {
    pub path: String,
    pub methods: Vec<String>,
    pub root: Option<String>,
    pub default_file: Option<String>,
    pub redirect: Option<String>,
    pub cgi: Option<String>,
    pub list_directory: Option<bool>,
}

/// The mathematical image of a route.
pub struct RouteV {
    pub path: Seq<char>,
    pub methods: Seq<Seq<char>>,
    pub root: Option<Seq<char>>,
    pub default_file: Option<Seq<char>>,
    pub redirect: Option<Seq<char>>,
    pub cgi: Option<Seq<char>>,
    pub list_directory: Option<bool>,
}

impl View for Route {
    type V = RouteV;

    open spec fn view(&self) -> RouteV {
        RouteV {
            path: self.path@,
            methods: self.methods.deep_view(),
            root: match self.root {
                Some(ref s) => Some(s@),
                None => None,
            },
            default_file: match self.default_file {
                Some(ref s) => Some(s@),
                None => None,
            },
            redirect: match self.redirect {
                Some(ref s) => Some(s@),
                None => None,
            },
            cgi: match self.cgi {
                Some(ref s) => Some(s@),
                None => None,
            },
            list_directory: self.list_directory,
        }
    }
}

/// The mathematical image of an error page entry.
pub struct ErrorPageV {
    pub code: u16,
    pub path: Seq<char>,
}

impl View for ErrorPage {
    type V = ErrorPageV;

    open spec fn view(&self) -> ErrorPageV {
        ErrorPageV { code: self.code, path: self.path@ }
    }
}

impl DeepView for ErrorPage {
    type V = ErrorPageV;

    open spec fn deep_view(&self) -> ErrorPageV {
        self@
    }
}

impl DeepView for Route {
    type V = RouteV;

    open spec fn deep_view(&self) -> RouteV {
        self@
    }
}

/// The mathematical image of a server.
pub struct ServerConfigV {
    pub server_name: Seq<char>,
    pub host: Seq<char>,
    pub ports: Seq<u16>,
    pub default_server: bool,
    pub error_pages: Seq<ErrorPageV>,
    pub client_max_body_size: usize,
    pub root: Seq<char>,
    pub routes: Seq<RouteV>,
}

impl View for ServerConfig {
    type V = ServerConfigV;

    open spec fn view(&self) -> ServerConfigV {
        ServerConfigV {
            server_name: self.server_name@,
            host: self.host@,
            ports: self.ports@,
            default_server: self.default_server,
            error_pages: Seq::new(self.error_pages@.len(), |i: int| self.error_pages@[i]@),
            client_max_body_size: self.client_max_body_size,
            root: self.root@,
            routes: Seq::new(self.routes@.len(), |i: int| self.routes@[i]@),
        }
    }
}

impl DeepView for ServerConfig {
    type V = ServerConfigV;

    open spec fn deep_view(&self) -> ServerConfigV {
        self@
    }
}

impl View for Config {
    type V = Seq<ServerConfigV>;

    open spec fn view(&self) -> Seq<ServerConfigV> {
        Seq::new(self.servers@.len(), |i: int| self.servers@[i]@)
    }
}

/// How many spaces the line starts with.
pub open spec fn spec_indent(line: Seq<char>) -> int
    decreases line.len(),
{
    if line.len() == 0 || line[0] != ' ' {
        0
    } else {
        1 + spec_indent(line.drop_first())
    }
}

proof fn lemma_indent_at(line: Seq<char>, i: int)
    requires
        0 <= i <= line.len(),
        forall|k: int| 0 <= k < i ==> line[k] == ' ',
        i == line.len() || line[i] != ' ',
    ensures
        spec_indent(line) == i,
    decreases i,
{
    if i == 0 {
    } else {
        lemma_indent_at(line.drop_first(), i - 1);
    }
}

/// Counts the leading spaces of a line.
pub fn indent_level(line: &str) -> (r: usize)
    ensures
        r == spec_indent(line@),
{
    let n = str_len(line);
    let mut i: usize = 0;
    while i < n && line.get_char(i) == ' '
        invariant
            0 <= i <= n,
            n == line@.len(),
            forall|k: int| 0 <= k < i ==> line@[k] == ' ',
        decreases n - i,
    {
        i = i + 1;
    }
    proof {
        lemma_indent_at(line@, i as int);
    }
    i
}

/// What the `ports:` block starting at `start` denotes: the port list and
/// the first line the block does not cover; `None` on a malformed block.
pub open spec fn spec_parse_ports(lines: Seq<Seq<char>>, start: int) -> Option<(Seq<u16>, int)> {
    if !(0 <= start < lines.len() && spec_indent(lines[start]) == 4 && spec_trim(lines[start])
        == "ports:"@) {
        None
    } else {
        match spec_ports_loop(lines, start + 1, Seq::empty()) {
            Some(r) => if r.0.len() == 0 {
                None
            } else {
                Some(r)
            },
            None => None,
        }
    }
}

/// The `- <port>` lines at level six, folded into a port list.
pub open spec fn spec_ports_loop(lines: Seq<Seq<char>>, i: int, acc: Seq<u16>) -> Option<
    (Seq<u16>, int),
>
    decreases lines.len() - i,
    when 0 <= i
{
    if i >= lines.len() {
        Some((acc, i))
    } else {
        let t = spec_trim(lines[i]);
        if spec_indent(lines[i]) == 6 && t.len() > 0 && t[0] == '-' {
            let p = spec_trim(t.subrange(1, t.len() as int));
            if spec_parses_as_uint(p) && spec_uint_val(p) <= u16::MAX {
                spec_ports_loop(lines, i + 1, acc.push(spec_uint_val(p) as u16))
            } else {
                None
            }
        } else {
            Some((acc, i))
        }
    }
}

/// Parses a `ports:` block: a header line at level four and one `- <port>`
/// line per port at level six; at least one port is required.
pub fn parse_ports(lines: &[String], start: usize) -> (r: Result<(Vec<u16>, usize), String>)
    requires
        start < lines@.len(),
    ensures
        match r {
            Ok(p) => spec_parse_ports(lines.deep_view(), start as int) == Some((p.0@, p.1 as int))
                && start < p.1 <= lines@.len(),
            Err(_) => spec_parse_ports(lines.deep_view(), start as int) is None,
        },
{
    let ghost lv = lines.deep_view();
    proof {
        assert(lv[start as int] == lines@[start as int]@);
    }
    let line0 = vstd::slice::slice_index_get(lines, start);
    let t0 = trim(line0.as_str());
    if !(indent_level(line0.as_str()) == 4 && eq_str(t0.as_str(), "ports:")) {
        return Err("Expected 'ports:'".to_owned());
    }
    let n = lines.len();
    let mut ports: Vec<u16> = Vec::new();
    let mut i: usize = start + 1;
    let mut stop: bool = false;
    while !stop
        invariant
            start + 1 <= i <= n,
            n == lines@.len(),
            lv == lines.deep_view(),
            spec_indent(lv[start as int]) == 4 && spec_trim(lv[start as int]) == "ports:"@,
            !stop ==> spec_ports_loop(lv, start + 1, Seq::empty()) == spec_ports_loop(
                lv,
                i as int,
                ports@,
            ),
            stop ==> spec_ports_loop(lv, start + 1, Seq::empty()) == Some((ports@, i as int)),
        decreases n - i + (if stop {
            0int
        } else {
            1int
        }),
    {
        if i >= n {
            stop = true;
        } else {
            let line = vstd::slice::slice_index_get(lines, i);
            let t = trim(line.as_str());
            let lvl = indent_level(line.as_str());
            proof {
                assert(lv[i as int] == lines@[i as int]@);
            }
            if lvl == 6 && str_len(t.as_str()) > 0 && t.as_str().get_char(0) == '-' {
                let tl = str_len(t.as_str());
                let rest = substr(t.as_str(), 1, tl);
                let p = trim(rest.as_str());
                match parse_u16_str(p.as_str()) {
                    Some(port) => {
                        ports.push(port);
                        i = i + 1;
                    },
                    None => {
                        return Err("Invalid port number".to_owned());
                    },
                }
            } else {
                stop = true;
            }
        }
    }
    if ports.len() == 0 {
        return Err("ports must contain at least one value".to_owned());
    }
    Ok((ports, i))
}

/// A configuration value: trimmed, with surrounding quotes removed.
pub open spec fn spec_value(v: Seq<char>) -> Seq<char> {
    spec_trim_char(spec_trim(v), '"')
}

/// Cleans one configuration value.
pub fn value_of(v: &str) -> (r: String)
    ensures
        r@ == spec_value(v@),
{
    let t = trim(v);
    trim_char(t.as_str(), '"')
}

/// Splits at the first colon.
fn split_colon(t: &str) -> (r: Option<(String, String)>)
    ensures
        match r {
            Some(kv) => spec_find_from(t@, ':', 0) matches Some(c) && kv.0@ == t@.subrange(0, c)
                && kv.1@ == t@.subrange(c + 1, t@.len() as int),
            None => spec_find_from(t@, ':', 0) is None,
        },
{
    match split_once_char(t, ':') {
        Some(kv) => {
            proof {
                let i = choose|i: int|
                    0 <= i < t@.len() && t@[i] == ':' && (forall|k: int|
                        0 <= k < i ==> t@[k] != ':') && kv.0@ == t@.subrange(0, i) && kv.1@
                        == t@.subrange(i + 1, t@.len() as int);
                lemma_find_from_first(t@, ':', i);
            }
            Some(kv)
        },
        None => {
            proof {
                lemma_find_from_none(t@, ':', 0);
            }
            None
        },
    }
}

/// What the `error_pages:` block denotes: one `code: path` entry per
/// level-six line.
pub open spec fn spec_parse_error_pages(lines: Seq<Seq<char>>, start: int) -> Option<
    (Seq<ErrorPageV>, int),
> {
    if !(0 <= start < lines.len() && spec_indent(lines[start]) == 4 && spec_trim(lines[start])
        == "error_pages:"@) {
        None
    } else {
        spec_ep_loop(lines, start + 1, Seq::empty())
    }
}

/// The `code: path` lines at level six, folded into a list.
pub open spec fn spec_ep_loop(lines: Seq<Seq<char>>, i: int, acc: Seq<ErrorPageV>) -> Option<
    (Seq<ErrorPageV>, int),
>
    decreases lines.len() - i,
    when 0 <= i
{
    if i >= lines.len() {
        Some((acc, i))
    } else if spec_indent(lines[i]) == 6 {
        let t = spec_trim(lines[i]);
        match spec_find_from(t, ':', 0) {
            Some(c) => {
                let code = spec_trim(t.subrange(0, c));
                let path = spec_value(t.subrange(c + 1, t.len() as int));
                if spec_parses_as_uint(code) && spec_uint_val(code) <= u16::MAX {
                    spec_ep_loop(
                        lines,
                        i + 1,
                        acc.push(
                            ErrorPageV { code: spec_uint_val(code) as u16, path: path },
                        ),
                    )
                } else {
                    None
                }
            },
            None => None,
        }
    } else {
        Some((acc, i))
    }
}

/// Parses an `error_pages:` block: a header line at level four, then one
/// `code: path` entry per level-six line.
pub fn parse_error_pages(lines: &[String], start: usize) -> (r: Result<
    (Vec<ErrorPage>, usize),
    String,
>)
    requires
        start < lines@.len(),
    ensures
        match r {
            Ok(p) => spec_parse_error_pages(lines.deep_view(), start as int) matches Some(q)
                && q.0.len() == p.0@.len() && (forall|k: int|
                0 <= k < p.0@.len() ==> (#[trigger] p.0@[k])@ == q.0[k]) && q.1 == p.1
                && start < p.1 <= lines@.len(),
            Err(_) => spec_parse_error_pages(lines.deep_view(), start as int) is None,
        },
{
    let ghost lv = lines.deep_view();
    proof {
        assert(lv[start as int] == lines@[start as int]@);
    }
    let line0 = vstd::slice::slice_index_get(lines, start);
    let t0 = trim(line0.as_str());
    if !(indent_level(line0.as_str()) == 4 && eq_str(t0.as_str(), "error_pages:")) {
        return Err("Expected 'error_pages:'".to_owned());
    }
    let n = lines.len();
    let mut pages: Vec<ErrorPage> = Vec::new();
    let mut i: usize = start + 1;
    let mut stop: bool = false;
    proof {
        assert(pages.deep_view() =~= Seq::<ErrorPageV>::empty());
    }
    while !stop
        invariant
            start + 1 <= i <= n,
            n == lines@.len(),
            lv == lines.deep_view(),
            spec_indent(lv[start as int]) == 4 && spec_trim(lv[start as int]) == "error_pages:"@,
            !stop ==> spec_ep_loop(lv, start + 1, Seq::empty()) == spec_ep_loop(
                lv,
                i as int,
                pages.deep_view(),
            ),
            stop ==> spec_ep_loop(lv, start + 1, Seq::empty()) == Some(
                (pages.deep_view(), i as int),
            ),
        decreases n - i + (if stop {
            0int
        } else {
            1int
        }),
    {
        if i >= n {
            stop = true;
        } else {
            let line = vstd::slice::slice_index_get(lines, i);
            proof {
                assert(lv[i as int] == lines@[i as int]@);
            }
            if indent_level(line.as_str()) == 6 {
                let t = trim(line.as_str());
                match split_colon(t.as_str()) {
                    Some(kv) => {
                        let code_str = trim(kv.0.as_str());
                        match parse_u16_str(code_str.as_str()) {
                            Some(code) => {
                                let path = value_of(kv.1.as_str());
                                let ghost oldpages = pages.deep_view();
                                pages.push(ErrorPage { code, path });
                                proof {
                                    assert(pages.deep_view() =~= oldpages.push(
                                        ErrorPageV {
                                            code: code,
                                            path: spec_value(
                                                spec_trim(lv[i as int]).subrange(
                                                    spec_find_from(
                                                        spec_trim(lv[i as int]),
                                                        ':',
                                                        0,
                                                    )->Some_0 + 1,
                                                    spec_trim(lv[i as int]).len() as int,
                                                ),
                                            ),
                                        },
                                    ));
                                }
                                i = i + 1;
                            },
                            None => {
                                return Err("Invalid error page code".to_owned());
                            },
                        }
                    },
                    None => {
                        return Err("Invalid error_pages format".to_owned());
                    },
                }
            } else {
                stop = true;
            }
        }
    }
    Ok((pages, i))
}

/// The pieces of `s` between occurrences of `c`.
pub open spec fn spec_split_char(s: Seq<char>, c: char) -> Seq<Seq<char>>
    decreases s.len(),
    via spec_split_char_decreases
{
    match spec_find_from(s, c, 0) {
        None => seq![s],
        Some(i) => seq![s.subrange(0, i)] + spec_split_char(
            s.subrange(i + 1, s.len() as int),
            c,
        ),
    }
}

#[via_fn]
proof fn spec_split_char_decreases(s: Seq<char>, c: char) {
    lemma_find_from_props(s, c, 0);
}

/// Splits a string at every occurrence of `c`.
pub fn split_char_all(s: &str, c: char) -> (r: Vec<String>)
    ensures
        r.deep_view() == spec_split_char(s@, c),
        r@.len() >= 1,
    decreases s@.len(),
{
    match split_once_char(s, c) {
        Some(ab) => {
            proof {
                let i = choose|i: int|
                    0 <= i < s@.len() && s@[i] == c && (forall|k: int|
                        0 <= k < i ==> s@[k] != c) && ab.0@ == s@.subrange(0, i) && ab.1@
                        == s@.subrange(i + 1, s@.len() as int);
                lemma_find_from_first(s@, c, i);
            }
            let mut rest = split_char_all(ab.1.as_str(), c);
            let ghost restv = rest.deep_view();
            rest.insert(0, ab.0);
            proof {
                assert(rest.deep_view() =~= seq![s@.subrange(
                    0,
                    spec_find_from(s@, c, 0)->Some_0,
                )] + restv);
            }
            rest
        },
        None => {
            proof {
                lemma_find_from_none(s@, c, 0);
            }
            let mut r: Vec<String> = Vec::new();
            r.push(s.to_owned());
            proof {
                assert(r.deep_view() =~= seq![s@]);
            }
            r
        },
    }
}

/// The parts cleaned into method names: each trimmed and unquoted, the
/// empty ones dropped.
pub open spec fn spec_clean_parts(parts: Seq<Seq<char>>, i: int, acc: Seq<Seq<char>>) -> Seq<
    Seq<char>,
>
    decreases parts.len() - i,
    when 0 <= i
{
    if i >= parts.len() {
        acc
    } else {
        let m = spec_value(parts[i]);
        if m.len() > 0 {
            spec_clean_parts(parts, i + 1, acc.push(m))
        } else {
            spec_clean_parts(parts, i + 1, acc)
        }
    }
}

/// What a `methods:` value denotes: brackets stripped, split at commas,
/// each name trimmed and unquoted, empties dropped.
pub open spec fn spec_methods_of(v: Seq<char>) -> Seq<Seq<char>> {
    let t = spec_trim(v);
    let inner = if t.len() >= 2 && t[0] == '[' && t[t.len() - 1] == ']' {
        t.subrange(1, t.len() - 1)
    } else {
        t
    };
    spec_clean_parts(spec_split_char(inner, ','), 0, Seq::empty())
}

/// Parses a `methods:` value.
pub fn parse_methods(value: &str) -> (r: Vec<String>)
    ensures
        r.deep_view() == spec_methods_of(value@),
{
    let t = trim(value);
    let tl = str_len(t.as_str());
    let inner: String = if tl >= 2 && t.as_str().get_char(0) == '[' && t.as_str().get_char(tl - 1)
        == ']' {
        substr(t.as_str(), 1, tl - 1)
    } else {
        t
    };
    let parts = split_char_all(inner.as_str(), ',');
    let ghost pv = parts.deep_view();
    let n = parts.len();
    let mut out: Vec<String> = Vec::new();
    let mut i: usize = 0;
    proof {
        assert(out.deep_view() =~= Seq::<Seq<char>>::empty());
    }
    while i < n
        invariant
            0 <= i <= n,
            n == parts@.len(),
            pv == parts.deep_view(),
            pv.len() == n,
            spec_methods_of(value@) == spec_clean_parts(pv, i as int, out.deep_view()),
        decreases n - i,
    {
        proof {
            assert(pv[i as int] == parts@[i as int]@);
        }
        let m = value_of(vstd::slice::slice_index_get(parts.as_slice(), i).as_str());
        if str_len(m.as_str()) > 0 {
            let ghost outv = out.deep_view();
            out.push(m);
            proof {
                assert(out.deep_view() =~= outv.push(spec_value(pv[i as int])));
            }
        }
        i = i + 1;
    }
    out
}

/// One route field applied to the route under construction; `None` when
/// the key is unknown or the value malformed.
pub open spec fn spec_route_apply(r: RouteV, key: Seq<char>, value: Seq<char>) -> Option<RouteV> {
    if key == "path"@ {
        Some(RouteV { path: spec_value(value), ..r })
    } else if key == "methods"@ {
        Some(RouteV { methods: spec_methods_of(value), ..r })
    } else if key == "root"@ {
        Some(RouteV { root: Some(spec_value(value)), ..r })
    } else if key == "default_file"@ {
        Some(RouteV { default_file: Some(spec_value(value)), ..r })
    } else if key == "redirect"@ {
        Some(RouteV { redirect: Some(spec_value(value)), ..r })
    } else if key == "cgi"@ {
        Some(RouteV { cgi: Some(spec_value(value)), ..r })
    } else if key == "list_directory"@ {
        if spec_value(value) == "true"@ {
            Some(RouteV { list_directory: Some(true), ..r })
        } else if spec_value(value) == "false"@ {
            Some(RouteV { list_directory: Some(false), ..r })
        } else {
            None
        }
    } else {
        None
    }
}

fn route_apply(r: &mut Route, key: &str, value: &str) -> (ok: bool)
    ensures
        match spec_route_apply(old(r)@, key@, value@) {
            Some(r2) => ok && final(r)@ == r2,
            None => !ok,
        },
{
    if eq_str(key, "path") {
        r.path = value_of(value);
        true
    } else if eq_str(key, "methods") {
        r.methods = parse_methods(value);
        true
    } else if eq_str(key, "root") {
        r.root = Some(value_of(value));
        true
    } else if eq_str(key, "default_file") {
        r.default_file = Some(value_of(value));
        true
    } else if eq_str(key, "redirect") {
        r.redirect = Some(value_of(value));
        true
    } else if eq_str(key, "cgi") {
        r.cgi = Some(value_of(value));
        true
    } else if eq_str(key, "list_directory") {
        let v = value_of(value);
        if eq_str(v.as_str(), "true") {
            r.list_directory = Some(true);
            true
        } else if eq_str(v.as_str(), "false") {
            r.list_directory = Some(false);
            true
        } else {
            false
        }
    } else {
        false
    }
}

/// A route with nothing set yet.
pub open spec fn spec_route_init() -> RouteV {
    RouteV {
        path: Seq::empty(),
        methods: Seq::empty(),
        root: None,
        default_file: None,
        redirect: None,
        cgi: None,
        list_directory: None,
    }
}

/// The level-eight `key: value` lines folded into the route.
pub open spec fn spec_route_loop(lines: Seq<Seq<char>>, i: int, acc: RouteV) -> Option<
    (RouteV, int),
>
    decreases lines.len() - i,
    when 0 <= i
{
    if i >= lines.len() || spec_indent(lines[i]) != 8 {
        Some((acc, i))
    } else {
        let t = spec_trim(lines[i]);
        match spec_find_from(t, ':', 0) {
            Some(c) => match spec_route_apply(
                acc,
                t.subrange(0, c),
                t.subrange(c + 1, t.len() as int),
            ) {
                Some(a2) => spec_route_loop(lines, i + 1, a2),
                None => None,
            },
            None => spec_route_loop(lines, i + 1, acc),
        }
    }
}

/// What one route entry denotes: the dash line, possibly carrying a first
/// field, then its level-eight fields; `path` and `methods` are required.
pub open spec fn spec_parse_route(lines: Seq<Seq<char>>, start: int) -> Option<(RouteV, int)> {
    if !(0 <= start < lines.len() && spec_indent(lines[start]) == 6 && spec_trim(
        lines[start],
    ).len() > 0 && spec_trim(lines[start])[0] == '-') {
        None
    } else {
        let t = spec_trim(lines[start]);
        let first = spec_trim(t.subrange(1, t.len() as int));
        let acc0 = spec_route_init();
        let acc1 = if first.len() > 0 {
            match spec_find_from(first, ':', 0) {
                Some(c) => spec_route_apply(
                    acc0,
                    first.subrange(0, c),
                    first.subrange(c + 1, first.len() as int),
                ),
                None => Some(acc0),
            }
        } else {
            Some(acc0)
        };
        match acc1 {
            Some(a1) => match spec_route_loop(lines, start + 1, a1) {
                Some(done) => if done.0.path.len() > 0 && done.0.methods.len() > 0 {
                    Some(done)
                } else {
                    None
                },
                None => None,
            },
            None => None,
        }
    }
}

/// Parses one route entry: a `- ` line at level six, its fields on it and
/// on the level-eight lines below; `path` and `methods` are required.
pub fn parse_route(lines: &[String], start: usize) -> (r: Result<(Route, usize), String>)
    requires
        start < lines@.len(),
    ensures
        match r {
            Ok(p) => spec_parse_route(lines.deep_view(), start as int) matches Some(q) && q.0
                == p.0@ && q.1 == p.1 && start < p.1 <= lines@.len(),
            Err(_) => spec_parse_route(lines.deep_view(), start as int) is None,
        },
{
    let ghost lv = lines.deep_view();
    proof {
        assert(lv[start as int] == lines@[start as int]@);
    }
    let line0 = vstd::slice::slice_index_get(lines, start);
    let t0 = trim(line0.as_str());
    if !(indent_level(line0.as_str()) == 6 && str_len(t0.as_str()) > 0 && t0.as_str().get_char(0)
        == '-') {
        return Err("Expected route entry".to_owned());
    }
    let mut route = Route {
        path: String::new(),
        methods: Vec::new(),
        root: None,
        default_file: None,
        redirect: None,
        cgi: None,
        list_directory: None,
    };
    proof {
        assert(route@.methods =~= Seq::<Seq<char>>::empty());
        assert(route@ == spec_route_init());
    }
    let t0l = str_len(t0.as_str());
    let first_raw = substr(t0.as_str(), 1, t0l);
    let first = trim(first_raw.as_str());
    if str_len(first.as_str()) > 0 {
        match split_colon(first.as_str()) {
            Some(kv) => {
                if !route_apply(&mut route, kv.0.as_str(), kv.1.as_str()) {
                    return Err("Unknown route field".to_owned());
                }
            },
            None => {},
        }
    }
    let n = lines.len();
    let mut i: usize = start + 1;
    let mut stop: bool = false;
    let ghost acc1 = route@;
    while !stop
        invariant
            start + 1 <= i <= n,
            n == lines@.len(),
            lv == lines.deep_view(),
            spec_parse_route(lv, start as int) == (match spec_route_loop(lv, start + 1, acc1) {
                Some(done) => if done.0.path.len() > 0 && done.0.methods.len() > 0 {
                    Some(done)
                } else {
                    None
                },
                None => None,
            }),
            !stop ==> spec_route_loop(lv, start + 1, acc1) == spec_route_loop(
                lv,
                i as int,
                route@,
            ),
            stop ==> spec_route_loop(lv, start + 1, acc1) == Some((route@, i as int)),
        decreases n - i + (if stop {
            0int
        } else {
            1int
        }),
    {
        if i >= n {
            stop = true;
        } else {
            let line = vstd::slice::slice_index_get(lines, i);
            proof {
                assert(lv[i as int] == lines@[i as int]@);
            }
            if indent_level(line.as_str()) != 8 {
                stop = true;
            } else {
                let t = trim(line.as_str());
                match split_colon(t.as_str()) {
                    Some(kv) => {
                        if !route_apply(&mut route, kv.0.as_str(), kv.1.as_str()) {
                            return Err("Unknown route field".to_owned());
                        }
                    },
                    None => {},
                }
                i = i + 1;
            }
        }
    }
    if str_len(route.path.as_str()) == 0 || route.methods.len() == 0 {
        return Err("Incomplete route".to_owned());
    }
    Ok((route, i))
}

proof fn lemma_ports_loop_min(lines: Seq<Seq<char>>, i: int, acc: Seq<u16>)
    requires
        0 <= i <= lines.len(),
    ensures
        spec_ports_loop(lines, i, acc) matches Some(p) ==> i <= p.1 <= lines.len(),
    decreases lines.len() - i,
{
    if i >= lines.len() {
    } else {
        let t = spec_trim(lines[i]);
        if spec_indent(lines[i]) == 6 && t.len() > 0 && t[0] == '-' {
            let p = spec_trim(t.subrange(1, t.len() as int));
            if spec_parses_as_uint(p) && spec_uint_val(p) <= u16::MAX {
                lemma_ports_loop_min(lines, i + 1, acc.push(spec_uint_val(p) as u16));
            }
        }
    }
}

proof fn lemma_ep_loop_min(lines: Seq<Seq<char>>, i: int, acc: Seq<ErrorPageV>)
    requires
        0 <= i <= lines.len(),
    ensures
        spec_ep_loop(lines, i, acc) matches Some(p) ==> i <= p.1 <= lines.len(),
    decreases lines.len() - i,
{
    if i >= lines.len() {
    } else if spec_indent(lines[i]) == 6 {
        let t = spec_trim(lines[i]);
        match spec_find_from(t, ':', 0) {
            Some(c) => {
                let code = spec_trim(t.subrange(0, c));
                let path = spec_value(t.subrange(c + 1, t.len() as int));
                if spec_parses_as_uint(code) && spec_uint_val(code) <= u16::MAX {
                    lemma_ep_loop_min(
                        lines,
                        i + 1,
                        acc.push(ErrorPageV { code: spec_uint_val(code) as u16, path: path }),
                    );
                }
            },
            None => {},
        }
    }
}

proof fn lemma_route_loop_min(lines: Seq<Seq<char>>, i: int, acc: RouteV)
    requires
        0 <= i <= lines.len(),
    ensures
        spec_route_loop(lines, i, acc) matches Some(p) ==> i <= p.1 <= lines.len(),
    decreases lines.len() - i,
{
    if i >= lines.len() || spec_indent(lines[i]) != 8 {
    } else {
        let t = spec_trim(lines[i]);
        match spec_find_from(t, ':', 0) {
            Some(c) => {
                match spec_route_apply(acc, t.subrange(0, c), t.subrange(c + 1, t.len() as int)) {
                    Some(a2) => {
                        lemma_route_loop_min(lines, i + 1, a2);
                    },
                    None => {},
                }
            },
            None => {
                lemma_route_loop_min(lines, i + 1, acc);
            },
        }
    }
}

/// The route entries of a `routes:` block, folded into a list.
pub open spec fn spec_routes_loop(lines: Seq<Seq<char>>, i: int, acc: Seq<RouteV>) -> Option<
    (Seq<RouteV>, int),
>
    decreases lines.len() - i,
    when 0 <= i
    via spec_routes_loop_decreases
{
    if i < lines.len() && spec_indent(lines[i]) == 6 && spec_trim(lines[i]).len() > 0 && spec_trim(
        lines[i],
    )[0] == '-' {
        match spec_parse_route(lines, i) {
            Some(p) => spec_routes_loop(lines, p.1, acc.push(p.0)),
            None => None,
        }
    } else {
        Some((acc, i))
    }
}

#[via_fn]
proof fn spec_routes_loop_decreases(lines: Seq<Seq<char>>, i: int, acc: Seq<RouteV>) {
    if i < lines.len() && spec_indent(lines[i]) == 6 && spec_trim(lines[i]).len() > 0 && spec_trim(
        lines[i],
    )[0] == '-' {
        match spec_parse_route(lines, i) {
            Some(p) => {
                lemma_route_loop_min_parse(lines, i);
            },
            None => {},
        }
    }
}

proof fn lemma_route_loop_min_parse(lines: Seq<Seq<char>>, i: int)
    requires
        0 <= i,
    ensures
        spec_parse_route(lines, i) matches Some(p) ==> i < p.1 <= lines.len(),
{
    if 0 <= i < lines.len() && spec_indent(lines[i]) == 6 && spec_trim(lines[i]).len() > 0
        && spec_trim(lines[i])[0] == '-' {
        let t = spec_trim(lines[i]);
        let first = spec_trim(t.subrange(1, t.len() as int));
        let acc0 = spec_route_init();
        let acc1 = if first.len() > 0 {
            match spec_find_from(first, ':', 0) {
                Some(c) => spec_route_apply(
                    acc0,
                    first.subrange(0, c),
                    first.subrange(c + 1, first.len() as int),
                ),
                None => Some(acc0),
            }
        } else {
            Some(acc0)
        };
        match acc1 {
            Some(a1) => {
                lemma_route_loop_min(lines, i + 1, a1);
            },
            None => {},
        }
    }
}

proof fn lemma_routes_loop_min(lines: Seq<Seq<char>>, i: int, acc: Seq<RouteV>)
    requires
        0 <= i <= lines.len(),
    ensures
        spec_routes_loop(lines, i, acc) matches Some(p) ==> i <= p.1 <= lines.len(),
    decreases lines.len() - i,
{
    if i < lines.len() && spec_indent(lines[i]) == 6 && spec_trim(lines[i]).len() > 0 && spec_trim(
        lines[i],
    )[0] == '-' {
        match spec_parse_route(lines, i) {
            Some(p) => {
                lemma_route_loop_min_parse(lines, i);
                lemma_routes_loop_min(lines, p.1, acc.push(p.0));
            },
            None => {},
        }
    }
}

/// A server under construction: fields seen so far.
pub struct ServerAccV {
    pub server_name: Option<Seq<char>>,
    pub host: Option<Seq<char>>,
    pub ports: Seq<u16>,
    pub default_server: bool,
    pub error_pages: Seq<ErrorPageV>,
    pub client_max_body_size: Option<usize>,
    pub root: Option<Seq<char>>,
    pub routes: Seq<RouteV>,
}

struct ServerAcc {
    server_name: Option<String>,
    host: Option<String>,
    ports: Vec<u16>,
    default_server: bool,
    error_pages: Vec<ErrorPage>,
    client_max_body_size: Option<usize>,
    root: Option<String>,
    routes: Vec<Route>,
}

impl View for ServerAcc {
    type V = ServerAccV;

    closed spec fn view(&self) -> ServerAccV {
        ServerAccV {
            server_name: match self.server_name {
                Some(ref s) => Some(s@),
                None => None,
            },
            host: match self.host {
                Some(ref s) => Some(s@),
                None => None,
            },
            ports: self.ports@,
            default_server: self.default_server,
            error_pages: self.error_pages.deep_view(),
            client_max_body_size: self.client_max_body_size,
            root: match self.root {
                Some(ref s) => Some(s@),
                None => None,
            },
            routes: self.routes.deep_view(),
        }
    }
}

/// No server fields seen yet.
pub open spec fn spec_acc_init() -> ServerAccV {
    ServerAccV {
        server_name: None,
        host: None,
        ports: Seq::empty(),
        default_server: false,
        error_pages: Seq::empty(),
        client_max_body_size: None,
        root: None,
        routes: Seq::empty(),
    }
}

/// One simple server field applied; `None` when the key is unknown or the
/// value malformed.
pub open spec fn spec_server_apply(a: ServerAccV, key: Seq<char>, value: Seq<char>) -> Option<
    ServerAccV,
> {
    if key == "server_name"@ {
        Some(ServerAccV { server_name: Some(spec_value(value)), ..a })
    } else if key == "host"@ {
        Some(ServerAccV { host: Some(spec_value(value)), ..a })
    } else if key == "root"@ {
        Some(ServerAccV { root: Some(spec_value(value)), ..a })
    } else if key == "default_server"@ {
        if spec_value(value) == "true"@ {
            Some(ServerAccV { default_server: true, ..a })
        } else if spec_value(value) == "false"@ {
            Some(ServerAccV { default_server: false, ..a })
        } else {
            None
        }
    } else if key == "client_max_body_size"@ {
        let v = spec_trim(value);
        if spec_parses_as_uint(v) && spec_uint_val(v) <= usize::MAX {
            Some(ServerAccV { client_max_body_size: Some(spec_uint_val(v) as usize), ..a })
        } else {
            None
        }
    } else {
        None
    }
}

fn server_apply(a: &mut ServerAcc, key: &str, value: &str) -> (ok: bool)
    ensures
        match spec_server_apply(old(a)@, key@, value@) {
            Some(a2) => ok && final(a)@ == a2,
            None => !ok,
        },
{
    if eq_str(key, "server_name") {
        a.server_name = Some(value_of(value));
        true
    } else if eq_str(key, "host") {
        a.host = Some(value_of(value));
        true
    } else if eq_str(key, "root") {
        a.root = Some(value_of(value));
        true
    } else if eq_str(key, "default_server") {
        let v = value_of(value);
        if eq_str(v.as_str(), "true") {
            a.default_server = true;
            true
        } else if eq_str(v.as_str(), "false") {
            a.default_server = false;
            true
        } else {
            false
        }
    } else if eq_str(key, "client_max_body_size") {
        let v = trim(value);
        match parse_usize_str(v.as_str()) {
            Some(n) => {
                a.client_max_body_size = Some(n);
                true
            },
            None => false,
        }
    } else {
        false
    }
}

/// The finished server: required fields present, defaults filled in. The
/// defaults are one port, eighty; a megabyte of body; the host as name.
pub open spec fn spec_acc_finish(a: ServerAccV) -> Option<ServerConfigV> {
    match (a.host, a.root) {
        (Some(h), Some(rt)) => Some(
            ServerConfigV {
                server_name: match a.server_name {
                    Some(sn) => sn,
                    None => h,
                },
                host: h,
                ports: if a.ports.len() == 0 {
                    seq![80u16]
                } else {
                    a.ports
                },
                default_server: a.default_server,
                error_pages: a.error_pages,
                client_max_body_size: match a.client_max_body_size {
                    Some(x) => x,
                    None => 1000000,
                },
                root: rt,
                routes: a.routes,
            },
        ),
        _ => None,
    }
}

/// The level-four lines of one server folded into the accumulator: simple
/// fields, and the `ports:`, `error_pages:` and `routes:` blocks.
pub open spec fn spec_server_loop(lines: Seq<Seq<char>>, i: int, a: ServerAccV) -> Option<
    (ServerAccV, int),
>
    decreases lines.len() - i,
    when 0 <= i
    via spec_server_loop_decreases
{
    if i >= lines.len() {
        Some((a, i))
    } else {
        let lvl = spec_indent(lines[i]);
        let t = spec_trim(lines[i]);
        if lvl == 4 && t == "ports:"@ {
            match spec_parse_ports(lines, i) {
                Some(p) => spec_server_loop(lines, p.1, ServerAccV { ports: p.0, ..a }),
                None => None,
            }
        } else if lvl == 4 && t == "error_pages:"@ {
            match spec_parse_error_pages(lines, i) {
                Some(p) => spec_server_loop(lines, p.1, ServerAccV { error_pages: p.0, ..a }),
                None => None,
            }
        } else if lvl == 4 && t == "routes:"@ {
            match spec_routes_loop(lines, i + 1, Seq::empty()) {
                Some(p) => spec_server_loop(lines, p.1, ServerAccV { routes: p.0, ..a }),
                None => None,
            }
        } else if lvl == 4 {
            match spec_find_from(t, ':', 0) {
                Some(c) => match spec_server_apply(
                    a,
                    t.subrange(0, c),
                    t.subrange(c + 1, t.len() as int),
                ) {
                    Some(a2) => spec_server_loop(lines, i + 1, a2),
                    None => None,
                },
                None => None,
            }
        } else if lvl == 2 && t.len() > 0 && t[0] == '-' {
            Some((a, i))
        } else {
            None
        }
    }
}

#[via_fn]
proof fn spec_server_loop_decreases(lines: Seq<Seq<char>>, i: int, a: ServerAccV) {
    if 0 <= i && i < lines.len() {
        let lvl = spec_indent(lines[i]);
        let t = spec_trim(lines[i]);
        if lvl == 4 && t == "ports:"@ {
            lemma_ports_loop_min(lines, i + 1, Seq::empty());
        } else if lvl == 4 && t == "error_pages:"@ {
            lemma_ep_loop_min(lines, i + 1, Seq::empty());
        } else if lvl == 4 && t == "routes:"@ {
            lemma_routes_loop_min(lines, i + 1, Seq::empty());
        }
    }
}

/// What one server entry denotes: the dash line, possibly carrying a first
/// field, then its level-four lines; `host` and `root` are required.
pub open spec fn spec_parse_server(lines: Seq<Seq<char>>, start: int) -> Option<
    (ServerConfigV, int),
> {
    if !(0 <= start < lines.len() && spec_indent(lines[start]) == 2 && spec_trim(
        lines[start],
    ).len() > 0 && spec_trim(lines[start])[0] == '-') {
        None
    } else {
        let t = spec_trim(lines[start]);
        let first = spec_trim(t.subrange(1, t.len() as int));
        let acc0 = spec_acc_init();
        let acc1 = if first.len() > 0 {
            match spec_find_from(first, ':', 0) {
                Some(c) => spec_server_apply(
                    acc0,
                    first.subrange(0, c),
                    first.subrange(c + 1, first.len() as int),
                ),
                None => Some(acc0),
            }
        } else {
            Some(acc0)
        };
        match acc1 {
            Some(a1) => match spec_server_loop(lines, start + 1, a1) {
                Some(done) => match spec_acc_finish(done.0) {
                    Some(srv) => Some((srv, done.1)),
                    None => None,
                },
                None => None,
            },
            None => None,
        }
    }
}

/// Parses the route entries that follow a `routes:` header.
fn parse_routes_block(lines: &[String], start: usize) -> (r: Result<(Vec<Route>, usize), String>)
    requires
        start <= lines@.len(),
    ensures
        match r {
            Ok(p) => spec_routes_loop(lines.deep_view(), start as int, Seq::empty()) matches Some(
                q,
            ) && q.0 == p.0.deep_view() && q.1 == p.1 && start <= p.1 <= lines@.len(),
            Err(_) => spec_routes_loop(lines.deep_view(), start as int, Seq::empty()) is None,
        },
{
    let ghost lv = lines.deep_view();
    let n = lines.len();
    let mut routes: Vec<Route> = Vec::new();
    let mut j: usize = start;
    let mut rstop: bool = false;
    proof {
        assert(routes.deep_view() =~= Seq::<RouteV>::empty());
    }
    while !rstop
        invariant
            start <= j <= n,
            n == lines@.len(),
            lv == lines.deep_view(),
            !rstop ==> spec_routes_loop(lv, start as int, Seq::empty()) == spec_routes_loop(
                lv,
                j as int,
                routes.deep_view(),
            ),
            rstop ==> spec_routes_loop(lv, start as int, Seq::empty()) == Some(
                (routes.deep_view(), j as int),
            ),
        decreases n - j + (if rstop {
            0int
        } else {
            1int
        }),
    {
        let mut entry = false;
        if j < n {
            let rl = vstd::slice::slice_index_get(lines, j);
            proof {
                assert(lv[j as int] == lines@[j as int]@);
            }
            let rt = trim(rl.as_str());
            if indent_level(rl.as_str()) == 6 && str_len(rt.as_str()) > 0 && rt.as_str().get_char(
                0,
            ) == '-' {
                entry = true;
            }
        }
        if entry {
            match parse_route(lines, j) {
                Ok(p) => {
                    let ghost rv = routes.deep_view();
                    let ghost pv = p.0@;
                    proof {
                        lemma_route_loop_min_parse(lv, j as int);
                    }
                    let nj = p.1;
                    routes.push(p.0);
                    proof {
                        assert(routes.deep_view() =~= rv.push(pv));
                    }
                    j = nj;
                },
                Err(e) => {
                    return Err(e);
                },
            }
        } else {
            rstop = true;
        }
    }
    Ok((routes, j))
}

/// Parses one server entry: a `- ` line at level two, simple fields and
/// nested blocks below it; `host` and `root` are required, the rest have
/// defaults.
pub fn parse_server(lines: &[String], start: usize) -> (r: Result<(ServerConfig, usize), String>)
    requires
        start < lines@.len(),
    ensures
        match r {
            Ok(p) => spec_parse_server(lines.deep_view(), start as int) matches Some(q) && q.0
                == p.0@ && q.1 == p.1 && start < p.1 <= lines@.len(),
            Err(_) => spec_parse_server(lines.deep_view(), start as int) is None,
        },
{
    let ghost lv = lines.deep_view();
    proof {
        assert(lv[start as int] == lines@[start as int]@);
    }
    let line0 = vstd::slice::slice_index_get(lines, start);
    let t0 = trim(line0.as_str());
    if !(indent_level(line0.as_str()) == 2 && str_len(t0.as_str()) > 0 && t0.as_str().get_char(0)
        == '-') {
        return Err("Expected server entry".to_owned());
    }
    let mut acc = ServerAcc {
        server_name: None,
        host: None,
        ports: Vec::new(),
        default_server: false,
        error_pages: Vec::new(),
        client_max_body_size: None,
        root: None,
        routes: Vec::new(),
    };
    proof {
        assert(acc@.ports =~= Seq::<u16>::empty());
        assert(acc@.error_pages =~= Seq::<ErrorPageV>::empty());
        assert(acc@.routes =~= Seq::<RouteV>::empty());
        assert(acc@ == spec_acc_init());
    }
    let t0l = str_len(t0.as_str());
    let first_raw = substr(t0.as_str(), 1, t0l);
    let first = trim(first_raw.as_str());
    if str_len(first.as_str()) > 0 {
        match split_colon(first.as_str()) {
            Some(kv) => {
                if !server_apply(&mut acc, kv.0.as_str(), kv.1.as_str()) {
                    return Err("Unknown server field".to_owned());
                }
            },
            None => {},
        }
    }
    let n = lines.len();
    let mut i: usize = start + 1;
    let mut stop: bool = false;
    let ghost acc1 = acc@;
    while !stop
        invariant
            start + 1 <= i <= n,
            n == lines@.len(),
            lv == lines.deep_view(),
            spec_parse_server(lv, start as int) == (match spec_server_loop(lv, start + 1, acc1) {
                Some(done) => match spec_acc_finish(done.0) {
                    Some(srv) => Some((srv, done.1)),
                    None => None,
                },
                None => None,
            }),
            !stop ==> spec_server_loop(lv, start + 1, acc1) == spec_server_loop(
                lv,
                i as int,
                acc@,
            ),
            stop ==> spec_server_loop(lv, start + 1, acc1) == Some((acc@, i as int)),
        decreases n - i + (if stop {
            0int
        } else {
            1int
        }),
    {
        if i >= n {
            stop = true;
        } else {
            let line = vstd::slice::slice_index_get(lines, i);
            proof {
                assert(lv[i as int] == lines@[i as int]@);
            }
            let lvl = indent_level(line.as_str());
            let t = trim(line.as_str());
            if lvl == 4 && eq_str(t.as_str(), "ports:") {
                match parse_ports(lines, i) {
                    Ok(p) => {
                        acc.ports = p.0;
                        i = p.1;
                    },
                    Err(e) => {
                        return Err(e);
                    },
                }
            } else if lvl == 4 && eq_str(t.as_str(), "error_pages:") {
                match parse_error_pages(lines, i) {
                    Ok(p) => {
                        let ghost epv = spec_parse_error_pages(lv, i as int)->Some_0.0;
                        acc.error_pages = p.0;
                        proof {
                            assert(acc@.error_pages =~= epv);
                        }
                        i = p.1;
                    },
                    Err(e) => {
                        return Err(e);
                    },
                }
            } else if lvl == 4 && eq_str(t.as_str(), "routes:") {
                match parse_routes_block(lines, i + 1) {
                    Ok(p) => {
                        let ghost rsv = spec_routes_loop(lv, i + 1, Seq::empty())->Some_0.0;
                        acc.routes = p.0;
                        proof {
                            assert(acc@.routes =~= rsv);
                        }
                        i = p.1;
                    },
                    Err(e) => {
                        return Err(e);
                    },
                }
            } else if lvl == 4 {
                match split_colon(t.as_str()) {
                    Some(kv) => {
                        if !server_apply(&mut acc, kv.0.as_str(), kv.1.as_str()) {
                            return Err("Unknown server field".to_owned());
                        }
                        i = i + 1;
                    },
                    None => {
                        return Err("Invalid server field".to_owned());
                    },
                }
            } else if lvl == 2 && str_len(t.as_str()) > 0 && t.as_str().get_char(0) == '-' {
                stop = true;
            } else {
                return Err("Unknown server field or invalid indentation".to_owned());
            }
        }
    }
    let ghost accv = acc@;
    let host = match acc.host {
        Some(h) => h,
        None => {
            return Err("Missing host".to_owned());
        },
    };
    let root = match acc.root {
        Some(rt) => rt,
        None => {
            return Err("Missing root".to_owned());
        },
    };
    let server_name = match acc.server_name {
        Some(sn) => sn,
        None => host.clone(),
    };
    let mut ports = acc.ports;
    if ports.len() == 0 {
        ports.push(80);
        proof {
            assert(ports@ =~= seq![80u16]);
        }
    }
    let client_max_body_size = match acc.client_max_body_size {
        Some(x) => x,
        None => 1000000,
    };
    let srv = ServerConfig {
        server_name,
        host,
        ports,
        default_server: acc.default_server,
        error_pages: acc.error_pages,
        client_max_body_size,
        root,
        routes: acc.routes,
    };
    proof {
        assert(srv@.error_pages =~= accv.error_pages);
        assert(srv@.routes =~= accv.routes);
        assert(spec_acc_finish(accv) matches Some(sv) && srv@ == sv);
    }
    Ok((srv, i))
}

/// Copies a string list, value for value.
pub fn clone_string_vec(v: &Vec<String>) -> (r: Vec<String>)
    ensures
        r.deep_view() == v.deep_view(),
{
    let n = v.len();
    let mut out: Vec<String> = Vec::new();
    let mut i: usize = 0;
    while i < n
        invariant
            0 <= i <= n,
            n == v@.len(),
            out.deep_view() =~= v.deep_view().subrange(0, i as int),
        decreases n - i,
    {
        let ghost pre = out.deep_view();
        out.push(v[i].clone());
        proof {
            assert(v.deep_view()[i as int] == v@[i as int]@);
            assert(out.deep_view() =~= pre.push(v@[i as int]@));
            assert(out.deep_view() =~= v.deep_view().subrange(0, i + 1));
        }
        i = i + 1;
    }
    proof {
        assert(v.deep_view().subrange(0, n as int) =~= v.deep_view());
    }
    out
}

/// Copies a route, field for field.
pub fn clone_route(r: &Route) -> (c: Route)
    ensures
        c@ == r@,
{
    Route {
        path: r.path.clone(),
        methods: clone_string_vec(&r.methods),
        root: match &r.root {
            Some(s) => Some(s.clone()),
            None => None,
        },
        default_file: match &r.default_file {
            Some(s) => Some(s.clone()),
            None => None,
        },
        redirect: match &r.redirect {
            Some(s) => Some(s.clone()),
            None => None,
        },
        cgi: match &r.cgi {
            Some(s) => Some(s.clone()),
            None => None,
        },
        list_directory: r.list_directory,
    }
}

/// Copies a server, field for field.
pub fn clone_server(s: &ServerConfig) -> (c: ServerConfig)
    ensures
        c@ == s@,
{
    let mut error_pages: Vec<ErrorPage> = Vec::new();
    let ne = s.error_pages.len();
    let mut i: usize = 0;
    while i < ne
        invariant
            0 <= i <= ne,
            ne == s.error_pages@.len(),
            s@.error_pages.len() == ne,
            forall|k: int| 0 <= k < ne ==> s@.error_pages[k] == (#[trigger] s.error_pages@[k])@,
            error_pages.deep_view() =~= s@.error_pages.subrange(0, i as int),
        decreases ne - i,
    {
        let ghost pre = error_pages.deep_view();
        error_pages.push(
            ErrorPage { code: s.error_pages[i].code, path: s.error_pages[i].path.clone() },
        );
        proof {
            assert(error_pages.deep_view() =~= pre.push(s@.error_pages[i as int]));
            assert(error_pages.deep_view() =~= s@.error_pages.subrange(0, i + 1));
        }
        i = i + 1;
    }
    let mut routes: Vec<Route> = Vec::new();
    let nr = s.routes.len();
    let mut j: usize = 0;
    while j < nr
        invariant
            0 <= j <= nr,
            nr == s.routes@.len(),
            s@.routes.len() == nr,
            forall|k: int| 0 <= k < nr ==> s@.routes[k] == (#[trigger] s.routes@[k])@,
            routes.deep_view() =~= s@.routes.subrange(0, j as int),
        decreases nr - j,
    {
        let ghost pre = routes.deep_view();
        routes.push(clone_route(&s.routes[j]));
        proof {
            assert(routes.deep_view() =~= pre.push(s@.routes[j as int]));
            assert(routes.deep_view() =~= s@.routes.subrange(0, j + 1));
        }
        j = j + 1;
    }
    let c = ServerConfig {
        server_name: s.server_name.clone(),
        host: s.host.clone(),
        ports: s.ports.clone(),
        default_server: s.default_server,
        error_pages,
        client_max_body_size: s.client_max_body_size,
        root: s.root.clone(),
        routes,
    };
    proof {
        assert(s@.error_pages.subrange(0, ne as int) =~= s@.error_pages);
        assert(s@.routes.subrange(0, nr as int) =~= s@.routes);
        assert(c@.error_pages =~= s@.error_pages);
        assert(c@.routes =~= s@.routes);
    }
    c
}

/// The raw lines of the text: split at line feeds, a carriage return
/// before the line feed dropped.
pub open spec fn spec_raw_lines(s: Seq<char>) -> Seq<Seq<char>>
    decreases s.len(),
    via spec_raw_lines_decreases
{
    if s.len() == 0 {
        Seq::empty()
    } else {
        match spec_find_from(s, '\n', 0) {
            None => seq![s],
            Some(i) => {
                let line = s.subrange(0, i);
                let line2 = if line.len() > 0 && line[line.len() - 1] == '\r' {
                    line.drop_last()
                } else {
                    line
                };
                seq![line2] + spec_raw_lines(s.subrange(i + 1, s.len() as int))
            },
        }
    }
}

#[via_fn]
proof fn spec_raw_lines_decreases(s: Seq<char>) {
    lemma_find_from_props(s, '\n', 0);
}

/// A raw line prepared: everything from the first `#` on is dropped.
pub open spec fn spec_uncomment(l: Seq<char>) -> Seq<char> {
    match spec_find_from(l, '#', 0) {
        Some(i) => l.subrange(0, i),
        None => l,
    }
}

/// The configuration lines: comments stripped, blank lines dropped.
pub open spec fn spec_clean_lines(raw: Seq<Seq<char>>, i: int, acc: Seq<Seq<char>>) -> Seq<
    Seq<char>,
>
    decreases raw.len() - i,
    when 0 <= i
{
    if i >= raw.len() {
        acc
    } else {
        let c = spec_uncomment(raw[i]);
        if spec_trim(c).len() > 0 {
            spec_clean_lines(raw, i + 1, acc.push(c))
        } else {
            spec_clean_lines(raw, i + 1, acc)
        }
    }
}

fn raw_lines(s: &str) -> (r: Vec<String>)
    ensures
        r.deep_view() == spec_raw_lines(s@),
    decreases s@.len(),
{
    if s.is_empty() {
        let r: Vec<String> = Vec::new();
        proof {
            assert(r.deep_view() =~= Seq::<Seq<char>>::empty());
        }
        return r;
    }
    match split_once_char(s, '\n') {
        None => {
            proof {
                lemma_find_from_none(s@, '\n', 0);
            }
            let mut r: Vec<String> = Vec::new();
            r.push(s.to_owned());
            proof {
                assert(r.deep_view() =~= seq![s@]);
            }
            r
        },
        Some(ab) => {
            proof {
                let i = choose|i: int|
                    0 <= i < s@.len() && s@[i] == '\n' && (forall|k: int|
                        0 <= k < i ==> s@[k] != '\n') && ab.0@ == s@.subrange(0, i) && ab.1@
                        == s@.subrange(i + 1, s@.len() as int);
                lemma_find_from_first(s@, '\n', i);
            }
            let al = str_len(ab.0.as_str());
            let line2: String = if al > 0 && ab.0.as_str().get_char(al - 1) == '\r' {
                let t = substr(ab.0.as_str(), 0, al - 1);
                proof {
                    assert(t@ =~= ab.0@.drop_last());
                }
                t
            } else {
                ab.0
            };
            let mut rest = raw_lines(ab.1.as_str());
            let ghost restv = rest.deep_view();
            let ghost l2v = line2@;
            rest.insert(0, line2);
            proof {
                assert(rest.deep_view() =~= seq![l2v] + restv);
            }
            rest
        },
    }
}

/// Cleans the text into configuration lines: split, comments stripped,
/// blank lines dropped.
pub fn clean_lines(content: &str) -> (r: Vec<String>)
    ensures
        r.deep_view() == spec_clean_lines(spec_raw_lines(content@), 0, Seq::empty()),
{
    let raw = raw_lines(content);
    let ghost rawv = raw.deep_view();
    let n = raw.len();
    let mut out: Vec<String> = Vec::new();
    let mut i: usize = 0;
    proof {
        assert(out.deep_view() =~= Seq::<Seq<char>>::empty());
    }
    while i < n
        invariant
            0 <= i <= n,
            n == raw@.len(),
            rawv == raw.deep_view(),
            rawv.len() == n,
            spec_clean_lines(rawv, 0, Seq::empty()) == spec_clean_lines(
                rawv,
                i as int,
                out.deep_view(),
            ),
        decreases n - i,
    {
        proof {
            assert(rawv[i as int] == raw@[i as int]@);
        }
        let line = vstd::slice::slice_index_get(raw.as_slice(), i);
        let clean: String = match split_once_char(line.as_str(), '#') {
            Some(ab) => {
                proof {
                    let ci = choose|ci: int|
                        0 <= ci < line@.len() && line@[ci] == '#' && (forall|k: int|
                            0 <= k < ci ==> line@[k] != '#') && ab.0@ == line@.subrange(0, ci)
                            && ab.1@ == line@.subrange(ci + 1, line@.len() as int);
                    lemma_find_from_first(line@, '#', ci);
                }
                ab.0
            },
            None => {
                proof {
                    lemma_find_from_none(line@, '#', 0);
                }
                line.clone()
            },
        };
        let t = trim(clean.as_str());
        if str_len(t.as_str()) > 0 {
            let ghost outv = out.deep_view();
            let ghost cv = clean@;
            out.push(clean);
            proof {
                assert(out.deep_view() =~= outv.push(cv));
            }
        }
        i = i + 1;
    }
    out
}

/// What a whole configuration text denotes; `None` when it is rejected.
pub open spec fn spec_parse_config(lines: Seq<Seq<char>>) -> Option<Seq<ServerConfigV>> {
    if !(lines.len() > 0 && spec_indent(lines[0]) == 0 && spec_trim(lines[0]) == "servers:"@) {
        None
    } else {
        match spec_servers_loop(lines, 1, Seq::empty()) {
            Some(ss) => if ss.len() > 0 {
                Some(ss)
            } else {
                None
            },
            None => None,
        }
    }
}

/// The server entries after the `servers:` header; every line must belong
/// to one.
pub open spec fn spec_servers_loop(lines: Seq<Seq<char>>, i: int, acc: Seq<ServerConfigV>) -> Option<
    Seq<ServerConfigV>,
>
    decreases lines.len() - i,
    when 0 <= i
    via spec_servers_loop_decreases
{
    if i >= lines.len() {
        Some(acc)
    } else if spec_indent(lines[i]) == 2 && spec_trim(lines[i]).len() > 0 && spec_trim(
        lines[i],
    )[0] == '-' {
        match spec_parse_server(lines, i) {
            Some(p) => spec_servers_loop(lines, p.1, acc.push(p.0)),
            None => None,
        }
    } else {
        None
    }
}

#[via_fn]
proof fn spec_servers_loop_decreases(lines: Seq<Seq<char>>, i: int, acc: Seq<ServerConfigV>) {
    if 0 <= i && i < lines.len() {
        lemma_parse_server_min(lines, i);
    }
}

proof fn lemma_parse_server_min(lines: Seq<Seq<char>>, i: int)
    requires
        0 <= i,
    ensures
        spec_parse_server(lines, i) matches Some(p) ==> i < p.1 <= lines.len(),
{
    if 0 <= i < lines.len() && spec_indent(lines[i]) == 2 && spec_trim(lines[i]).len() > 0
        && spec_trim(lines[i])[0] == '-' {
        let t = spec_trim(lines[i]);
        let first = spec_trim(t.subrange(1, t.len() as int));
        let acc0 = spec_acc_init();
        let acc1 = if first.len() > 0 {
            match spec_find_from(first, ':', 0) {
                Some(c) => spec_server_apply(
                    acc0,
                    first.subrange(0, c),
                    first.subrange(c + 1, first.len() as int),
                ),
                None => Some(acc0),
            }
        } else {
            Some(acc0)
        };
        match acc1 {
            Some(a1) => {
                lemma_server_loop_min(lines, i + 1, a1);
            },
            None => {},
        }
    }
}

proof fn lemma_server_loop_min(lines: Seq<Seq<char>>, i: int, a: ServerAccV)
    requires
        0 <= i <= lines.len(),
    ensures
        spec_server_loop(lines, i, a) matches Some(p) ==> i <= p.1 <= lines.len(),
    decreases lines.len() - i,
{
    if i >= lines.len() {
    } else {
        let lvl = spec_indent(lines[i]);
        let t = spec_trim(lines[i]);
        if lvl == 4 && t == "ports:"@ {
            lemma_ports_loop_min(lines, i + 1, Seq::empty());
            match spec_parse_ports(lines, i) {
                Some(p) => {
                    lemma_server_loop_min(lines, p.1, ServerAccV { ports: p.0, ..a });
                },
                None => {},
            }
        } else if lvl == 4 && t == "error_pages:"@ {
            lemma_ep_loop_min(lines, i + 1, Seq::empty());
            match spec_parse_error_pages(lines, i) {
                Some(p) => {
                    lemma_server_loop_min(lines, p.1, ServerAccV { error_pages: p.0, ..a });
                },
                None => {},
            }
        } else if lvl == 4 && t == "routes:"@ {
            lemma_routes_loop_min(lines, i + 1, Seq::empty());
            match spec_routes_loop(lines, i + 1, Seq::empty()) {
                Some(p) => {
                    lemma_server_loop_min(lines, p.1, ServerAccV { routes: p.0, ..a });
                },
                None => {},
            }
        } else if lvl == 4 {
            match spec_find_from(t, ':', 0) {
                Some(c) => {
                    match spec_server_apply(a, t.subrange(0, c), t.subrange(c + 1, t.len() as int)) {
                        Some(a2) => {
                            lemma_server_loop_min(lines, i + 1, a2);
                        },
                        None => {},
                    }
                },
                None => {},
            }
        }
    }
}

/// Parses a whole configuration text: a `servers:` header, then one or
/// more server entries; comments and blank lines are ignored.
pub fn parse_config(content: &str) -> (r: Result<Config, String>)
    ensures
        ({
            let lines = spec_clean_lines(spec_raw_lines(content@), 0, Seq::empty());
            match r {
                Ok(cfg) => spec_parse_config(lines) == Some(cfg@),
                Err(_) => spec_parse_config(lines) is None,
            }
        }),
{
    let lines = clean_lines(content);
    let ghost lv = lines.deep_view();
    if lines.len() == 0 {
        return Err("Empty config file".to_owned());
    }
    proof {
        assert(lv[0] == lines@[0]@);
    }
    let line0 = vstd::slice::slice_index_get(lines.as_slice(), 0);
    let t0 = trim(line0.as_str());
    if !(indent_level(line0.as_str()) == 0 && eq_str(t0.as_str(), "servers:")) {
        return Err("Config must start with 'servers:'".to_owned());
    }
    let n = lines.len();
    let mut servers: Vec<ServerConfig> = Vec::new();
    let mut i: usize = 1;
    let mut stop: bool = false;
    proof {
        assert(Seq::new(servers@.len(), |k: int| servers@[k]@) =~= Seq::<ServerConfigV>::empty());
    }
    while !stop
        invariant
            1 <= i <= n,
            n == lines@.len(),
            lv == lines.deep_view(),
            lv == spec_clean_lines(spec_raw_lines(content@), 0, Seq::empty()),
            spec_indent(lv[0]) == 0 && spec_trim(lv[0]) == "servers:"@,
            !stop ==> spec_servers_loop(lv, 1, Seq::empty()) == spec_servers_loop(
                lv,
                i as int,
                Seq::new(servers@.len(), |k: int| servers@[k]@),
            ),
            stop ==> spec_servers_loop(lv, 1, Seq::empty()) == Some(
                Seq::new(servers@.len(), |k: int| servers@[k]@),
            ),
        decreases n - i + (if stop {
            0int
        } else {
            1int
        }),
    {
        if i >= n {
            stop = true;
        } else {
            let line = vstd::slice::slice_index_get(lines.as_slice(), i);
            proof {
                assert(lv[i as int] == lines@[i as int]@);
            }
            let t = trim(line.as_str());
            if indent_level(line.as_str()) == 2 && str_len(t.as_str()) > 0 && t.as_str().get_char(
                0,
            ) == '-' {
                match parse_server(lines.as_slice(), i) {
                    Ok(p) => {
                        let ghost sv = Seq::new(servers@.len(), |k: int| servers@[k]@);
                        let ghost pv = p.0@;
                        proof {
                            lemma_parse_server_min(lv, i as int);
                        }
                        let ni = p.1;
                        servers.push(p.0);
                        proof {
                            assert(Seq::new(servers@.len(), |k: int| servers@[k]@) =~= sv.push(
                                pv,
                            ));
                        }
                        i = ni;
                    },
                    Err(e) => {
                        return Err(e);
                    },
                }
            } else {
                return Err("Expected server list item".to_owned());
            }
        }
    }
    if servers.len() == 0 {
        return Err("At least one server is required".to_owned());
    }
    let cfg = Config { servers };
    proof {
        assert(cfg@ =~= Seq::new(cfg.servers@.len(), |k: int| cfg.servers@[k]@));
    }
    Ok(cfg)
}

} // verus!
