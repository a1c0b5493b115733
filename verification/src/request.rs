//! Incremental HTTP/1.1 request accumulation: the byte stream is absorbed
//! chunk by chunk, the head is parsed as soon as its `\r\n\r\n` terminator
//! arrives, and the body is assembled from the declared `Content-Length`.

use vstd::prelude::*;

use crate::strutil::{
    eq_str, spec_trim, spec_ltrim, spec_rtrim, trim, spec_is_space, find_char, substr, str_len,
    parse_usize_str, spec_parses_as_uint, spec_uint_val, split_once_char,
};

verus! {

/// A request method. Anything but the three verbs this server implements is
/// carried verbatim as `Other`.
#[derive(Debug, Clone)]
pub enum HttpMethod {
    GET,
    POST,
    DELETE,
    Other(String),
}

/// `m` is the parse of the method token `s`.
pub open spec fn spec_method_matches(m: HttpMethod, s: Seq<char>) -> bool {
    match m {
        HttpMethod::GET => s == "GET"@,
        HttpMethod::POST => s == "POST"@,
        HttpMethod::DELETE => s == "DELETE"@,
        HttpMethod::Other(t) => t@ == s && s != "GET"@ && s != "POST"@ && s != "DELETE"@,
    }
}

impl HttpMethod {
    /// Parses a method token.
    pub fn from_str(s: &str) -> (r: HttpMethod)
        ensures
            spec_method_matches(r, s@),
    {
        if eq_str(s, "GET") {
            HttpMethod::GET
        } else if eq_str(s, "POST") {
            HttpMethod::POST
        } else if eq_str(s, "DELETE") {
            HttpMethod::DELETE
        } else {
            HttpMethod::Other(s.to_owned())
        }
    }

    /// The canonical token of the method.
    pub fn to_str(&self) -> (r: &str)
        ensures
            r@ == self.spec_token(),
    {
        match self {
            HttpMethod::GET => "GET",
            HttpMethod::POST => "POST",
            HttpMethod::DELETE => "DELETE",
            HttpMethod::Other(t) => t.as_str(),
        }
    }

    /// Equality of two methods: same verb, or the same token under `Other`.
    pub open spec fn spec_eq(self, other: HttpMethod) -> bool {
        match (self, other) {
            (HttpMethod::GET, HttpMethod::GET) => true,
            (HttpMethod::POST, HttpMethod::POST) => true,
            (HttpMethod::DELETE, HttpMethod::DELETE) => true,
            (HttpMethod::Other(a), HttpMethod::Other(b)) => a@ == b@,
            _ => false,
        }
    }

    /// Executable counterpart of `spec_eq`.
    pub fn same(&self, other: &HttpMethod) -> (r: bool)
        ensures
            r == self.spec_eq(*other),
    {
        match (self, other) {
            (HttpMethod::GET, HttpMethod::GET) => true,
            (HttpMethod::POST, HttpMethod::POST) => true,
            (HttpMethod::DELETE, HttpMethod::DELETE) => true,
            (HttpMethod::Other(a), HttpMethod::Other(b)) => eq_str(a.as_str(), b.as_str()),
            _ => false,
        }
    }

    /// The token the method stands for.
    pub open spec fn spec_token(self) -> Seq<char> {
        match self {
            HttpMethod::GET => "GET"@,
            HttpMethod::POST => "POST"@,
            HttpMethod::DELETE => "DELETE"@,
            HttpMethod::Other(t) => t@,
        }
    }
}

/// The lower-case code point of an ASCII letter; other characters unchanged.
pub open spec fn spec_lower_int(c: char) -> int {
    if 'A' <= c && c <= 'Z' {
        c as int + 32
    } else {
        c as int
    }
}

/// Case-insensitive equality of two names, ASCII letters folded.
pub open spec fn spec_eq_ci(a: Seq<char>, b: Seq<char>) -> bool {
    a.len() == b.len() && forall|i: int| 0 <= i < a.len() ==> spec_lower_int(a[i]) == spec_lower_int(
        b[i],
    )
}

/// Executable case-insensitive comparison.
pub fn eq_ignore_case(a: &str, b: &str) -> (r: bool)
    ensures
        r == spec_eq_ci(a@, b@),
{
    let na = str_len(a);
    let nb = str_len(b);
    if na != nb {
        return false;
    }
    let mut i: usize = 0;
    while i < na
        invariant
            0 <= i <= na,
            na == a@.len(),
            na == b@.len(),
            forall|k: int| 0 <= k < i ==> spec_lower_int(a@[k]) == spec_lower_int(b@[k]),
        decreases na - i,
    {
        let ca = a.get_char(i) as u32;
        let cb = b.get_char(i) as u32;
        let la: u32 = if 65 <= ca && ca <= 90 {
            ca + 32
        } else {
            ca
        };
        let lb: u32 = if 65 <= cb && cb <= 90 {
            cb + 32
        } else {
            cb
        };
        if la != lb {
            return false;
        }
        i = i + 1;
    }
    true
}

/// The header list: name/value pairs in insertion order, names compared
/// case-insensitively, at most one entry per name.
#[derive(Debug, Clone)]
pub struct HttpHeaders {
    entries: Vec<(String, String)>,
}

/// Entries left after removing every pair whose name folds to `name`.
pub open spec fn spec_remove_entry(
    s: Seq<(Seq<char>, Seq<char>)>,
    name: Seq<char>,
) -> Seq<(Seq<char>, Seq<char>)>
    decreases s.len(),
{
    if s.len() == 0 {
        s
    } else if spec_eq_ci(s.last().0, name) {
        spec_remove_entry(s.drop_last(), name)
    } else {
        spec_remove_entry(s.drop_last(), name).push(s.last())
    }
}

/// The value stored under `name`, if any.
pub open spec fn spec_lookup(s: Seq<(Seq<char>, Seq<char>)>, name: Seq<char>) -> Option<Seq<char>>
    decreases s.len(),
{
    if s.len() == 0 {
        None
    } else if spec_eq_ci(s.last().0, name) {
        Some(s.last().1)
    } else {
        spec_lookup(s.drop_last(), name)
    }
}

impl View for HttpHeaders {
    type V = Seq<(Seq<char>, Seq<char>)>;

    closed spec fn view(&self) -> Seq<(Seq<char>, Seq<char>)> {
        self.entries.deep_view()
    }
}

impl HttpHeaders {
    /// An empty header list.
    pub fn new() -> (r: HttpHeaders)
        ensures
            r@ == Seq::<(Seq<char>, Seq<char>)>::empty(),
    {
        HttpHeaders { entries: Vec::new() }
    }

    /// Number of entries held.
    pub fn len(&self) -> (n: usize)
        ensures
            n == self@.len(),
    {
        self.entries.len()
    }

    /// The entry at a position, name first.
    pub fn entry_at(&self, i: usize) -> (r: (String, String))
        requires
            i < self@.len(),
        ensures
            r.0@ == self@[i as int].0,
            r.1@ == self@[i as int].1,
    {
        let e = &self.entries[i];
        (e.0.clone(), e.1.clone())
    }

    /// Stores `value` under `key`, both trimmed; an existing entry under the
    /// same name, compared case-insensitively, is replaced.
    pub fn insert(&mut self, key: &str, value: &str)
        ensures
            final(self)@ == spec_remove_entry(old(self)@, spec_trim(key@)).push(
                (spec_trim(key@), spec_trim(value@)),
            ),
    {
        let k = trim(key);
        let v = trim(value);
        let n = self.entries.len();
        let mut kept: Vec<(String, String)> = Vec::new();
        let mut i: usize = 0;
        while i < n
            invariant
                0 <= i <= n,
                n == self.entries.len(),
                k@ == spec_trim(key@),
                kept.deep_view() == spec_remove_entry(self@.subrange(0, i as int), k@),
            decreases n - i,
        {
            let keep = !eq_ignore_case(self.entries[i].0.as_str(), k.as_str());
            proof {
                let pre = self@.subrange(0, i + 1);
                assert(pre.drop_last() =~= self@.subrange(0, i as int));
                assert(pre.last() == self@[i as int]);
            }
            if keep {
                let e = &self.entries[i];
                kept.push((e.0.clone(), e.1.clone()));
                proof {
                    assert(kept.deep_view() =~= spec_remove_entry(
                        self@.subrange(0, i + 1),
                        k@,
                    ));
                }
            }
            i = i + 1;
        }
        proof {
            assert(self@.subrange(0, n as int) =~= self@);
        }
        kept.push((k, v));
        proof {
            assert(kept.deep_view() =~= spec_remove_entry(old(self)@, spec_trim(key@)).push(
                (spec_trim(key@), spec_trim(value@)),
            ));
        }
        self.entries = kept;
    }

    /// Looks a name up, case-insensitively.
    pub fn get(&self, name: &str) -> (r: Option<&String>)
        ensures
            match r {
                Some(v) => spec_lookup(self@, name@) == Some(v@),
                None => spec_lookup(self@, name@) is None,
            },
    {
        let n = self.entries.len();
        proof {
            assert(self@.subrange(0, n as int) =~= self@);
        }
        let mut i: usize = n;
        while i > 0
            invariant
                0 <= i <= n,
                n == self.entries.len(),
                spec_lookup(self@, name@) == spec_lookup(self@.subrange(0, i as int), name@),
            decreases i,
        {
            proof {
                let pre = self@.subrange(0, i as int);
                assert(pre.drop_last() =~= self@.subrange(0, i - 1));
                assert(pre.last() == self@[i - 1]);
            }
            if eq_ignore_case(self.entries[i - 1].0.as_str(), name) {
                return Some(&self.entries[i - 1].1);
            }
            i = i - 1;
        }
        proof {
            assert(self@.subrange(0, 0) =~= Seq::<(Seq<char>, Seq<char>)>::empty());
        }
        None
    }
}

/// Every byte is ASCII.
pub open spec fn spec_all_ascii(v: Seq<u8>) -> bool {
    forall|i: int| 0 <= i < v.len() ==> v[i] < 128
}

/// Bytes seen as characters, byte for byte; faithful only for ASCII data.
pub open spec fn spec_ascii_chars(v: Seq<u8>) -> Seq<char> {
    Seq::new(v.len(), |i: int| v[i] as char)
}

/// Relies on `String::from_utf8_lossy`: bytes that are valid UTF-8 decode to
/// the characters they encode, so ASCII bytes decode byte for byte.
#[verifier::external_body]
pub(crate) fn lossy_string(v: &[u8]) -> (r: String)
    ensures
        spec_all_ascii(v@) ==> r@ == spec_ascii_chars(v@),
{
    String::from_utf8_lossy(v).into_owned()
}

/// The four bytes starting at `i` are `\r\n\r\n`.
pub open spec fn spec_head_end_at(v: Seq<u8>, i: int) -> bool {
    &&& 0 <= i
    &&& i + 4 <= v.len()
    &&& v[i] == 13
    &&& v[i + 1] == 10
    &&& v[i + 2] == 13
    &&& v[i + 3] == 10
}

/// The first position at or after `i` where the head terminator stands.
pub open spec fn spec_head_end_from(v: Seq<u8>, i: int) -> Option<int>
    decreases v.len() - i,
    when 0 <= i
{
    if i + 4 > v.len() {
        None
    } else if spec_head_end_at(v, i) {
        Some(i)
    } else {
        spec_head_end_from(v, i + 1)
    }
}

/// The position of the head terminator `\r\n\r\n`, if it has arrived.
pub open spec fn spec_head_end(v: Seq<u8>) -> Option<int> {
    spec_head_end_from(v, 0)
}

pub proof fn lemma_head_end_from_props(v: Seq<u8>, i: int)
    requires
        0 <= i,
    ensures
        match spec_head_end_from(v, i) {
            Some(j) => i <= j && spec_head_end_at(v, j) && forall|k: int|
                i <= k < j ==> !spec_head_end_at(v, k),
            None => forall|k: int| i <= k ==> !spec_head_end_at(v, k),
        },
    decreases v.len() - i,
{
    if i + 4 > v.len() {
    } else if spec_head_end_at(v, i) {
    } else {
        lemma_head_end_from_props(v, i + 1);
    }
}

proof fn lemma_head_end_from_first(v: Seq<u8>, i: int, j: int)
    requires
        0 <= i <= j,
        spec_head_end_at(v, j),
        forall|k: int| i <= k < j ==> !spec_head_end_at(v, k),
    ensures
        spec_head_end_from(v, i) == Some(j),
    decreases j - i,
{
    if i == j {
    } else {
        lemma_head_end_from_first(v, i + 1, j);
    }
}

/// Growing the stream does not move a head terminator already seen.
pub proof fn lemma_head_end_append(v: Seq<u8>, w: Seq<u8>)
    requires
        spec_head_end(v) is Some,
    ensures
        spec_head_end(v + w) == spec_head_end(v),
{
    let j = spec_head_end(v)->Some_0;
    lemma_head_end_from_props(v, 0);
    let u = v + w;
    assert(spec_head_end_at(u, j));
    assert forall|k: int| 0 <= k < j implies !spec_head_end_at(u, k) by {
        assert(!spec_head_end_at(v, k));
    }
    lemma_head_end_from_first(u, 0, j);
}

/// The first position at or after `i` holding a line feed, or the length.
pub open spec fn spec_line_end_from(v: Seq<u8>, i: int) -> int
    decreases v.len() - i,
    when 0 <= i <= v.len()
{
    if i >= v.len() {
        i
    } else if v[i] == 10 {
        i
    } else {
        spec_line_end_from(v, i + 1)
    }
}

pub proof fn lemma_line_end_props(v: Seq<u8>, i: int)
    requires
        0 <= i <= v.len(),
    ensures
        ({
            let e = spec_line_end_from(v, i);
            &&& i <= e <= v.len()
            &&& (e < v.len() ==> v[e] == 10)
            &&& forall|k: int| i <= k < e ==> v[k] != 10
        }),
    decreases v.len() - i,
{
    if i >= v.len() {
    } else if v[i] == 10 {
    } else {
        lemma_line_end_props(v, i + 1);
    }
}

pub proof fn lemma_line_end_first(v: Seq<u8>, i: int, e: int)
    requires
        0 <= i <= e <= v.len(),
        e == v.len() || v[e] == 10,
        forall|k: int| i <= k < e ==> v[k] != 10,
    ensures
        spec_line_end_from(v, i) == e,
    decreases e - i,
{
    if i == e {
    } else {
        lemma_line_end_first(v, i + 1, e);
    }
}

/// A line feed at or after `i` inside `v` pins the line end against growth.
pub proof fn lemma_line_end_append(v: Seq<u8>, w: Seq<u8>, i: int)
    requires
        0 <= i <= v.len(),
        spec_line_end_from(v, i) < v.len(),
    ensures
        spec_line_end_from(v + w, i) == spec_line_end_from(v, i),
{
    let e = spec_line_end_from(v, i);
    lemma_line_end_props(v, i);
    let u = v + w;
    assert(u[e] == 10);
    assert forall|k: int| i <= k < e implies u[k] != 10 by {
        assert(v[k] != 10);
    }
    lemma_line_end_first(u, i, e);
}

/// Whitespace inside a request line: space, tab, and the carriage return
/// that precedes the terminating line feed.
pub open spec fn spec_ws_byte(b: u8) -> bool {
    b == 32 || b == 9 || b == 13
}

/// The first position at or after `i` holding a non-whitespace byte.
pub open spec fn spec_skip_ws(v: Seq<u8>, i: int) -> int
    decreases v.len() - i,
    when 0 <= i <= v.len()
{
    if i >= v.len() {
        i
    } else if spec_ws_byte(v[i]) {
        spec_skip_ws(v, i + 1)
    } else {
        i
    }
}

/// The end of the token that starts at `i`: the next whitespace position.
pub open spec fn spec_token_end(v: Seq<u8>, i: int) -> int
    decreases v.len() - i,
    when 0 <= i <= v.len()
{
    if i >= v.len() {
        i
    } else if !spec_ws_byte(v[i]) {
        spec_token_end(v, i + 1)
    } else {
        i
    }
}

pub proof fn lemma_skip_ws_props(v: Seq<u8>, i: int)
    requires
        0 <= i <= v.len(),
    ensures
        ({
            let j = spec_skip_ws(v, i);
            &&& i <= j <= v.len()
            &&& (j < v.len() ==> !spec_ws_byte(v[j]))
            &&& forall|k: int| i <= k < j ==> spec_ws_byte(v[k])
        }),
    decreases v.len() - i,
{
    if i >= v.len() {
    } else if spec_ws_byte(v[i]) {
        lemma_skip_ws_props(v, i + 1);
    } else {
    }
}

pub proof fn lemma_token_end_props(v: Seq<u8>, i: int)
    requires
        0 <= i <= v.len(),
    ensures
        ({
            let j = spec_token_end(v, i);
            &&& i <= j <= v.len()
            &&& (j < v.len() ==> spec_ws_byte(v[j]))
            &&& forall|k: int| i <= k < j ==> !spec_ws_byte(v[k])
        }),
    decreases v.len() - i,
{
    if i >= v.len() {
    } else if !spec_ws_byte(v[i]) {
        lemma_token_end_props(v, i + 1);
    } else {
    }
}

proof fn lemma_skip_ws_first(v: Seq<u8>, i: int, j: int)
    requires
        0 <= i <= j <= v.len(),
        forall|k: int| i <= k < j ==> spec_ws_byte(v[k]),
        j == v.len() || !spec_ws_byte(v[j]),
    ensures
        spec_skip_ws(v, i) == j,
    decreases j - i,
{
    if i == j {
    } else {
        lemma_skip_ws_first(v, i + 1, j);
    }
}

proof fn lemma_token_end_first(v: Seq<u8>, i: int, j: int)
    requires
        0 <= i <= j <= v.len(),
        forall|k: int| i <= k < j ==> !spec_ws_byte(v[k]),
        j == v.len() || spec_ws_byte(v[j]),
    ensures
        spec_token_end(v, i) == j,
    decreases j - i,
{
    if i == j {
    } else {
        lemma_token_end_first(v, i + 1, j);
    }
}

/// The whitespace-separated tokens of `v` from position `i` on.
pub open spec fn spec_tokens_from(v: Seq<u8>, i: int) -> Seq<Seq<u8>>
    decreases v.len() - i,
    when 0 <= i <= v.len()
    via spec_tokens_from_decreases
{
    let j = spec_skip_ws(v, i);
    if j >= v.len() {
        Seq::empty()
    } else {
        let k = spec_token_end(v, j);
        seq![v.subrange(j, k)] + spec_tokens_from(v, k)
    }
}

#[via_fn]
proof fn spec_tokens_from_decreases(v: Seq<u8>, i: int) {
    lemma_skip_ws_props(v, i);
    let j = spec_skip_ws(v, i);
    if j < v.len() {
        lemma_token_end_props(v, j);
    }
}

/// The tokens of the whole sequence.
pub open spec fn spec_tokens(v: Seq<u8>) -> Seq<Seq<u8>> {
    spec_tokens_from(v, 0)
}

/// The first occurrence of `c` in `s` at or after `i`.
pub open spec fn spec_find_from(s: Seq<char>, c: char, i: int) -> Option<int>
    decreases s.len() - i,
    when 0 <= i
{
    if i >= s.len() {
        None
    } else if s[i] == c {
        Some(i)
    } else {
        spec_find_from(s, c, i + 1)
    }
}

pub proof fn lemma_find_from_first(s: Seq<char>, c: char, j: int)
    requires
        0 <= j < s.len(),
        s[j] == c,
        forall|k: int| 0 <= k < j ==> s[k] != c,
    ensures
        spec_find_from(s, c, 0) == Some(j),
{
    lemma_find_from_first_rec(s, c, 0, j);
}

/// What a successful or failed search means, position by position.
pub proof fn lemma_find_from_props(s: Seq<char>, c: char, i: int)
    requires
        0 <= i,
    ensures
        match spec_find_from(s, c, i) {
            Some(j) => i <= j < s.len() && s[j] == c && forall|k: int| i <= k < j ==> s[k] != c,
            None => forall|k: int| i <= k < s.len() ==> s[k] != c,
        },
    decreases s.len() - i,
{
    if i >= s.len() {
    } else if s[i] == c {
    } else {
        lemma_find_from_props(s, c, i + 1);
    }
}

proof fn lemma_find_from_first_rec(s: Seq<char>, c: char, i: int, j: int)
    requires
        0 <= i <= j < s.len(),
        s[j] == c,
        forall|k: int| i <= k < j ==> s[k] != c,
    ensures
        spec_find_from(s, c, i) == Some(j),
    decreases j - i,
{
    if i == j {
    } else {
        lemma_find_from_first_rec(s, c, i + 1, j);
    }
}

pub proof fn lemma_find_from_none(s: Seq<char>, c: char, i: int)
    requires
        0 <= i,
        forall|k: int| i <= k < s.len() ==> s[k] != c,
    ensures
        spec_find_from(s, c, i) is None,
    decreases s.len() - i,
{
    if i >= s.len() {
    } else {
        lemma_find_from_none(s, c, i + 1);
    }
}

/// One trimmed, non-empty header line folded into the accumulated entries:
/// split at the first colon and stored; a line without a colon is dropped.
pub open spec fn spec_insert_line(
    acc: Seq<(Seq<char>, Seq<char>)>,
    t: Seq<char>,
) -> Seq<(Seq<char>, Seq<char>)> {
    match spec_find_from(t, ':', 0) {
        Some(c) => {
            let key = spec_trim(t.subrange(0, c));
            let val = spec_trim(t.subrange(c + 1, t.len() as int));
            spec_remove_entry(acc, key).push((key, val))
        },
        None => acc,
    }
}

/// Header lines folded from position `i` until the first line that trims to
/// nothing, each split at its first colon, names replacing earlier ones.
pub open spec fn spec_headers_fold(
    v: Seq<u8>,
    i: int,
    acc: Seq<(Seq<char>, Seq<char>)>,
) -> Seq<(Seq<char>, Seq<char>)>
    decreases v.len() - i,
    when 0 <= i
    via spec_headers_fold_decreases
{
    if i >= v.len() {
        acc
    } else {
        let e = spec_line_end_from(v, i);
        let t = spec_trim(spec_ascii_chars(v.subrange(i, e)));
        if t.len() == 0 {
            acc
        } else if e >= v.len() {
            spec_insert_line(acc, t)
        } else {
            spec_headers_fold(v, e + 1, spec_insert_line(acc, t))
        }
    }
}

#[via_fn]
proof fn spec_headers_fold_decreases(v: Seq<u8>, i: int, acc: Seq<(Seq<char>, Seq<char>)>) {
    if 0 <= i && i < v.len() {
        lemma_line_end_props(v, i);
    }
}

/// The end of the request line: the first line feed, or the whole stream.
pub open spec fn spec_line1(v: Seq<u8>) -> Seq<u8> {
    v.subrange(0, spec_line_end_from(v, 0))
}

/// The whitespace-separated tokens of the request line.
pub open spec fn spec_req_tokens(v: Seq<u8>) -> Seq<Seq<u8>> {
    spec_tokens(spec_line1(v))
}

/// The header entries of the head, as the accumulator ends up.
pub open spec fn spec_head_headers(v: Seq<u8>) -> Seq<(Seq<char>, Seq<char>)> {
    let nl = spec_line_end_from(v, 0);
    if nl < v.len() {
        spec_headers_fold(v, nl + 1, Seq::empty())
    } else {
        Seq::empty()
    }
}

/// The declared `Content-Length` value string, if the header is present.
pub open spec fn spec_cl_value(v: Seq<u8>) -> Option<Seq<char>> {
    spec_lookup(spec_head_headers(v), "content-length"@)
}

/// The declared body length; absent means zero.
pub open spec fn spec_content_len(v: Seq<u8>) -> nat {
    match spec_cl_value(v) {
        Some(s) => spec_uint_val(s),
        None => 0,
    }
}

/// A `Content-Length` that does not parse as a number fitting `usize`.
pub open spec fn spec_bad_cl(v: Seq<u8>) -> bool {
    match spec_cl_value(v) {
        Some(s) => !(spec_parses_as_uint(s) && spec_uint_val(s) <= usize::MAX),
        None => false,
    }
}

/// The request declares a chunked body, which this server refuses.
pub open spec fn spec_te_chunked(v: Seq<u8>) -> bool {
    match spec_lookup(spec_head_headers(v), "transfer-encoding"@) {
        Some(val) => spec_eq_ci(val, "chunked"@),
        None => false,
    }
}

/// The head has arrived but cannot be accepted: a request line without
/// exactly three tokens, a chunked body, or an unusable `Content-Length`.
pub open spec fn spec_parse_error(v: Seq<u8>) -> bool {
    spec_head_end(v) is Some && (spec_req_tokens(v).len() != 3 || spec_te_chunked(v)
        || spec_bad_cl(v))
}

/// Head and declared body have both arrived in full.
pub open spec fn spec_done_bytes(v: Seq<u8>) -> bool {
    match spec_head_end(v) {
        Some(he) => v.len() >= he + 4 + spec_content_len(v),
        None => false,
    }
}

/// The declared body: the bytes that follow the head terminator.
pub open spec fn spec_body_bytes(v: Seq<u8>) -> Seq<u8> {
    let he = spec_head_end(v)->Some_0;
    v.subrange(he + 4, he + 4 + spec_content_len(v))
}

/// Received body bytes so far.
pub open spec fn spec_body_sofar(v: Seq<u8>) -> nat {
    match spec_head_end(v) {
        Some(he) => if v.len() >= he + 4 {
            (v.len() - he - 4) as nat
        } else {
            0
        },
        None => 0,
    }
}

/// The whole head, terminator included, is ASCII.
pub open spec fn spec_head_ascii(v: Seq<u8>) -> bool {
    match spec_head_end(v) {
        Some(he) => spec_all_ascii(v.subrange(0, he + 4)),
        None => false,
    }
}

proof fn lemma_headers_fold_append(
    v: Seq<u8>,
    w: Seq<u8>,
    i: int,
    acc: Seq<(Seq<char>, Seq<char>)>,
    he: int,
)
    requires
        spec_head_end_at(v, he),
        0 <= i <= he + 2,
    ensures
        spec_headers_fold(v + w, i, acc) == spec_headers_fold(v, i, acc),
    decreases he + 2 - i,
{
    let u = v + w;
    assert(i < v.len());
    let e = spec_line_end_from(v, i);
    lemma_fold_step_bounds(v, i, he);
    lemma_line_end_append(v, w, i);
    assert(u.subrange(i, e) =~= v.subrange(i, e));
    let t = spec_trim(spec_ascii_chars(v.subrange(i, e)));
    if t.len() == 0 {
    } else {
        lemma_headers_fold_append(v, w, e + 1, spec_insert_line(acc, t), he);
    }
}

/// Everything the parser reads from the head is pinned once the terminator
/// has arrived: growing the stream changes none of it.
pub proof fn lemma_head_parse_stable(v: Seq<u8>, w: Seq<u8>)
    requires
        spec_head_end(v) is Some,
    ensures
        spec_head_end(v + w) == spec_head_end(v),
        spec_line1(v + w) == spec_line1(v),
        spec_req_tokens(v + w) == spec_req_tokens(v),
        spec_head_headers(v + w) == spec_head_headers(v),
        spec_content_len(v + w) == spec_content_len(v),
        spec_parse_error(v + w) == spec_parse_error(v),
        spec_te_chunked(v + w) == spec_te_chunked(v),
        spec_bad_cl(v + w) == spec_bad_cl(v),
        spec_head_ascii(v + w) == spec_head_ascii(v),
        spec_head_end(v) matches Some(he) && v.len() >= he + 4 + spec_content_len(v)
            ==> spec_body_bytes(v + w) == spec_body_bytes(v),
    decreases 0int,
{
    let he = spec_head_end(v)->Some_0;
    lemma_head_end_from_props(v, 0);
    lemma_head_end_append(v, w);
    let u = v + w;
    let nl = spec_line_end_from(v, 0);
    lemma_line_end_props(v, 0);
    assert(nl < v.len()) by {
        if nl > he + 1 {
            assert(v[he + 1] == 10);
        }
    }
    lemma_line_end_append(v, w, 0);
    assert(spec_line1(u) =~= spec_line1(v));
    assert(nl <= he + 1) by {
        if nl > he + 1 {
            assert(v[he + 1] == 10);
        }
    }
    lemma_headers_fold_append(v, w, nl + 1, Seq::empty(), he);
    assert(spec_head_ascii(u) == spec_head_ascii(v)) by {
        assert(u.subrange(0, he + 4) =~= v.subrange(0, he + 4));
    }
    if v.len() >= he + 4 + spec_content_len(v) {
        assert(spec_body_bytes(u) =~= spec_body_bytes(v));
    }
}

/// Scans for the head terminator.
fn find_head_end(v: &Vec<u8>) -> (r: Option<usize>)
    ensures
        match r {
            Some(j) => spec_head_end(v@) == Some(j as int),
            None => spec_head_end(v@) is None,
        },
{
    let n = v.len();
    if n < 4 {
        proof {
            lemma_head_end_from_props(v@, 0);
            if spec_head_end(v@) is Some {
                assert(spec_head_end_at(v@, spec_head_end(v@)->Some_0));
            }
        }
        return None;
    }
    let mut i: usize = 0;
    while i <= n - 4
        invariant
            0 <= i,
            4 <= n,
            i <= n - 3,
            n == v@.len(),
            forall|k: int| 0 <= k < i ==> !spec_head_end_at(v@, k),
        decreases n - i,
    {
        if v[i] == 13 && v[i + 1] == 10 && v[i + 2] == 13 && v[i + 3] == 10 {
            proof {
                lemma_head_end_from_first(v@, 0, i as int);
            }
            return Some(i);
        }
        proof {
            assert(!spec_head_end_at(v@, i as int));
        }
        i = i + 1;
    }
    proof {
        lemma_head_end_from_props(v@, 0);
        if spec_head_end(v@) is Some {
            let j = spec_head_end(v@)->Some_0;
            assert(spec_head_end_at(v@, j));
            assert(j < i);
        }
    }
    None
}

/// Scans for the end of the line that starts at `from`.
pub(crate) fn find_line_end(v: &Vec<u8>, from: usize) -> (e: usize)
    requires
        from <= v@.len(),
    ensures
        e == spec_line_end_from(v@, from as int),
        from <= e <= v@.len(),
{
    let n = v.len();
    let mut i: usize = from;
    while i < n && v[i] != 10
        invariant
            from <= i <= n,
            n == v@.len(),
            forall|k: int| from <= k < i ==> v@[k] != 10,
        decreases n - i,
    {
        i = i + 1;
    }
    proof {
        lemma_line_end_first(v@, from as int, i as int);
    }
    i
}

/// The byte slices a list of ranges cuts out of `l`.
spec fn spec_ranges_seqs(l: Seq<u8>, rs: Seq<(usize, usize)>) -> Seq<Seq<u8>> {
    Seq::new(rs.len(), |t: int| l.subrange(rs[t].0 as int, rs[t].1 as int))
}

/// Cuts `l` into its whitespace-separated tokens, as start/end positions.
fn scan_tokens(l: &[u8]) -> (toks: Vec<(usize, usize)>)
    ensures
        spec_ranges_seqs(l@, toks@) == spec_tokens(l@),
        forall|t: int| 0 <= t < toks@.len() ==> (#[trigger] toks@[t]).0 <= toks@[t].1 <= l@.len(),
{
    let n = l.len();
    let mut toks: Vec<(usize, usize)> = Vec::new();
    let mut pos: usize = 0;
    let mut stop: bool = false;
    proof {
        assert(spec_ranges_seqs(l@, toks@) =~= Seq::<Seq<u8>>::empty());
    }
    while !stop
        invariant
            pos <= n,
            n == l@.len(),
            forall|t: int| 0 <= t < toks@.len() ==> (#[trigger] toks@[t]).0 <= toks@[t].1 <= l@.len(),
            !stop ==> spec_tokens(l@) == spec_ranges_seqs(l@, toks@) + spec_tokens_from(
                l@,
                pos as int,
            ),
            stop ==> spec_tokens(l@) == spec_ranges_seqs(l@, toks@),
        decreases n - pos + (if stop {
            0int
        } else {
            1int
        }),
    {
        let mut j: usize = pos;
        while j < n && is_ws_byte(*vstd::slice::slice_index_get(l, j))
            invariant
                pos <= j <= n,
                n == l@.len(),
                forall|k: int| pos <= k < j ==> spec_ws_byte(l@[k]),
            decreases n - j,
        {
            j = j + 1;
        }
        proof {
            lemma_skip_ws_first(l@, pos as int, j as int);
        }
        if j >= n {
            stop = true;
            proof {
                assert(spec_tokens_from(l@, pos as int) =~= Seq::<Seq<u8>>::empty());
                assert(spec_tokens(l@) =~= spec_ranges_seqs(l@, toks@));
            }
        } else {
            let mut k: usize = j;
            while k < n && !is_ws_byte(*vstd::slice::slice_index_get(l, k))
                invariant
                    j <= k <= n,
                    n == l@.len(),
                    forall|m: int| j <= m < k ==> !spec_ws_byte(l@[m]),
                decreases n - k,
            {
                k = k + 1;
            }
            proof {
                lemma_token_end_first(l@, j as int, k as int);
                assert(!spec_ws_byte(l@[j as int]));
            }
            let ghost old_toks = toks@;
            toks.push((j, k));
            proof {
                assert(spec_tokens_from(l@, pos as int) == seq![l@.subrange(j as int, k as int)]
                    + spec_tokens_from(l@, k as int));
                assert(spec_ranges_seqs(l@, toks@) =~= spec_ranges_seqs(l@, old_toks) + seq![
                    l@.subrange(j as int, k as int),
                ]);
                assert(spec_tokens(l@) =~= spec_ranges_seqs(l@, toks@) + spec_tokens_from(
                    l@,
                    k as int,
                ));
            }
            pos = k;
        }
    }
    toks
}

/// Executable counterpart of `spec_ws_byte`.
fn is_ws_byte(b: u8) -> (r: bool)
    ensures
        r == spec_ws_byte(b),
{
    b == 32 || b == 9 || b == 13
}

proof fn lemma_fold_step_bounds(v: Seq<u8>, i: int, he: int)
    requires
        spec_head_end_at(v, he),
        0 <= i <= he + 2,
    ensures
        ({
            let e = spec_line_end_from(v, i);
            &&& i <= e <= he + 3
            &&& e < v.len()
            &&& (spec_trim(spec_ascii_chars(v.subrange(i, e))).len() != 0 ==> e <= he + 1)
        }),
{
    let e = spec_line_end_from(v, i);
    lemma_line_end_props(v, i);
    assert(e <= he + 3) by {
        if i <= he + 1 {
            if e > he + 1 {
                assert(v[he + 1] == 10);
            }
        } else {
            if e > he + 3 {
                assert(v[he + 3] == 10);
            }
        }
    }
    let t = spec_trim(spec_ascii_chars(v.subrange(i, e)));
    if t.len() != 0 {
        assert(e <= he + 1) by {
            if i == he + 2 {
                assert(v[he + 2] == 13);
                assert(e == he + 3) by {
                    if e < he + 3 {
                        assert(v[e] == 10);
                    }
                }
                let line = v.subrange(i, e);
                assert(line =~= seq![v[he + 2]]);
                assert(spec_ascii_chars(line) =~= seq!['\r']);
                assert(spec_trim(seq!['\r']) =~= Seq::<char>::empty()) by {
                    assert(spec_is_space('\r'));
                    assert(seq!['\r'].drop_first() =~= Seq::<char>::empty());
                    assert(spec_ltrim(Seq::<char>::empty()) =~= Seq::<char>::empty());
                    assert(spec_ltrim(seq!['\r']) =~= Seq::<char>::empty());
                    assert(spec_rtrim(Seq::<char>::empty()) =~= Seq::<char>::empty());
                }
                assert(false);
            } else {
                if e > he + 1 {
                    assert(v[he + 1] == 10);
                }
            }
        }
    }
}

/// Parses the header block that follows the request line, mirroring
/// `spec_head_headers` when the head is ASCII.
fn parse_head_headers(v: &Vec<u8>, nl1: usize) -> (h: HttpHeaders)
    requires
        spec_head_end(v@) is Some,
        nl1 == spec_line_end_from(v@, 0),
    ensures
        spec_head_ascii(v@) ==> h@ == spec_head_headers(v@),
{
    let ghost he = spec_head_end(v@)->Some_0;
    proof {
        lemma_head_end_from_props(v@, 0);
        lemma_line_end_props(v@, 0);
        assert(nl1 <= he + 1) by {
            if nl1 > he + 1 {
                assert(v@[he + 1] == 10);
            }
        }
    }
    let n = v.len();
    let mut h = HttpHeaders::new();
    let mut pos: usize = nl1 + 1;
    let mut stop: bool = false;
    while !stop
        invariant
            pos <= n,
            n == v@.len(),
            spec_head_end(v@) == Some(he),
            spec_head_end_at(v@, he),
            nl1 == spec_line_end_from(v@, 0),
            nl1 + 1 <= he + 2,
            spec_head_ascii(v@) ==> {
                &&& (!stop ==> pos <= he + 2 && spec_head_headers(v@) == spec_headers_fold(
                    v@,
                    pos as int,
                    h@,
                ))
                &&& (stop ==> spec_head_headers(v@) == h@)
            },
        decreases n - pos + (if stop {
            0int
        } else {
            1int
        }),
    {
        if pos >= n {
            stop = true;
        } else {
            let e = find_line_end(v, pos);
            let line = vstd::slice::slice_subrange(v.as_slice(), pos, e);
            let s = lossy_string(line);
            let t = trim(s.as_str());
            proof {
                if spec_head_ascii(v@) {
                    lemma_fold_step_bounds(v@, pos as int, he);
                    assert(spec_all_ascii(line@)) by {
                        assert forall|k: int| 0 <= k < line@.len() implies line@[k] < 128 by {
                            assert(line@[k] == v@.subrange(0, he + 4)[pos + k]);
                        }
                    }
                    assert(s@ == spec_ascii_chars(v@.subrange(pos as int, e as int)));
                }
            }
            if t.as_str().is_empty() {
                stop = true;
            } else {
                let ghost h_old = h@;
                match split_once_char(t.as_str(), ':') {
                    Some((key, val)) => {
                        proof {
                            if spec_head_ascii(v@) {
                                let ti = choose|ci: int|
                                    0 <= ci < t@.len() && t@[ci] == ':' && (forall|k: int|
                                        0 <= k < ci ==> t@[k] != ':') && key@ == t@.subrange(0, ci)
                                        && val@ == t@.subrange(ci + 1, t@.len() as int);
                                lemma_find_from_first(t@, ':', ti);
                            }
                        }
                        h.insert(key.as_str(), val.as_str());
                        proof {
                            if spec_head_ascii(v@) {
                                assert(h@ == spec_insert_line(h_old, t@));
                            }
                        }
                    },
                    None => {
                        proof {
                            if spec_head_ascii(v@) {
                                lemma_find_from_none(t@, ':', 0);
                                assert(spec_insert_line(h_old, t@) == h_old);
                            }
                        }
                    },
                }
                proof {
                    if spec_head_ascii(v@) {
                        assert(spec_headers_fold(v@, pos as int, h_old) == spec_headers_fold(
                            v@,
                            e + 1,
                            h@,
                        ));
                    }
                }
                if e >= n {
                    stop = true;
                } else {
                    pos = e + 1;
                }
            }
        }
    }
    h
}

/// Where the accumulator stands in the incoming request.
#[derive(Debug, Clone, Copy, PartialEq, Eq, Structural)]
pub enum ParserState {
    Headline,
    Headers,
    Body,
    Complete,
}

/// A parsed request head, and the body once it has arrived in full.
#[derive(Debug)]
pub struct HttpRequest {
    pub method: HttpMethod,
    pub path: String,
    pub version: String,
    pub headers: HttpHeaders,
    pub body: Option<Vec<u8>>,
}

/// The request-line fields and header list of `req` are exactly what the
/// head of the byte stream `v` spells.
pub open spec fn spec_head_fields_ok(req: HttpRequest, v: Seq<u8>) -> bool {
    let toks = spec_req_tokens(v);
    &&& spec_method_matches(req.method, spec_ascii_chars(toks[0]))
    &&& req.path@ == spec_ascii_chars(toks[1])
    &&& req.version@ == spec_ascii_chars(toks[2])
    &&& req.headers@ == spec_head_headers(v)
}

/// Parses the head of `v`, whose terminator stands at `he`.
fn parse_head(v: &Vec<u8>, he: usize) -> (r: Result<(HttpRequest, usize), &'static str>)
    requires
        spec_head_end(v@) == Some(he as int),
    ensures
        match r {
            Ok(parsed) => {
                &&& parsed.0.body is None
                &&& spec_head_ascii(v@) ==> !spec_parse_error(v@) && parsed.1 == spec_content_len(
                    v@,
                ) && spec_head_fields_ok(parsed.0, v@)
            },
            Err(_) => spec_head_ascii(v@) ==> spec_parse_error(v@),
        },
{
    proof {
        lemma_head_end_from_props(v@, 0);
    }
    let nl1 = find_line_end(v, 0);
    let line1 = vstd::slice::slice_subrange(v.as_slice(), 0, nl1);
    let toks = scan_tokens(line1);
    proof {
        assert(line1@ == spec_line1(v@));
        assert(spec_ranges_seqs(line1@, toks@) == spec_req_tokens(v@));
    }
    if toks.len() != 3 {
        assert(spec_req_tokens(v@).len() != 3);
        return Err("Invalid request line");
    }
    proof {
        lemma_line_end_props(v@, 0);
        assert(nl1 <= he + 1) by {
            if nl1 > he + 1 {
                assert(v@[he + 1] == 10);
            }
        }
        if spec_head_ascii(v@) {
            assert forall|k: int| 0 <= k < line1@.len() implies line1@[k] < 128 by {
                assert(line1@[k] == v@.subrange(0, he + 4)[k]);
            }
        }
    }
    let t0 = toks[0];
    let t1 = toks[1];
    let t2 = toks[2];
    let m_str = lossy_string(vstd::slice::slice_subrange(line1, t0.0, t0.1));
    let path = lossy_string(vstd::slice::slice_subrange(line1, t1.0, t1.1));
    let version = lossy_string(vstd::slice::slice_subrange(line1, t2.0, t2.1));
    proof {
        if spec_head_ascii(v@) {
            assert(m_str@ == spec_ascii_chars(spec_req_tokens(v@)[0]));
            assert(path@ == spec_ascii_chars(spec_req_tokens(v@)[1]));
            assert(version@ == spec_ascii_chars(spec_req_tokens(v@)[2]));
        }
    }
    let method = HttpMethod::from_str(m_str.as_str());
    let headers = parse_head_headers(v, nl1);
    match headers.get("transfer-encoding") {
        Some(val) => {
            if eq_ignore_case(val.as_str(), "chunked") {
                return Err("Chunked request bodies are not supported");
            }
        },
        None => {},
    }
    let cl: usize = match headers.get("content-length") {
        Some(s) => {
            let s_owned = s.clone();
            match crate::strutil::parse_usize_str(s_owned.as_str()) {
                Some(n) => n,
                None => {
                    return Err("Invalid Content-Length");
                },
            }
        },
        None => 0,
    };
    let req = HttpRequest { method, path, version, headers, body: None };
    Ok((req, cl))
}

/// Accumulates the raw bytes of one request and parses them incrementally.
#[derive(Debug)]
pub struct HttpRequestBuilder {
    buffer: Vec<u8>,
    request: Option<HttpRequest>,
    state: ParserState,
    head_end: usize,
    content_length: usize,
    body_set: bool,
    failed: bool,
}

impl HttpRequestBuilder {
    /// The bytes absorbed so far.
    pub closed spec fn bytes(self) -> Seq<u8> {
        self.buffer@
    }

    /// The accumulator has given up on a malformed head.
    pub closed spec fn spec_failed(self) -> bool {
        self.failed
    }

    /// The parser's position.
    pub closed spec fn spec_state(self) -> ParserState {
        self.state
    }

    /// The parsed request, if the head has been accepted.
    pub closed spec fn spec_request(self) -> Option<HttpRequest> {
        self.request
    }

    /// The body has been cut out of the stream.
    pub closed spec fn spec_body_set(self) -> bool {
        self.body_set
    }

    /// The declared body length, as parsed from the head.
    pub closed spec fn spec_content_length(self) -> nat {
        self.content_length as nat
    }

    /// The head terminator has been seen: the head was parsed, or it was
    /// seen and rejected.
    pub open spec fn spec_header_done(self) -> bool {
        self.spec_failed() || !(self.spec_state() is Headline)
    }

    spec fn parsed_inv(self) -> bool {
        let v = self.buffer@;
        &&& spec_head_end(v) == Some(self.head_end as int)
        &&& v.len() >= self.head_end + 4
        &&& self.request is Some
        &&& (spec_head_ascii(v) ==> {
            &&& !spec_parse_error(v)
            &&& self.content_length == spec_content_len(v)
            &&& spec_head_fields_ok(self.request->Some_0, v)
        })
        &&& (self.body_set ==> {
            &&& self.state is Complete
            &&& v.len() >= self.head_end + 4 + self.content_length
            &&& (self.content_length > 0 ==> match self.request->Some_0.body {
                Some(b) => b@ == v.subrange(
                    self.head_end + 4,
                    self.head_end + 4 + self.content_length,
                ),
                None => false,
            })
            &&& (self.content_length == 0 ==> self.request->Some_0.body is None)
        })
        &&& (!self.body_set ==> self.request->Some_0.body is None)
    }

    /// The accumulator's internal consistency.
    pub closed spec fn wf(self) -> bool {
        &&& !(self.state is Headers)
        &&& (!self.failed ==> match self.state {
            ParserState::Headline => spec_head_end(self.buffer@) is None && self.request is None
                && !self.body_set,
            ParserState::Headers => false,
            ParserState::Body => self.parsed_inv() && !self.body_set,
            ParserState::Complete => self.parsed_inv(),
        })
    }

    /// A fresh, empty accumulator.
    pub fn new() -> (r: Self)
        ensures
            r.wf(),
            !r.spec_failed(),
            r.bytes() == Seq::<u8>::empty(),
            r.spec_state() is Headline,
            r.spec_request() is None,
    {
        Self {
            buffer: Vec::new(),
            request: None,
            state: ParserState::Headline,
            head_end: 0,
            content_length: 0,
            body_set: false,
            failed: false,
        }
    }

    /// Absorbs one chunk of the stream and advances the parse: the head is
    /// parsed when its terminator arrives, and the request is complete once
    /// the declared body length has been received.
    pub fn append(&mut self, data: Vec<u8>) -> (r: Result<(), &'static str>)
        requires
            old(self).wf(),
            !old(self).spec_failed(),
        ensures
            final(self).bytes() == old(self).bytes() + data@,
            final(self).wf(),
            r is Err <==> final(self).spec_failed(),
            r is Err ==> spec_head_end(final(self).bytes()) is Some && (spec_head_ascii(
                final(self).bytes(),
            ) ==> spec_parse_error(final(self).bytes())),
            r is Err ==> final(self).spec_request() == old(self).spec_request()
                && final(self).spec_state() == old(self).spec_state(),
            old(self).spec_state() is Headline && spec_head_ascii(final(self).bytes())
                && spec_parse_error(final(self).bytes()) ==> r is Err,
            r is Ok ==> (final(self).spec_state() is Complete <==> (old(self).spec_state()
                is Complete || (final(self).spec_header_done() && final(self).bytes().len()
                >= spec_head_end(final(self).bytes())->Some_0 + 4
                + final(self).spec_content_length()))),
            r is Ok ==> (final(self).spec_header_done() <==> spec_head_end(
                final(self).bytes(),
            ) is Some),
            (r is Ok && final(self).spec_state() is Complete && !(old(self).spec_state()
                is Complete)) ==> final(self).spec_body_set(),
            old(self).spec_state() is Complete ==> final(self).spec_state() is Complete
                && final(self).spec_request() == old(self).spec_request(),
    {
        let ghost oldbuf = self.buffer@;
        let ghost dv = data@;
        let mut d = data;
        self.buffer.append(&mut d);
        match self.state {
            ParserState::Headline => {
                match find_head_end(&self.buffer) {
                    None => Ok(()),
                    Some(he) => {
                        match parse_head(&self.buffer, he) {
                            Err(msg) => {
                                self.failed = true;
                                Err(msg)
                            },
                            Ok(parsed) => {
                                let (req, cl) = parsed;
                                self.request = Some(req);
                                self.head_end = he;
                                self.content_length = cl;
                                self.state = ParserState::Body;
                                proof {
                                    lemma_head_end_from_props(self.buffer@, 0);
                                    assert(spec_head_end_at(self.buffer@, he as int));
                                }
                                self.try_complete();
                                Ok(())
                            },
                        }
                    },
                }
            },
            ParserState::Body => {
                proof {
                    lemma_head_parse_stable(oldbuf, dv);
                    assert(self.buffer@.subrange(0, oldbuf.len() as int) =~= oldbuf);
                }
                self.try_complete();
                Ok(())
            },
            ParserState::Complete => {
                proof {
                    lemma_head_parse_stable(oldbuf, dv);
                    if self.body_set && self.content_length > 0 {
                        assert(self.buffer@.subrange(
                            self.head_end + 4,
                            self.head_end + 4 + self.content_length,
                        ) =~= oldbuf.subrange(
                            self.head_end + 4,
                            self.head_end + 4 + self.content_length,
                        ));
                    }
                }
                Ok(())
            },
            ParserState::Headers => {
                proof {
                    assert(false);
                }
                Ok(())
            },
        }
    }

    /// Cuts the body out of the stream once the declared length has arrived.
    fn try_complete(&mut self)
        requires
            old(self).wf(),
            !old(self).spec_failed(),
            old(self).spec_state() is Body || old(self).spec_state() is Complete,
        ensures
            final(self).bytes() == old(self).bytes(),
            final(self).wf(),
            !final(self).spec_failed(),
            final(self).spec_content_length() == old(self).spec_content_length(),
            final(self).spec_header_done(),
            final(self).spec_state() is Complete <==> (old(self).spec_state() is Complete
                || old(self).bytes().len() >= spec_head_end(old(self).bytes())->Some_0 + 4
                + old(self).spec_content_length()),
            (final(self).spec_state() is Complete && !(old(self).spec_state() is Complete))
                ==> final(self).spec_body_set(),
            old(self).spec_state() is Complete ==> final(self).spec_request()
                == old(self).spec_request(),
    {
        match self.state {
            ParserState::Complete => {},
            _ => {
                let have = self.buffer.len() - (self.head_end + 4);
                if have >= self.content_length {
                    let body: Option<Vec<u8>> = if self.content_length > 0 {
                        let start = self.head_end + 4;
                        let end = start + self.content_length;
                        Some(
                            vstd::slice::slice_to_vec(
                                vstd::slice::slice_subrange(self.buffer.as_slice(), start, end),
                            ),
                        )
                    } else {
                        None
                    };
                    match self.request.take() {
                        Some(req) => {
                            let mut req2 = req;
                            req2.body = body;
                            self.request = Some(req2);
                        },
                        None => {
                            proof {
                                assert(false);
                            }
                        },
                    }
                    self.state = ParserState::Complete;
                    self.body_set = true;
                }
            },
        }
    }

    /// The full request, head and declared body, has been received.
    pub fn done(&self) -> (r: bool)
        ensures
            r == (self.spec_state() is Complete),
    {
        match self.state {
            ParserState::Complete => true,
            _ => false,
        }
    }

    /// The head terminator has been seen, whether the head was accepted
    /// or rejected.
    pub fn header_done(&self) -> (r: bool)
        ensures
            r == self.spec_header_done(),
            self.wf() && !self.spec_failed() ==> r == (spec_head_end(self.bytes()) is Some),
    {
        if self.failed {
            true
        } else {
            match self.state {
                ParserState::Headline => false,
                _ => true,
            }
        }
    }

    /// The complete request: `None` until head and declared body have both
    /// arrived, the parsed request after.
    pub fn get(&self) -> (r: Option<&HttpRequest>)
        ensures
            (r is Some) == (self.spec_state() is Complete && self.spec_request() is Some),
            match r {
                Some(req) => self.spec_request() == Some(*req),
                None => true,
            },
    {
        match self.state {
            ParserState::Complete => self.request.as_ref(),
            _ => None,
        }
    }

    /// The parsed head, available as soon as the head is complete, while the
    /// body may still be arriving.
    pub fn get_before_done(&self) -> (r: Option<&HttpRequest>)
        ensures
            match r {
                Some(req) => self.spec_request() == Some(*req),
                None => self.spec_request() is None,
            },
    {
        self.request.as_ref()
    }

    /// How many body bytes have arrived so far.
    pub fn body_len(&self) -> (n: usize)
        requires
            self.wf(),
            !self.spec_failed(),
        ensures
            n == spec_body_sofar(self.bytes()),
    {
        match self.state {
            ParserState::Headline => 0,
            _ => self.buffer.len() - (self.head_end + 4),
        }
    }

    /// Forces the parser to `Complete`: admission control cuts a request
    /// short without waiting for the rest of its body.
    pub fn set_state(&mut self, s: ParserState)
        requires
            old(self).wf(),
            !old(self).spec_failed(),
            s is Complete,
            old(self).spec_header_done(),
        ensures
            final(self).wf(),
            !final(self).spec_failed(),
            final(self).bytes() == old(self).bytes(),
            final(self).spec_state() == s,
            final(self).spec_request() == old(self).spec_request(),
    {
        self.state = s;
    }
}

/// The head terminator is visible exactly when the accumulator says the
/// head is done.
pub proof fn law_header_done_iff(bld: HttpRequestBuilder)
    requires
        bld.wf(),
        !bld.spec_failed(),
    ensures
        bld.spec_header_done() <==> spec_head_end(bld.bytes()) is Some,
{
}

/// Once the absorbed bytes contain `\r\n\r\n`, the head the accumulator
/// exposes reflects the first line: its method, path and version are the
/// three tokens of that line, and its header list is the parsed block.
pub proof fn law_head_after_terminator(bld: HttpRequestBuilder)
    requires
        bld.wf(),
        !bld.spec_failed(),
        bld.spec_header_done(),
        spec_head_ascii(bld.bytes()),
    ensures
        spec_head_end(bld.bytes()) is Some,
        !spec_parse_error(bld.bytes()),
        bld.spec_request() is Some,
        spec_head_fields_ok(bld.spec_request()->Some_0, bld.bytes()),
{
}

/// One read of `c` bytes grows the counted body by at most `c` bytes: the
/// buffered body stays within the admission limit plus one read buffer.
pub proof fn law_body_sofar_growth(b: Seq<u8>, c: Seq<u8>)
    ensures
        spec_body_sofar(b + c) <= spec_body_sofar(b) + c.len(),
{
    let u = b + c;
    match spec_head_end(b) {
        Some(he) => {
            lemma_head_end_from_props(b, 0);
            lemma_head_end_append(b, c);
        },
        None => {
            lemma_head_end_from_props(b, 0);
            match spec_head_end(u) {
                Some(he2) => {
                    lemma_head_end_from_props(u, 0);
                    assert(he2 + 4 > b.len()) by {
                        if he2 + 4 <= b.len() {
                            assert(spec_head_end_at(b, he2)) by {
                                assert(b[he2] == u[he2]);
                                assert(b[he2 + 1] == u[he2 + 1]);
                                assert(b[he2 + 2] == u[he2 + 2]);
                                assert(b[he2 + 3] == u[he2 + 3]);
                            }
                        }
                    }
                },
                None => {},
            }
        },
    }
}

/// A builder that has passed the head keeps the parsed request at hand.
pub proof fn law_complete_has_request(bld: HttpRequestBuilder)
    requires
        bld.wf(),
        !bld.spec_failed(),
        bld.spec_header_done(),
    ensures
        bld.spec_request() is Some,
{
}

/// On an ASCII head, the builder's declared body length is exactly the
/// head's `Content-Length`, so `done()` turns true at the byte-stream
/// threshold the head declares.
pub proof fn law_content_length(bld: HttpRequestBuilder)
    requires
        bld.wf(),
        !bld.spec_failed(),
        bld.spec_header_done(),
        spec_head_ascii(bld.bytes()),
    ensures
        bld.spec_content_length() == spec_content_len(bld.bytes()),
{
}

/// A naturally completed request carries exactly the declared body bytes.
pub proof fn law_body_exact(bld: HttpRequestBuilder)
    requires
        bld.wf(),
        !bld.spec_failed(),
        bld.spec_state() is Complete,
        bld.spec_body_set(),
        spec_head_ascii(bld.bytes()),
    ensures
        bld.spec_request() is Some,
        spec_content_len(bld.bytes()) > 0 ==> {
            &&& bld.spec_request()->Some_0.body is Some
            &&& bld.spec_request()->Some_0.body->Some_0@ == spec_body_bytes(bld.bytes())
        },
        spec_content_len(bld.bytes()) == 0 ==> bld.spec_request()->Some_0.body is None,
{
}

} // verus!
