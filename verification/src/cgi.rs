//! The CGI bridge's pure half: turning a child process outcome and its
//! raw output into HTTP response bytes. The output's own head is searched
//! for a `Status:` header, which becomes the status line; everything else
//! passes through unchanged. Spawning the child is the caller's work.

use vstd::prelude::*;

use crate::request::{
    spec_line_end_from, spec_ws_byte, lemma_line_end_props, lemma_line_end_first, find_line_end,
};
use crate::response::{HttpResponseBuilder, spec_build_bytes};
use crate::strutil::lemma_trim_id;

verus! {

/// What running the CGI child led to: its raw output, or one of the
/// failures the bridge maps to a status.
pub enum CgiOutcome {
    Output(Vec<u8>),
    SpawnFailed,
    Failed,
    TimedOut,
}

/// The lower-case of an ASCII letter byte; other bytes unchanged.
pub open spec fn spec_lower_byte(b: u8) -> u8 {
    if 65 <= b && b <= 90 {
        (b + 32) as u8
    } else {
        b
    }
}

/// The line opens a `Status:` header, letters compared without case.
pub open spec fn spec_is_status_line(line: Seq<u8>) -> bool {
    &&& line.len() >= 7
    &&& spec_lower_byte(line[0]) == 115
    &&& spec_lower_byte(line[1]) == 116
    &&& spec_lower_byte(line[2]) == 97
    &&& spec_lower_byte(line[3]) == 116
    &&& spec_lower_byte(line[4]) == 117
    &&& spec_lower_byte(line[5]) == 115
    &&& line[6] == 58
}

/// Bytes with the line whitespace trimmed from the front.
pub open spec fn spec_ltrim_bytes(v: Seq<u8>) -> Seq<u8>
    decreases v.len(),
{
    if v.len() > 0 && spec_ws_byte(v[0]) {
        spec_ltrim_bytes(v.drop_first())
    } else {
        v
    }
}

/// Bytes with the line whitespace trimmed from the back.
pub open spec fn spec_rtrim_bytes(v: Seq<u8>) -> Seq<u8>
    decreases v.len(),
{
    if v.len() > 0 && spec_ws_byte(v[v.len() - 1]) {
        spec_rtrim_bytes(v.drop_last())
    } else {
        v
    }
}

/// Bytes with the line whitespace trimmed from both ends.
pub open spec fn spec_trim_bytes(v: Seq<u8>) -> Seq<u8> {
    spec_rtrim_bytes(spec_ltrim_bytes(v))
}

/// The start of the blank line that ends the output's head: the first
/// `\r\n\r\n` or `\n\n`, whichever comes first.
pub open spec fn spec_cgi_head_end_from(v: Seq<u8>, i: int) -> Option<int>
    decreases v.len() - i,
    when 0 <= i
{
    if i + 2 > v.len() {
        None
    } else if i + 4 <= v.len() && v[i] == 13 && v[i + 1] == 10 && v[i + 2] == 13 && v[i + 3]
        == 10 {
        Some(i)
    } else if v[i] == 10 && v[i + 1] == 10 {
        Some(i)
    } else {
        spec_cgi_head_end_from(v, i + 1)
    }
}

/// One position holds a head terminator.
pub open spec fn spec_cgi_sep_at(v: Seq<u8>, i: int) -> bool {
    ||| (0 <= i && i + 4 <= v.len() && v[i] == 13 && v[i + 1] == 10 && v[i + 2] == 13 && v[i + 3]
        == 10)
    ||| (0 <= i && i + 2 <= v.len() && v[i] == 10 && v[i + 1] == 10)
}

proof fn lemma_cgi_head_end_props(v: Seq<u8>, i: int)
    requires
        0 <= i,
    ensures
        match spec_cgi_head_end_from(v, i) {
            Some(j) => i <= j && spec_cgi_sep_at(v, j) && forall|k: int|
                i <= k < j ==> !spec_cgi_sep_at(v, k),
            None => forall|k: int| i <= k ==> !spec_cgi_sep_at(v, k),
        },
    decreases v.len() - i,
{
    if i + 2 > v.len() {
    } else if i + 4 <= v.len() && v[i] == 13 && v[i + 1] == 10 && v[i + 2] == 13 && v[i + 3]
        == 10 {
    } else if v[i] == 10 && v[i + 1] == 10 {
    } else {
        lemma_cgi_head_end_props(v, i + 1);
    }
}

proof fn lemma_cgi_head_end_first(v: Seq<u8>, i: int, j: int)
    requires
        0 <= i <= j,
        spec_cgi_sep_at(v, j),
        forall|k: int| i <= k < j ==> !spec_cgi_sep_at(v, k),
    ensures
        spec_cgi_head_end_from(v, i) == Some(j),
    decreases j - i,
{
    if i == j {
        if i + 4 <= v.len() && v[i] == 13 && v[i + 1] == 10 && v[i + 2] == 13 && v[i + 3] == 10 {
            assert(spec_cgi_head_end_from(v, i) == Some(i));
        } else {
            assert(i + 2 <= v.len() && v[i] == 10 && v[i + 1] == 10);
            assert(spec_cgi_head_end_from(v, i) == Some(i));
        }
    } else {
        assert(j + 2 <= v.len());
        assert(!spec_cgi_sep_at(v, i));
        lemma_cgi_head_end_first(v, i + 1, j);
    }
}

/// The span of the first `Status:` line among the head lines from `i` on:
/// its start and the position just past its line feed.
pub open spec fn spec_status_span_from(v: Seq<u8>, i: int, he: int) -> Option<(int, int)>
    decreases v.len() - i,
    when 0 <= i
    via spec_status_span_from_decreases
{
    if i >= he || i >= v.len() {
        None
    } else {
        let e = spec_line_end_from(v, i);
        if spec_is_status_line(v.subrange(i, e)) {
            Some((i, if e + 1 <= v.len() {
                e + 1
            } else {
                v.len() as int
            }))
        } else if e + 1 <= v.len() {
            spec_status_span_from(v, e + 1, he)
        } else {
            None
        }
    }
}

#[via_fn]
proof fn spec_status_span_from_decreases(v: Seq<u8>, i: int, he: int) {
    if 0 <= i && i < he && i < v.len() {
        lemma_line_end_props(v, i);
    }
}

/// The response the output merges to: its `Status:` value becomes the
/// status line and the line itself is dropped; without one the status is
/// `200 OK`; everything else passes through unchanged.
pub open spec fn spec_cgi_output_bytes(v: Seq<u8>) -> Seq<u8> {
    let prefix = "HTTP/1.1 "@.map(|i: int, c: char| c as u8);
    let crlf = seq![13u8, 10u8];
    match spec_cgi_head_end_from(v, 0) {
        Some(he) => match spec_status_span_from(v, 0, he) {
            Some(span) => {
                let line = v.subrange(span.0, spec_line_end_from(v, span.0));
                let value = spec_trim_bytes(line.subrange(7, line.len() as int));
                prefix + value + crlf + v.subrange(0, span.0) + v.subrange(
                    span.1,
                    v.len() as int,
                )
            },
            None => prefix + "200 OK"@.map(|i: int, c: char| c as u8) + crlf + v,
        },
        None => prefix + "200 OK"@.map(|i: int, c: char| c as u8) + crlf + v,
    }
}

fn is_ws_byte(b: u8) -> (r: bool)
    ensures
        r == spec_ws_byte(b),
{
    b == 32 || b == 9 || b == 13
}

fn trim_bytes(v: &Vec<u8>, from: usize, to: usize) -> (r: Vec<u8>)
    requires
        from <= to <= v@.len(),
    ensures
        r@ == spec_trim_bytes(v@.subrange(from as int, to as int)),
{
    let ghost w = v@.subrange(from as int, to as int);
    let mut i: usize = from;
    while i < to && is_ws_byte(v[i])
        invariant
            from <= i <= to,
            to <= v@.len(),
            w == v@.subrange(from as int, to as int),
            forall|k: int| from <= k < i ==> spec_ws_byte(v@[k]),
        decreases to - i,
    {
        i = i + 1;
    }
    proof {
        lemma_ltrim_bytes_at(w, i - from);
    }
    let mut j: usize = to;
    while j > i && is_ws_byte(v[j - 1])
        invariant
            i <= j <= to,
            to <= v@.len(),
            w == v@.subrange(from as int, to as int),
            forall|k: int| j <= k < to ==> spec_ws_byte(v@[k]),
            i == to || !spec_ws_byte(v@[i as int]),
        decreases j,
    {
        j = j - 1;
    }
    proof {
        let lt = spec_ltrim_bytes(w);
        assert(lt =~= w.subrange(i - from, w.len() as int));
        lemma_rtrim_bytes_at(lt, j - i);
        assert(lt.subrange(0, j - i) =~= v@.subrange(i as int, j as int));
    }
    let r = vstd::slice::slice_to_vec(vstd::slice::slice_subrange(v.as_slice(), i, j));
    r
}

proof fn lemma_ltrim_bytes_at(s: Seq<u8>, i: int)
    requires
        0 <= i <= s.len(),
        forall|k: int| 0 <= k < i ==> spec_ws_byte(s[k]),
        i == s.len() || !spec_ws_byte(s[i]),
    ensures
        spec_ltrim_bytes(s) == s.subrange(i, s.len() as int),
    decreases i,
{
    if i == 0 {
        assert(spec_ltrim_bytes(s) =~= s.subrange(0, s.len() as int)) by {
            assert(s =~= s.subrange(0, s.len() as int));
        }
    } else {
        let t = s.drop_first();
        lemma_ltrim_bytes_at(t, i - 1);
        assert(t.subrange(i - 1, t.len() as int) =~= s.subrange(i, s.len() as int));
    }
}

proof fn lemma_rtrim_bytes_at(s: Seq<u8>, j: int)
    requires
        0 <= j <= s.len(),
        forall|k: int| j <= k < s.len() ==> spec_ws_byte(s[k]),
        j == 0 || !spec_ws_byte(s[j - 1]),
    ensures
        spec_rtrim_bytes(s) == s.subrange(0, j),
    decreases s.len() - j,
{
    if j == s.len() {
        assert(spec_rtrim_bytes(s) =~= s.subrange(0, j)) by {
            assert(s =~= s.subrange(0, s.len() as int));
        }
    } else {
        let t = s.drop_last();
        lemma_rtrim_bytes_at(t, j);
        assert(t.subrange(0, j) =~= s.subrange(0, j));
    }
}

fn find_cgi_head_end(v: &Vec<u8>) -> (r: Option<usize>)
    ensures
        match r {
            Some(j) => spec_cgi_head_end_from(v@, 0) == Some(j as int) && j + 2 <= v@.len(),
            None => spec_cgi_head_end_from(v@, 0) is None,
        },
{
    let n = v.len();
    let mut i: usize = 0;
    while n - i >= 2
        invariant
            0 <= i,
            i <= n,
            n == v@.len(),
            forall|k: int| 0 <= k < i ==> !spec_cgi_sep_at(v@, k),
        decreases n - i,
    {
        if n - i >= 4 && v[i] == 13 && v[i + 1] == 10 && v[i + 2] == 13 && v[i + 3] == 10 {
            proof {
                lemma_cgi_head_end_first(v@, 0, i as int);
            }
            return Some(i);
        }
        if v[i] == 10 && v[i + 1] == 10 {
            proof {
                lemma_cgi_head_end_first(v@, 0, i as int);
            }
            return Some(i);
        }
        proof {
            assert(!spec_cgi_sep_at(v@, i as int));
        }
        i = i + 1;
    }
    proof {
        lemma_cgi_head_end_props(v@, 0);
        if spec_cgi_head_end_from(v@, 0) is Some {
            let j = spec_cgi_head_end_from(v@, 0)->Some_0;
            assert(spec_cgi_sep_at(v@, j));
            assert(j < i);
        }
    }
    None
}

fn lower_byte(b: u8) -> (r: u8)
    ensures
        r == spec_lower_byte(b),
{
    if 65 <= b && b <= 90 {
        b + 32
    } else {
        b
    }
}

fn is_status_line(v: &Vec<u8>, from: usize, to: usize) -> (r: bool)
    requires
        from <= to <= v@.len(),
    ensures
        r == spec_is_status_line(v@.subrange(from as int, to as int)),
{
    if to - from < 7 {
        return false;
    }
    lower_byte(v[from]) == 115 && lower_byte(v[from + 1]) == 116 && lower_byte(v[from + 2]) == 97
        && lower_byte(v[from + 3]) == 116 && lower_byte(v[from + 4]) == 117 && lower_byte(
        v[from + 5],
    ) == 115 && v[from + 6] == 58
}

/// Builds the response for one CGI run: the output merged under its own
/// `Status:` (or an implicit `200 OK`); a child that could not be spawned
/// is a 500, one that failed before producing output a 502, one that ran
/// out of time a 504.
pub fn cgi_response(outcome: CgiOutcome) -> (r: Vec<u8>)
    ensures
        match outcome {
            CgiOutcome::Output(v) => r@ == spec_cgi_output_bytes(v@),
            CgiOutcome::SpawnFailed => r@ == spec_build_bytes(
                500,
                "Internal Server Error"@,
                Seq::<(Seq<char>, Seq<char>)>::empty(),
                Seq::<u8>::empty(),
            ),
            CgiOutcome::Failed => r@ == spec_build_bytes(
                502,
                "Bad Gateway"@,
                Seq::<(Seq<char>, Seq<char>)>::empty(),
                Seq::<u8>::empty(),
            ),
            CgiOutcome::TimedOut => r@ == spec_build_bytes(
                504,
                "Gateway Timeout"@,
                Seq::<(Seq<char>, Seq<char>)>::empty(),
                Seq::<u8>::empty(),
            ),
        },
{
    match outcome {
        CgiOutcome::SpawnFailed => HttpResponseBuilder::new(500, "Internal Server Error").build(),
        CgiOutcome::Failed => HttpResponseBuilder::new(502, "Bad Gateway").build(),
        CgiOutcome::TimedOut => HttpResponseBuilder::new(504, "Gateway Timeout").build(),
        CgiOutcome::Output(v) => {
            let mut resp: Vec<u8> = prefix_bytes();
            match find_cgi_head_end(&v) {
                Some(he) => {
                    match find_status_span(&v, he) {
                        Some(span) => {
                            let (ls, le) = span;
                            let line_end = find_line_end(&v, ls);
                            let mut value = trim_bytes(&v, ls + 7, line_end);
                            resp.append(&mut value);
                            resp.push(13);
                            resp.push(10);
                            let mut before = vstd::slice::slice_to_vec(
                                vstd::slice::slice_subrange(v.as_slice(), 0, ls),
                            );
                            resp.append(&mut before);
                            let mut after = vstd::slice::slice_to_vec(
                                vstd::slice::slice_subrange(v.as_slice(), le, v.len()),
                            );
                            resp.append(&mut after);
                            proof {
                                let line = v@.subrange(
                                    ls as int,
                                    spec_line_end_from(v@, ls as int),
                                );
                                assert(v@.subrange(ls + 7, spec_line_end_from(v@, ls as int))
                                    =~= line.subrange(7, line.len() as int));
                                assert(resp@ =~= spec_cgi_output_bytes(v@));
                            }
                            resp
                        },
                        None => {
                            let mut resp2 = implicit_ok();
                            let mut body = v;
                            resp2.append(&mut body);
                            proof {
                                assert(resp2@ =~= spec_cgi_output_bytes(v@));
                            }
                            resp2
                        },
                    }
                },
                None => {
                    let mut resp2 = implicit_ok();
                    let mut body = v;
                    resp2.append(&mut body);
                    proof {
                        assert(resp2@ =~= spec_cgi_output_bytes(v@));
                    }
                    resp2
                },
            }
        },
    }
}

fn prefix_bytes() -> (r: Vec<u8>)
    ensures
        r@ == "HTTP/1.1 "@.map(|i: int, c: char| c as u8),
{
    let mut r: Vec<u8> = Vec::new();
    r.push(72);
    r.push(84);
    r.push(84);
    r.push(80);
    r.push(47);
    r.push(49);
    r.push(46);
    r.push(49);
    r.push(32);
    proof {
        reveal_strlit("HTTP/1.1 ");
        assert(r@ =~= "HTTP/1.1 "@.map(|i: int, c: char| c as u8));
    }
    r
}

fn implicit_ok() -> (r: Vec<u8>)
    ensures
        r@ == "HTTP/1.1 "@.map(|i: int, c: char| c as u8) + "200 OK"@.map(
            |i: int, c: char| c as u8,
        ) + seq![13u8, 10u8],
{
    let mut r = prefix_bytes();
    r.push(50);
    r.push(48);
    r.push(48);
    r.push(32);
    r.push(79);
    r.push(75);
    r.push(13);
    r.push(10);
    proof {
        reveal_strlit("200 OK");
        assert(r@ =~= "HTTP/1.1 "@.map(|i: int, c: char| c as u8) + "200 OK"@.map(
            |i: int, c: char| c as u8,
        ) + seq![13u8, 10u8]);
    }
    r
}

fn find_status_span(v: &Vec<u8>, he: usize) -> (r: Option<(usize, usize)>)
    requires
        he <= v@.len(),
    ensures
        match r {
            Some(span) => spec_status_span_from(v@, 0, he as int) == Some(
                (span.0 as int, span.1 as int),
            ) && span.1 <= v@.len() && span.0 < he && span.0 + 7 <= spec_line_end_from(
                v@,
                span.0 as int,
            ) <= v@.len(),
            None => spec_status_span_from(v@, 0, he as int) is None,
        },
{
    let n = v.len();
    let mut i: usize = 0;
    let mut stop = false;
    let mut found: Option<(usize, usize)> = None;
    while !stop
        invariant
            0 <= i <= n,
            he <= n,
            n == v@.len(),
            found is None,
            !stop ==> spec_status_span_from(v@, 0, he as int) == spec_status_span_from(
                v@,
                i as int,
                he as int,
            ),
            stop ==> spec_status_span_from(v@, 0, he as int) is None,
        decreases n - i + (if stop {
            0int
        } else {
            1int
        }),
    {
        if i >= he || i >= n {
            stop = true;
        } else {
            let e = find_line_end(v, i);
            if is_status_line(v, i, e) {
                let le = if e < n {
                    e + 1
                } else {
                    n
                };
                proof {
                    lemma_line_end_props(v@, i as int);
                    assert(v@.subrange(i as int, e as int).len() >= 7);
                }
                return Some((i, le));
            }
            if e < n {
                proof {
                    lemma_line_end_props(v@, i as int);
                }
                i = e + 1;
            } else {
                stop = true;
            }
        }
    }
    None
}

} // verus!
