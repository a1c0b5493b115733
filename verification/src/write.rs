//! The write side of a connection: pumping the response producer, and the
//! keep-alive decision once a response has been sent in full.

use vstd::prelude::*;

use crate::models::{HttpResponseCommon, ResponseProducer};
use crate::request::{HttpRequest, HttpRequestBuilder, spec_lookup, spec_eq_ci};
use crate::server::{SocketStatus, Status};

verus! {

/// The request asked to keep the connection open: its `Connection` header
/// says `keep-alive`, letters compared without case.
pub open spec fn spec_keep_alive(h: Seq<(Seq<char>, Seq<char>)>) -> bool {
    match spec_lookup(h, "connection"@) {
        Some(v) => spec_eq_ci(v, "keep-alive"@),
        None => false,
    }
}

/// Whether the request asks for the connection to stay open.
pub fn should_keep_alive(request: &HttpRequest) -> (r: bool)
    ensures
        r == spec_keep_alive(request.headers@),
{
    match request.headers.get("connection") {
        Some(v) => crate::request::eq_ignore_case(v.as_str(), "keep-alive"),
        None => false,
    }
}

/// The slice of response bytes ready to be written to the socket.
pub fn response_ready<'a>(s: &'a SocketStatus) -> (r: &'a [u8])
    requires
        s.wf(),
        s.response is Some,
    ensures
        r@ == s.response->Some_0.ready(),
        r@ == s.response->Some_0.pending().subrange(0, r@.len() as int),
{
    s.response.as_ref().unwrap().peek()
}

/// Commits `n` response bytes as written and refreshes the activity time.
pub fn advance_response(s: &mut SocketStatus, n: usize, now: u64)
    requires
        old(s).wf(),
        old(s).response is Some,
        n <= old(s).response->Some_0.ready().len(),
    ensures
        final(s).wf(),
        final(s).response is Some,
        final(s).response->Some_0.pending() == old(s).response->Some_0.pending().skip(n as int),
        final(s).response->Some_0.done() == old(s).response->Some_0.done() + old(
            s,
        ).response->Some_0.ready().subrange(0, n as int),
        final(s).status == old(s).status,
        final(s).request == old(s).request,
        final(s).ttl == (if n > 0 {
            now
        } else {
            old(s).ttl
        }),
{
    s.response.as_mut().unwrap().next(n);
    if n > 0 {
        s.ttl = now;
    }
}

/// The response needs another chunk of its file.
pub fn response_needs_fill(s: &SocketStatus) -> (r: bool)
    requires
        s.wf(),
    ensures
        r ==> (s.response matches Some(p) && p matches ResponseProducer::File(f)
            && f.ready().len() == 0 && !f.eof() && f.pending().len() == 0 && f.head_done()),
{
    match &s.response {
        Some(p) => p.needs_fill(),
        None => false,
    }
}

/// Feeds the next chunk of the file into the response; an empty chunk
/// marks the end of the file.
pub fn fill_response(s: &mut SocketStatus, chunk: Vec<u8>)
    requires
        old(s).wf(),
        old(s).response matches Some(p) && p matches ResponseProducer::File(f)
            && f.ready().len() == 0 && !f.eof() && f.pending().len() == 0 && f.head_done(),
    ensures
        final(s).wf(),
        final(s).status == old(s).status,
        final(s).request == old(s).request,
        final(s).response is Some,
        ({
            let f0 = old(s).response->Some_0->File_0;
            match final(s).response->Some_0 {
                ResponseProducer::File(f) => {
                    &&& f.done() == f0.done()
                    &&& f.head_bytes() == f0.head_bytes()
                    &&& (chunk@.len() > 0 ==> f.pending() == chunk@ && f.fed() == f0.fed()
                        + chunk@ && !f.eof())
                    &&& (chunk@.len() == 0 ==> f.pending() == Seq::<u8>::empty() && f.fed()
                        == f0.fed() && f.eof())
                },
                ResponseProducer::Simple(_) => false,
            }
        }),
{
    match s.response.as_mut().unwrap() {
        ResponseProducer::File(f) => {
            f.fill(chunk);
        },
        ResponseProducer::Simple(_) => {
            proof {
                assert(false);
            }
        },
    }
}

/// The response has been sent in full.
pub fn response_finished(s: &SocketStatus) -> (r: bool)
    requires
        s.wf(),
    ensures
        r == (s.response matches Some(p) && p.eof() && p.pending().len() == 0),
{
    match &s.response {
        Some(p) => p.is_finished(),
        None => false,
    }
}

/// Settles a connection whose response has been sent in full. A request
/// that asked for keep-alive leaves the connection in the read phase with
/// an empty request accumulator and no response; any other request sends
/// the connection to the finish phase, to be shut down and dropped.
pub fn finish_response(s: &mut SocketStatus) -> (keep: bool)
    requires
        old(s).wf(),
    ensures
        final(s).wf(),
        keep == (old(s).request.spec_state() is Complete && (match old(
            s,
        ).request.spec_request() {
            Some(req) => spec_keep_alive(req.headers@),
            None => false,
        })),
        keep ==> final(s).status is Read && final(s).response is None
            && final(s).request.bytes() == Seq::<u8>::empty()
            && final(s).request.spec_state() is Headline && !final(s).request.spec_failed()
            && !final(s).server_selected && !final(s).body_too_large,
        !keep ==> final(s).status is Finish,
        final(s).ttl == old(s).ttl,
{
    let keep = match s.request.get() {
        Some(req) => should_keep_alive(req),
        None => false,
    };
    if keep {
        s.status = Status::Read;
        s.request = HttpRequestBuilder::new();
        s.response = None;
        s.server_selected = false;
        s.body_too_large = false;
        s.max_body_size = None;
        true
    } else {
        s.status = Status::Finish;
        false
    }
}

} // verus!
