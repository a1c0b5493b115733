//! Response producers: a uniform streaming contract over an in-memory
//! response and a file response whose body is fed in bounded chunks.

use vstd::prelude::*;

use vstd::string::{StrSliceExecFns, StringExecFns, StringSliceAdditionalSpecFns};
use vstd::utf8::encode_utf8;

use crate::response::{detect_content_type, spec_detect_content_type};
use crate::session::{Cookie, spec_cookie_header_value};
use crate::strutil::{decimal_string, spec_decimal};

verus! {

/// The streaming-source contract every response producer meets: `ready`
/// is the contiguous slice available now, a prefix of the buffered
/// `pending` bytes; `done` is everything already handed out, in order.
pub trait HttpResponseCommon {
    /// The producer's internal consistency.
    spec fn inv(&self) -> bool;

    /// The contiguous bytes available without further filling.
    spec fn ready(&self) -> Seq<u8>;

    /// All buffered bytes not yet handed out, in send order.
    spec fn pending(&self) -> Seq<u8>;

    /// No more bytes will ever be buffered.
    spec fn eof(&self) -> bool;

    /// The bytes handed out so far, in order.
    spec fn done(&self) -> Seq<u8>;

    /// The slice to send next.
    fn peek(&self) -> (r: &[u8])
        requires
            self.inv(),
        ensures
            r@ == self.ready(),
            r@ == self.pending().subrange(0, r@.len() as int),
    ;

    /// Commits `n` bytes of the ready slice as sent.
    fn next(&mut self, n: usize)
        requires
            old(self).inv(),
            n <= old(self).ready().len(),
        ensures
            final(self).inv(),
            final(self).pending() == old(self).pending().skip(n as int),
            final(self).done() == old(self).done() + old(self).ready().subrange(0, n as int),
            final(self).eof() == old(self).eof(),
    ;

    /// Nothing is left to send and nothing more will come.
    fn is_finished(&self) -> (r: bool)
        requires
            self.inv(),
        ensures
            r == (self.eof() && self.pending().len() == 0),
    ;
}

/// An in-memory response: its bytes are fixed up front.
pub struct SimpleResponse {
    data: Vec<u8>,
    index: usize,
}

impl SimpleResponse {
    /// Wraps fixed response bytes.
    pub fn new(data: Vec<u8>) -> (r: SimpleResponse)
        ensures
            r.inv(),
            r.pending() == data@,
            r.ready() == data@,
            r.done() == Seq::<u8>::empty(),
            r.eof(),
    {
        let r = SimpleResponse { data, index: 0 };
        proof {
            assert(r.pending() =~= r.data@);
            assert(r.done() =~= Seq::<u8>::empty());
        }
        r
    }
}

impl HttpResponseCommon for SimpleResponse {
    closed spec fn inv(&self) -> bool {
        self.index <= self.data@.len()
    }

    closed spec fn ready(&self) -> Seq<u8> {
        self.data@.skip(self.index as int)
    }

    closed spec fn pending(&self) -> Seq<u8> {
        self.data@.skip(self.index as int)
    }

    closed spec fn eof(&self) -> bool {
        true
    }

    closed spec fn done(&self) -> Seq<u8> {
        self.data@.take(self.index as int)
    }

    fn peek(&self) -> (r: &[u8]) {
        let r = vstd::slice::slice_subrange(self.data.as_slice(), self.index, self.data.len());
        proof {
            assert(r@ =~= self.pending().subrange(0, r@.len() as int));
        }
        r
    }

    fn next(&mut self, n: usize) {
        let len = self.data.len();
        proof {
            assert(self.ready().len() == len - self.index);
        }
        let ghost pre = *self;
        self.index = self.index + n;
        proof {
            assert(self.pending() =~= pre.pending().skip(n as int));
            assert(self.done() =~= pre.done() + pre.ready().subrange(0, n as int));
        }
    }

    fn is_finished(&self) -> (r: bool) {
        self.index >= self.data.len()
    }
}

/// The head of a streamed file response, exactly as it goes on the wire.
pub open spec fn spec_file_head(file_len: u64, path: Seq<char>, c: Cookie) -> Seq<char> {
    "HTTP/1.1 200 OK\r\nServer: localserver\r\nContent-Length: "@ + spec_decimal(
        file_len as nat,
    ) + "\r\nContent-Type: "@ + spec_detect_content_type(path) + "\r\nSet-Cookie: "@
        + spec_cookie_header_value(c.name@, c.value@) + "\r\n\r\n"@
}

/// A streamed file response: the head first, then the file's bytes, fed
/// by the caller in bounded chunks as it reads the file.
pub struct FileResponse {
    headers: Vec<u8>,
    headers_index: usize,
    headers_sent: bool,
    buffer: Vec<u8>,
    buf_index: usize,
    at_eof: bool,
    gh_head: Ghost<Seq<u8>>,
    gh_fed: Ghost<Seq<u8>>,
    gh_done: Ghost<Seq<u8>>,
}

impl FileResponse {
    /// The head bytes the response was built with.
    pub closed spec fn head_bytes(&self) -> Seq<u8> {
        self.gh_head@
    }

    /// Every body chunk fed so far, concatenated.
    pub closed spec fn fed(&self) -> Seq<u8> {
        self.gh_fed@
    }

    /// Builds the response head for a file of `file_len` bytes; the body
    /// is fed afterwards, chunk by chunk.
    pub fn new(file_path: &str, cookie: &Cookie, file_len: u64) -> (r: FileResponse)
        ensures
            r.inv(),
            r.head_bytes() == encode_utf8(spec_file_head(file_len, file_path@, *cookie)),
            r.pending() == r.head_bytes(),
            r.done() == Seq::<u8>::empty(),
            r.fed() == Seq::<u8>::empty(),
            !r.eof(),
    {
        let mut head: String = "HTTP/1.1 200 OK\r\nServer: localserver\r\nContent-Length: ".to_owned();
        head.append(decimal_string(file_len).as_str());
        head.append("\r\nContent-Type: ");
        head.append(detect_content_type(file_path));
        head.append("\r\nSet-Cookie: ");
        head.append(cookie.to_header_value().as_str());
        head.append("\r\n\r\n");
        proof {
            assert(head@ =~= spec_file_head(file_len, file_path@, *cookie));
        }
        let headers = head.as_str().as_bytes_vec();
        let ghost hb = headers@;
        let r = FileResponse {
            headers,
            headers_index: 0,
            headers_sent: false,
            buffer: Vec::new(),
            buf_index: 0,
            at_eof: false,
            gh_head: Ghost(hb),
            gh_fed: Ghost(Seq::empty()),
            gh_done: Ghost(Seq::empty()),
        };
        proof {
            reveal_strlit("HTTP/1.1 200 OK\r\nServer: localserver\r\nContent-Length: ");
            assert(head@.len() > 0);
            lemma_encode_nonempty(head@);
            assert(r.pending() =~= hb);
        }
        r
    }

    /// The caller must read another chunk of the file and feed it.
    pub fn needs_fill(&self) -> (r: bool)
        requires
            self.inv(),
        ensures
            r == (self.ready().len() == 0 && !self.eof() && self.pending().len() == 0
                && self.head_done()),
    {
        self.headers_sent && self.buf_index >= self.buffer.len() && !self.at_eof
    }

    /// The head has been handed out in full.
    pub closed spec fn head_done(&self) -> bool {
        self.headers_sent
    }

    /// Feeds the next chunk read from the file; an empty chunk marks the
    /// end of the file.
    pub fn fill(&mut self, chunk: Vec<u8>)
        requires
            old(self).inv(),
            old(self).ready().len() == 0,
            !old(self).eof(),
            old(self).pending().len() == 0,
            old(self).head_done(),
        ensures
            final(self).inv(),
            final(self).done() == old(self).done(),
            final(self).head_bytes() == old(self).head_bytes(),
            chunk@.len() > 0 ==> final(self).pending() == chunk@ && final(self).fed() == old(
                self,
            ).fed() + chunk@ && !final(self).eof(),
            chunk@.len() == 0 ==> final(self).pending() == Seq::<u8>::empty() && final(self).fed()
                == old(self).fed() && final(self).eof(),
    {
        let ghost pre = *self;
        proof {
            assert(pre.headers@.skip(pre.headers_index as int) =~= Seq::<u8>::empty());
            assert(pre.buffer@.skip(pre.buf_index as int) =~= Seq::<u8>::empty());
        }
        if chunk.len() == 0 {
            self.at_eof = true;
            proof {
                assert(self.pending() =~= Seq::<u8>::empty());
                assert(self.gh_done@ + self.pending() =~= self.gh_head@ + self.gh_fed@);
            }
        } else {
            let ghost cv = chunk@;
            self.buffer = chunk;
            self.buf_index = 0;
            self.gh_fed = Ghost(self.gh_fed@ + cv);
            proof {
                assert(self.pending() =~= cv);
                assert(self.gh_done@ + self.pending() =~= self.gh_head@ + self.gh_fed@);
            }
        }
    }
}

impl HttpResponseCommon for FileResponse {
    closed spec fn inv(&self) -> bool {
        &&& self.headers_index <= self.headers@.len()
        &&& (self.headers_sent <==> self.headers_index == self.headers@.len())
        &&& self.buf_index <= self.buffer@.len()
        &&& (!self.headers_sent ==> self.buffer@.len() == 0)
        &&& self.gh_done@ + self.pending() == self.gh_head@ + self.gh_fed@
        &&& self.headers@.len() > 0
    }

    closed spec fn ready(&self) -> Seq<u8> {
        if !self.headers_sent {
            self.headers@.skip(self.headers_index as int)
        } else {
            self.buffer@.skip(self.buf_index as int)
        }
    }

    closed spec fn pending(&self) -> Seq<u8> {
        self.headers@.skip(self.headers_index as int) + self.buffer@.skip(self.buf_index as int)
    }

    closed spec fn eof(&self) -> bool {
        self.at_eof
    }

    closed spec fn done(&self) -> Seq<u8> {
        self.gh_done@
    }

    fn peek(&self) -> (r: &[u8]) {
        let r = if !self.headers_sent {
            vstd::slice::slice_subrange(
                self.headers.as_slice(),
                self.headers_index,
                self.headers.len(),
            )
        } else {
            vstd::slice::slice_subrange(self.buffer.as_slice(), self.buf_index, self.buffer.len())
        };
        proof {
            assert(r@ =~= self.ready());
            assert(r@ =~= self.pending().subrange(0, r@.len() as int));
        }
        r
    }

    fn next(&mut self, n: usize) {
        let hl = self.headers.len();
        let bl = self.buffer.len();
        proof {
            if !self.headers_sent {
                assert(self.ready().len() == hl - self.headers_index);
            } else {
                assert(self.ready().len() == bl - self.buf_index);
                assert(self.headers@.skip(self.headers_index as int) =~= Seq::<u8>::empty());
            }
        }
        let ghost pre = *self;
        if !self.headers_sent {
            self.gh_done = Ghost(
                self.gh_done@ + self.headers@.subrange(
                    self.headers_index as int,
                    self.headers_index + n,
                ),
            );
            self.headers_index = self.headers_index + n;
            if self.headers_index >= self.headers.len() {
                self.headers_sent = true;
            }
            proof {
                assert(self.pending() =~= pre.pending().skip(n as int));
                assert(pre.ready().subrange(0, n as int) =~= pre.headers@.subrange(
                    pre.headers_index as int,
                    pre.headers_index + n,
                ));
                assert(self.gh_done@ + self.pending() =~= self.gh_head@ + self.gh_fed@);
            }
        } else {
            self.gh_done = Ghost(
                self.gh_done@ + self.buffer@.subrange(self.buf_index as int, self.buf_index + n),
            );
            self.buf_index = self.buf_index + n;
            proof {
                assert(self.pending() =~= pre.pending().skip(n as int));
                assert(pre.ready().subrange(0, n as int) =~= pre.buffer@.subrange(
                    pre.buf_index as int,
                    pre.buf_index + n,
                ));
                assert(self.gh_done@ + self.pending() =~= self.gh_head@ + self.gh_fed@);
            }
        }
    }

    fn is_finished(&self) -> (r: bool) {
        let r = self.headers_sent && self.at_eof && self.buf_index >= self.buffer.len();
        proof {
            if self.at_eof {
                if self.headers_sent && self.buf_index >= self.buffer@.len() {
                    assert(self.pending() =~= Seq::<u8>::empty());
                } else {
                    assert(self.pending().len() > 0);
                }
            }
        }
        r
    }
}

proof fn lemma_encode_nonempty(chars: Seq<char>)
    requires
        chars.len() > 0,
    ensures
        encode_utf8(chars).len() > 0,
{
    assert(encode_utf8(chars) == vstd::utf8::encode_scalar(chars[0] as u32) + encode_utf8(
        chars.drop_first(),
    ));
}

/// A producer that has finished handed out exactly its head followed by
/// the fed file bytes: nothing lost, nothing reordered.
pub proof fn law_file_stream_exact(f: FileResponse)
    requires
        f.inv(),
        f.pending().len() == 0,
    ensures
        f.done() == f.head_bytes() + f.fed(),
{
    assert(f.done() =~= f.head_bytes() + f.fed());
}

/// The response a connection is sending: one of the two producers, behind
/// one streaming contract.
pub enum ResponseProducer {
    Simple(SimpleResponse),
    File(FileResponse),
}

impl ResponseProducer {
    /// The producer's internal consistency.
    pub open spec fn inv(&self) -> bool {
        match self {
            ResponseProducer::Simple(s) => s.inv(),
            ResponseProducer::File(f) => f.inv(),
        }
    }

    /// The contiguous bytes available without further filling.
    pub open spec fn ready(&self) -> Seq<u8> {
        match self {
            ResponseProducer::Simple(s) => s.ready(),
            ResponseProducer::File(f) => f.ready(),
        }
    }

    /// All buffered bytes not yet handed out.
    pub open spec fn pending(&self) -> Seq<u8> {
        match self {
            ResponseProducer::Simple(s) => s.pending(),
            ResponseProducer::File(f) => f.pending(),
        }
    }

    /// No more bytes will ever be buffered.
    pub open spec fn eof(&self) -> bool {
        match self {
            ResponseProducer::Simple(s) => s.eof(),
            ResponseProducer::File(f) => f.eof(),
        }
    }

    /// The bytes handed out so far, in order.
    pub open spec fn done(&self) -> Seq<u8> {
        match self {
            ResponseProducer::Simple(s) => s.done(),
            ResponseProducer::File(f) => f.done(),
        }
    }

    /// The slice to send next.
    pub fn peek(&self) -> (r: &[u8])
        requires
            self.inv(),
        ensures
            r@ == self.ready(),
            r@ == self.pending().subrange(0, r@.len() as int),
    {
        match self {
            ResponseProducer::Simple(s) => s.peek(),
            ResponseProducer::File(f) => f.peek(),
        }
    }

    /// Commits `n` bytes of the ready slice as sent.
    pub fn next(&mut self, n: usize)
        requires
            old(self).inv(),
            n <= old(self).ready().len(),
        ensures
            final(self).inv(),
            final(self).pending() == old(self).pending().skip(n as int),
            final(self).done() == old(self).done() + old(self).ready().subrange(0, n as int),
            final(self).eof() == old(self).eof(),
    {
        match self {
            ResponseProducer::Simple(s) => s.next(n),
            ResponseProducer::File(f) => f.next(n),
        }
    }

    /// Nothing is left to send and nothing more will come.
    pub fn is_finished(&self) -> (r: bool)
        requires
            self.inv(),
        ensures
            r == (self.eof() && self.pending().len() == 0),
    {
        match self {
            ResponseProducer::Simple(s) => s.is_finished(),
            ResponseProducer::File(f) => f.is_finished(),
        }
    }

    /// The file producer wants another chunk; an in-memory response never
    /// does.
    pub fn needs_fill(&self) -> (r: bool)
        requires
            self.inv(),
        ensures
            r ==> (self matches ResponseProducer::File(f) && f.ready().len() == 0 && !f.eof()
                && f.pending().len() == 0 && f.head_done()),
    {
        match self {
            ResponseProducer::Simple(_) => false,
            ResponseProducer::File(f) => f.needs_fill(),
        }
    }
}

} // verus!
