//! The per-connection buffered state machine. A connection owns the bytes
//! read from one non-blocking socket and the response bytes waiting to be
//! flushed; the unverified worker loop feeds it what the socket delivered and
//! tells it how much of the response the socket accepted.
use crate::bytes::{contains_pat, find_pattern, push_bytes};
use crate::handler::{handle_request, response_for};
use crate::http::{bad_request, parse_request, terminator_pat, terminator_vec};
use crate::static_files::DocRoot;
use vstd::prelude::*;

verus! {

/// One live connection: the accumulated request bytes, the pending response
/// with its write cursor, whether the single response has been computed, and
/// the configured read-chunk size the caller should read with.
pub struct Conn {
    pub read_buf: Vec<u8>,
    pub write_buf: Vec<u8>,
    pub write_pos: usize,
    pub wrote_response: bool,
    pub read_chunk: usize,
}

impl Conn {
    /// The cursor never passes the pending response, and until the response is
    /// computed there is nothing to write.
    pub open spec fn wf(self) -> bool {
        &&& self.write_pos <= self.write_buf@.len()
        &&& !self.wrote_response ==> self.write_buf@.len() == 0 && self.write_pos == 0
    }

    /// A fresh connection, as made at accept time: empty buffers, no response.
    pub fn new(read_chunk: usize) -> (c: Conn)
        ensures
            c.wf(),
            c.read_buf@ == Seq::<u8>::empty(),
            c.write_buf@ == Seq::<u8>::empty(),
            c.write_pos == 0,
            c.wrote_response == false,
            c.read_chunk == read_chunk,
    {
        Conn {
            read_buf: Vec::new(),
            write_buf: Vec::new(),
            write_pos: 0,
            wrote_response: false,
            read_chunk,
        }
    }

    /// Whether unflushed response bytes remain; this drives the worker's
    /// write-interest decision.
    pub fn has_pending_write(&self) -> (r: bool)
        ensures
            r == (self.write_pos < self.write_buf@.len()),
    {
        self.write_pos < self.write_buf.len()
    }

    /// Consumes one chunk the socket delivered. The bytes join the read
    /// buffer; while no response has been computed and the buffer now holds
    /// the 4-byte header terminator, the buffered bytes are parsed and
    /// answered — a parse failure as a 400 — and the response becomes the
    /// pending write buffer, exactly once per connection. Returns whether the
    /// response was computed by this call.
    pub fn on_read(&mut self, chunk: &[u8], root: &DocRoot) -> (computed: bool)
        requires
            old(self).wf(),
        ensures
            final(self).wf(),
            final(self).read_chunk == old(self).read_chunk,
            final(self).read_buf@ == old(self).read_buf@ + chunk@,
            final(self).wrote_response == (old(self).wrote_response || contains_pat(
                final(self).read_buf@,
                terminator_pat(),
            )),
            old(self).wrote_response ==> final(self).write_buf@ == old(self).write_buf@
                && final(self).write_pos == old(self).write_pos,
            !old(self).wrote_response && !contains_pat(final(self).read_buf@, terminator_pat())
                ==> final(self).write_buf@ == old(self).write_buf@
                && final(self).write_pos == old(self).write_pos,
            !old(self).wrote_response && contains_pat(final(self).read_buf@, terminator_pat())
                ==> final(self).write_buf@ == response_for(final(self).read_buf@, root.entries@)
                && final(self).write_pos == 0,
            computed == (!old(self).wrote_response && contains_pat(
                final(self).read_buf@,
                terminator_pat(),
            )),
    {
        push_bytes(&mut self.read_buf, chunk);
        if !self.wrote_response {
            let term = terminator_vec();
            match find_pattern(self.read_buf.as_slice(), term.as_slice()) {
                Some(_) => {
                    let resp = match parse_request(self.read_buf.as_slice()) {
                        Ok(req) => handle_request(&req, root),
                        Err(e) => bad_request(e.message()),
                    };
                    self.write_buf = resp;
                    self.write_pos = 0;
                    self.wrote_response = true;
                    return true;
                },
                None => {},
            }
        }
        false
    }

    /// While the accumulated bytes hold no header terminator, no response has
    /// been computed — `on_read` leaves `wrote_response` false then — and such
    /// a connection has nothing to send, so it stays open.
    pub proof fn lemma_no_response_before_terminator(self)
        requires
            self.wf(),
            !self.wrote_response,
        ensures
            self.write_buf@.len() == 0,
            !(self.write_pos < self.write_buf@.len()),
    {
    }

    /// Advances the write cursor by what the socket accepted. Returns whether
    /// the connection is finished: the response was computed and is now fully
    /// flushed, so the caller closes it — exactly one response per connection.
    pub fn on_write(&mut self, written: usize) -> (done: bool)
        requires
            old(self).wf(),
            written <= old(self).write_buf@.len() - old(self).write_pos,
        ensures
            final(self).wf(),
            final(self).read_chunk == old(self).read_chunk,
            final(self).read_buf@ == old(self).read_buf@,
            final(self).write_buf@ == old(self).write_buf@,
            final(self).wrote_response == old(self).wrote_response,
            final(self).write_pos == old(self).write_pos + written,
            done == (final(self).wrote_response
                && final(self).write_pos == final(self).write_buf@.len()),
    {
        let total = self.write_buf.len();
        self.write_pos = self.write_pos + written;
        self.wrote_response && self.write_pos == total
    }
}

} // verus!
