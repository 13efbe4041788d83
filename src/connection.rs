//! The decisions of a connection worker. The worker reads bytes from its
//! socket, asks `next_action` what to do with them, answers each request and
//! ends the connection when the peer is done, when a request asks for it, or
//! when a request cannot be parsed. The reading and writing are the caller's.

use vstd::prelude::*;
use vstd::slice::{slice_subrange, slice_to_vec};
use crate::message::{HttpRequest, RequestView};
use crate::parser::{ParseError, ParseOutcome, ParsedView, parse_request, parse_spec};
use crate::text::{lower_of, lowercase, same_text};

verus! {

/// What the worker does next.
#[derive(Debug)]
pub enum ConnAction {
    /// Read more bytes from the peer.
    Read,
    /// Answer this request, then go on unless `closes_connection` says otherwise.
    Serve(HttpRequest),
    /// The peer is done: end the connection.
    Finish,
    /// The bytes are no request: drop the connection, writing nothing.
    Fail(ParseError),
}

/// A connection as the contracts see it: the bytes received and not yet
/// used, and whether the peer has closed its side.
pub struct ConnectionView {
    pub pending: Seq<u8>,
    pub peer_closed: bool,
}

/// The state of one connection: the bytes received that no request has used
/// yet. Requests on a connection are taken one at a time, in order.
#[derive(Debug)]
pub struct Connection {
    pending: Vec<u8>,
    peer_closed: bool,
}

impl View for Connection {
    type V = ConnectionView;

    closed spec fn view(&self) -> ConnectionView {
        ConnectionView { pending: self.pending@, peer_closed: self.peer_closed }
    }
}

/// Whether a request asks to close the connection after its answer: its
/// `Connection` header is `close` in any case.
pub open spec fn asks_to_close(req: RequestView) -> bool {
    let k = lower_of("Connection"@);
    req.headers.contains_key(k) && lower_of(req.headers[k]) == lower_of("close"@)
}

/// Whether the connection ends once `request` has been answered.
pub fn closes_connection(request: &HttpRequest) -> (r: bool)
    ensures
        r == asks_to_close(request@),
{
    match request.headers.get("Connection") {
        Some(value) => {
            let v = lowercase(value);
            let c = lowercase("close");
            same_text(v.as_str(), c.as_str())
        },
        None => false,
    }
}

impl Connection {
    /// A connection on which nothing has arrived yet.
    pub fn new() -> (c: Connection)
        ensures
            c@.pending == Seq::<u8>::empty(),
            !c@.peer_closed,
    {
        Connection { pending: Vec::new(), peer_closed: false }
    }

    /// Takes bytes read from the peer.
    pub fn received(&mut self, data: &[u8])
        ensures
            final(self)@.pending == old(self)@.pending + data@,
            final(self)@.peer_closed == old(self)@.peer_closed,
    {
        let mut i: usize = 0;
        while i < data.len()
            invariant
                i <= data@.len(),
                self.pending@ == old(self).pending@ + data@.subrange(0, i as int),
                self.peer_closed == old(self).peer_closed,
            decreases data@.len() - i,
        {
            self.pending.push(data[i]);
            assert(data@.subrange(0, i + 1) =~= data@.subrange(0, i as int).push(data@[i as int]));
            i = i + 1;
        }
        assert(data@.subrange(0, data@.len() as int) =~= data@);
    }

    /// Notes that the peer has closed its side: no more bytes will come.
    pub fn peer_closed(&mut self)
        ensures
            final(self)@.pending == old(self)@.pending,
            final(self)@.peer_closed,
    {
        self.peer_closed = true;
    }

    /// Decides what to do with the bytes received: serve the next request
    /// (and keep the bytes after it), read more, or end the connection.
    pub fn next_action(&mut self) -> (r: ConnAction)
        ensures
            final(self)@.peer_closed == old(self)@.peer_closed,
            match parse_spec(old(self)@.pending, old(self)@.peer_closed) {
                ParsedView::Request(req, n) => r matches ConnAction::Serve(q) && q@ == req
                    && final(self)@.pending == old(self)@.pending.skip(n),
                ParsedView::Pending => r is Read && final(self)@.pending == old(self)@.pending,
                ParsedView::EndOfStream => r is Finish && final(self)@.pending == old(self)@.pending,
                ParsedView::Failed(e) => r == ConnAction::Fail(e) && final(self)@.pending == old(self)@.pending,
            },
    {
        match parse_request(self.pending.as_slice(), self.peer_closed) {
            ParseOutcome::Complete(request, n) => {
                let rest = slice_to_vec(slice_subrange(self.pending.as_slice(), n, self.pending.len()));
                assert(rest@ =~= self.pending@.skip(n as int));
                self.pending = rest;
                ConnAction::Serve(request)
            },
            ParseOutcome::Incomplete => ConnAction::Read,
            ParseOutcome::EndOfStream => ConnAction::Finish,
            ParseOutcome::Failed(e) => ConnAction::Fail(e),
        }
    }
}

/// What a non-blocking accept gave.
#[derive(Debug, Clone, Copy, PartialEq, Eq, Structural)]
pub enum AcceptEvent {
    /// A new connection.
    Accepted,
    /// No connection is waiting.
    WouldBlock,
    /// Any other error.
    Failed,
}

/// What the accept loop does next.
#[derive(Debug, Clone, Copy, PartialEq, Eq, Structural)]
pub enum AcceptStep {
    /// Hand the new connection to a worker of its own, and accept again.
    Serve,
    /// Sleep for the poll interval, and accept again.
    Wait,
    /// Leave the loop.
    Stop,
}

/// The accept loop's rule: a shutdown request ends it before anything else;
/// then a connection is served, an empty queue waited on, and any other
/// error ends the loop.
pub fn accept_step(shutdown_requested: bool, event: AcceptEvent) -> (r: AcceptStep)
    ensures
        shutdown_requested ==> r == AcceptStep::Stop,
        !shutdown_requested ==> r == match event {
            AcceptEvent::Accepted => AcceptStep::Serve,
            AcceptEvent::WouldBlock => AcceptStep::Wait,
            AcceptEvent::Failed => AcceptStep::Stop,
        },
{
    if shutdown_requested {
        return AcceptStep::Stop;
    }
    match event {
        AcceptEvent::Accepted => AcceptStep::Serve,
        AcceptEvent::WouldBlock => AcceptStep::Wait,
        AcceptEvent::Failed => AcceptStep::Stop,
    }
}

} // verus!
