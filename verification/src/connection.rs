//! The per-connection request cycle: read a request, hand it over, write the
//! answer. The caller performs the socket operations this machine asks for and
//! reports how they went.
use vstd::prelude::*;
use crate::http::{format_response_fast, parse_http_request, request_head_of, request_layout, response_bytes, RequestHead};
use crate::{headers_view, Response};

verus! {

/// Where a connection stands.
#[derive(Debug, Clone, Copy, PartialEq, Eq, Structural)]
pub enum ConnectionState {
    /// Waiting for (more of) a request.
    ReadRequest,
    /// A read has added bytes; the buffer is to be parsed.
    ProcessRequest,
    /// Sending the answer.
    WriteResponse,
    /// Finished; the connection is to be released.
    Done,
}

/// What the machine asks its driver to do next.
#[derive(Debug, Clone, Copy, PartialEq, Eq, Structural)]
pub enum Action {
    /// Read at most `read_capacity()` bytes and report with `on_read`.
    Read,
    /// Parse the buffered bytes with `process`.
    Process,
    /// Write `pending_output()` and report with `on_write`.
    Write,
    /// Stop: the connection is finished.
    Finish,
}

/// How a socket read or write went.
#[derive(Debug, Clone, Copy, PartialEq, Eq, Structural)]
pub enum IoOutcome {
    /// This many bytes moved; zero means the peer closed.
    Transferred(usize),
    /// The operation would block: yield and retry later.
    WouldBlock,
    /// Any other error.
    Failed,
}

/// What the driver reports after the action the machine asked for.
pub enum Report {
    /// How the read went.
    Read(IoOutcome),
    /// The bytes so far hold no complete request.
    Incomplete,
    /// The request was an upgrade; the socket went to the websocket handler.
    HandedOver,
    /// The request was answered with this many bytes to send.
    Answered(nat),
    /// How the write went.
    Wrote(IoOutcome),
}

/// What decides a connection's course: where it stands, whether it still has
/// its socket, and how much of the answer is written.
pub struct Course {
    pub state: ConnectionState,
    pub has_stream: bool,
    pub written: nat,
    pub out_len: nat,
}

/// Finished, with everything else as it was.
pub open spec fn finished(c: Course) -> Course {
    Course { state: ConnectionState::Done, ..c }
}

/// One step of handling a connection on a report: the course after it, and
/// whether the handling returns there: `Some(true)` when the connection is
/// finished, `Some(false)` when it must wait for the socket, `None` when it
/// goes on. A report that does not answer what the state asks for changes
/// nothing.
pub open spec fn poll_step(c: Course, r: Report) -> (Course, Option<bool>) {
    match c.state {
        ConnectionState::Done => (c, Some(true)),
        ConnectionState::ReadRequest => if !c.has_stream {
            (finished(c), Some(true))
        } else {
            match r {
                Report::Read(IoOutcome::Transferred(n)) => if n == 0 {
                    (finished(c), Some(true))
                } else {
                    (Course { state: ConnectionState::ProcessRequest, ..c }, None)
                },
                Report::Read(IoOutcome::WouldBlock) => (c, Some(false)),
                Report::Read(IoOutcome::Failed) => (finished(c), Some(true)),
                _ => (c, None),
            }
        },
        ConnectionState::ProcessRequest => match r {
            Report::Incomplete => (Course { state: ConnectionState::ReadRequest, ..c }, None),
            Report::HandedOver => (Course { state: ConnectionState::Done, has_stream: false, ..c }, Some(true)),
            Report::Answered(len) => (Course { state: ConnectionState::WriteResponse, written: 0, out_len: len, ..c }, None),
            _ => (c, None),
        },
        ConnectionState::WriteResponse => if c.written >= c.out_len || !c.has_stream {
            (finished(c), Some(true))
        } else {
            match r {
                Report::Wrote(IoOutcome::Transferred(n)) => if n == 0 {
                    (finished(c), Some(true))
                } else {
                    (Course { written: c.written + (n as nat), ..c }, None)
                },
                Report::Wrote(IoOutcome::WouldBlock) => (c, Some(false)),
                Report::Wrote(IoOutcome::Failed) => (finished(c), Some(true)),
                _ => (c, None),
            }
        },
    }
}

/// Whether a report says the socket would block.
pub open spec fn would_block(r: Report) -> bool {
    r matches Report::Read(IoOutcome::WouldBlock) || r matches Report::Wrote(IoOutcome::WouldBlock)
}

/// One run of handling a connection on the reports in order, until it
/// returns: the course at the end, whether and how it returned, and how many
/// reports it used. A finished connection returns at once, using none.
pub open spec fn poll_run(c: Course, reports: Seq<Report>) -> (Course, Option<bool>, nat)
    decreases reports.len(),
{
    if c.state == ConnectionState::Done {
        (c, Some(true), 0)
    } else if reports.len() == 0 {
        (c, None, 0)
    } else {
        let (c1, res) = poll_step(c, reports[0]);
        if res is Some {
            (c1, res, 1)
        } else {
            let (c2, res2, used) = poll_run(c1, reports.drop_first());
            (c2, res2, used + 1)
        }
    }
}

/// Over any reports, a run that returns `true` leaves the connection
/// finished; one that returns `false` stopped on a report that the socket
/// would block, leaving the connection unfinished and the course as it was
/// before that report; a finished connection returns `true` at once without
/// using a report, and so does every later run.
pub proof fn lemma_poll_run(c: Course, reports: Seq<Report>)
    ensures
        ({
            let (end, res, used) = poll_run(c, reports);
            &&& used <= reports.len()
            &&& res == Some(true) ==> end.state == ConnectionState::Done
            &&& res == Some(false) ==> used >= 1 && would_block(reports[used - 1])
                && end.state != ConnectionState::Done
            &&& c.state == ConnectionState::Done ==> res == Some(true) && used == 0 && end == c
            &&& res == Some(true) ==> forall|later: Seq<Report>| #[trigger] poll_run(end, later) == (end, Some(true), 0nat)
        }),
    decreases reports.len(),
{
    if c.state != ConnectionState::Done && reports.len() > 0 {
        let (c1, res) = poll_step(c, reports[0]);
        if res is None {
            lemma_poll_run(c1, reports.drop_first());
            let (c2, res2, used) = poll_run(c1, reports.drop_first());
            if res2 == Some(false) {
                assert(reports[used as int] == reports.drop_first()[used - 1]);
            }
        }
    }
}

/// The state of one connection, apart from the socket itself.
pub struct ConnectionTask {
    buffer: Vec<u8>,
    read_len: usize,
    response_bytes: Vec<u8>,
    written: usize,
    state: ConnectionState,
    has_stream: bool,
}

impl ConnectionTask {
    /// The read length stays within the buffer and the write position within the answer.
    pub closed spec fn wf(self) -> bool {
        &&& self.read_len <= self.buffer@.len()
        &&& self.written <= self.response_bytes@.len()
    }

    pub closed spec fn buffer_view(self) -> Seq<u8> {
        self.buffer@
    }

    pub closed spec fn read_len_view(self) -> nat {
        self.read_len as nat
    }

    /// The bytes read so far.
    pub open spec fn received(self) -> Seq<u8> {
        self.buffer_view().subrange(0, self.read_len_view() as int)
    }

    pub closed spec fn output_view(self) -> Seq<u8> {
        self.response_bytes@
    }

    pub closed spec fn written_view(self) -> nat {
        self.written as nat
    }

    pub closed spec fn state_view(self) -> ConnectionState {
        self.state
    }

    pub closed spec fn has_stream_view(self) -> bool {
        self.has_stream
    }

    /// The course of this connection.
    pub open spec fn course(self) -> Course {
        Course {
            state: self.state_view(),
            has_stream: self.has_stream_view(),
            written: self.written_view(),
            out_len: self.output_view().len(),
        }
    }

    /// A fresh connection with a zeroed read buffer of `read_buffer_size` bytes.
    pub fn new(read_buffer_size: usize) -> (r: ConnectionTask)
        ensures
            r.buffer_view() == Seq::new(read_buffer_size as nat, |i: int| 0u8),
            r.read_len_view() == 0,
            r.output_view().len() == 0,
            r.written_view() == 0,
            r.state_view() == ConnectionState::ReadRequest,
            r.has_stream_view(),
            r.wf(),
    {
        let buffer = vec![0u8; read_buffer_size];
        assert(buffer@ =~= Seq::new(read_buffer_size as nat, |i: int| 0u8));
        ConnectionTask {
            buffer,
            read_len: 0,
            response_bytes: Vec::new(),
            written: 0,
            state: ConnectionState::ReadRequest,
            has_stream: true,
        }
    }

    pub fn state(&self) -> (r: ConnectionState)
        ensures
            r == self.state_view(),
    {
        self.state
    }

    /// The size of the read buffer.
    pub fn buffer_len(&self) -> (r: usize)
        ensures
            r == self.buffer_view().len(),
    {
        self.buffer.len()
    }

    /// How many more bytes fit in the read buffer.
    pub fn read_capacity(&self) -> (r: usize)
        requires
            self.wf(),
        ensures
            r == self.buffer_view().len() - self.read_len_view(),
    {
        self.buffer.len() - self.read_len
    }

    /// The bytes read so far.
    pub fn received_bytes(&self) -> (r: &[u8])
        requires
            self.wf(),
        ensures
            r@ == self.received(),
    {
        &self.buffer.as_slice()[0..self.read_len]
    }

    /// The answer bytes not yet written.
    pub fn pending_output(&self) -> (r: &[u8])
        requires
            self.wf(),
        ensures
            r@ == self.output_view().subrange(self.written_view() as int, self.output_view().len() as int),
    {
        &self.response_bytes.as_slice()[self.written..self.response_bytes.len()]
    }

    /// Decides the next step. Reading with a full buffer first doubles it (new bytes zero).
    pub fn next_action(&mut self) -> (a: Action)
        requires
            old(self).wf(),
            old(self).buffer_view().len() <= usize::MAX / 2,
        ensures
            final(self).wf(),
            final(self).received() == old(self).received(),
            final(self).output_view() == old(self).output_view(),
            final(self).written_view() == old(self).written_view(),
            final(self).has_stream_view() == old(self).has_stream_view(),
            match old(self).state_view() {
                ConnectionState::ReadRequest => if !old(self).has_stream_view() {
                    a == Action::Finish && final(self).state_view() == ConnectionState::Done
                        && final(self).buffer_view() == old(self).buffer_view()
                } else {
                    &&& a == Action::Read
                    &&& final(self).state_view() == ConnectionState::ReadRequest
                    &&& final(self).buffer_view() == if old(self).read_len_view() >= old(self).buffer_view().len() {
                        old(self).buffer_view() + Seq::new(old(self).buffer_view().len(), |i: int| 0u8)
                    } else {
                        old(self).buffer_view()
                    }
                },
                ConnectionState::ProcessRequest => a == Action::Process && final(self).state_view() == ConnectionState::ProcessRequest
                    && final(self).buffer_view() == old(self).buffer_view(),
                ConnectionState::WriteResponse => {
                    &&& final(self).buffer_view() == old(self).buffer_view()
                    &&& if old(self).written_view() >= old(self).output_view().len() || !old(self).has_stream_view() {
                        a == Action::Finish && final(self).state_view() == ConnectionState::Done
                    } else {
                        a == Action::Write && final(self).state_view() == ConnectionState::WriteResponse
                    }
                },
                ConnectionState::Done => a == Action::Finish && final(self).state_view() == ConnectionState::Done
                    && final(self).buffer_view() == old(self).buffer_view(),
            },
            a == Action::Finish ==> forall|r: Report| #[trigger] poll_step(old(self).course(), r)
                == (final(self).course(), Some(true)),
            a != Action::Finish ==> final(self).course() == old(self).course(),
    {
        match self.state {
            ConnectionState::ReadRequest => {
                if !self.has_stream {
                    self.state = ConnectionState::Done;
                    return Action::Finish;
                }
                let buf_len = self.buffer.len();
                if self.read_len >= buf_len {
                    let ghost b0 = self.buffer@;
                    let mut grown: Vec<u8> = Vec::new();
                    std::mem::swap(&mut grown, &mut self.buffer);
                    grown.resize(buf_len * 2, 0u8);
                    assert(grown@ =~= b0 + Seq::new(b0.len(), |i: int| 0u8));
                    assert(grown@.subrange(0, self.read_len as int) =~= b0.subrange(0, self.read_len as int));
                    self.buffer = grown;
                }
                Action::Read
            },
            ConnectionState::ProcessRequest => Action::Process,
            ConnectionState::WriteResponse => {
                if self.written >= self.response_bytes.len() || !self.has_stream {
                    self.state = ConnectionState::Done;
                    Action::Finish
                } else {
                    Action::Write
                }
            },
            ConnectionState::Done => Action::Finish,
        }
    }

    /// Records the outcome of a read of `data` into the buffer.
    pub fn on_read(&mut self, outcome: IoOutcome, data: &[u8]) -> (done: bool)
        requires
            old(self).wf(),
            old(self).state_view() == ConnectionState::ReadRequest,
            outcome matches IoOutcome::Transferred(n) ==> n == data@.len()
                && n <= old(self).buffer_view().len() - old(self).read_len_view(),
        ensures
            final(self).wf(),
            final(self).output_view() == old(self).output_view(),
            final(self).written_view() == old(self).written_view(),
            final(self).has_stream_view() == old(self).has_stream_view(),
            final(self).buffer_view().len() == old(self).buffer_view().len(),
            match outcome {
                IoOutcome::Transferred(n) => if n == 0 {
                    done && final(self).state_view() == ConnectionState::Done
                        && final(self).received() == old(self).received()
                } else {
                    !done && final(self).state_view() == ConnectionState::ProcessRequest
                        && final(self).received() == old(self).received() + data@
                },
                IoOutcome::WouldBlock => !done && final(self).state_view() == ConnectionState::ReadRequest
                    && final(self).received() == old(self).received(),
                IoOutcome::Failed => done && final(self).state_view() == ConnectionState::Done
                    && final(self).received() == old(self).received(),
            },
            old(self).has_stream_view() ==> poll_step(old(self).course(), Report::Read(outcome)) == (
                final(self).course(),
                if done { Some(true) } else if outcome is WouldBlock { Some(false) } else { None },
            ),
    {
        match outcome {
            IoOutcome::Transferred(n) => {
                if n == 0 {
                    self.state = ConnectionState::Done;
                    true
                } else {
                    let ghost r0 = self.buffer@.subrange(0, self.read_len as int);
                    let mut b: Vec<u8> = Vec::new();
                    std::mem::swap(&mut b, &mut self.buffer);
                    let start = self.read_len;
                    let blen = b.len();
                    let mut i: usize = 0;
                    while i < n
                        invariant
                            n == data@.len(),
                            blen == b@.len(),
                            start + n <= b@.len(),
                            i <= n,
                            b@.subrange(0, start as int) == r0,
                            b@.subrange(start as int, start + i) == data@.subrange(0, i as int),
                        decreases n - i,
                    {
                        b.set(start + i, data[i]);
                        assert(b@.subrange(0, start as int) =~= r0);
                        assert(b@.subrange(start as int, start + i + 1) =~= data@.subrange(0, i + 1));
                        i = i + 1;
                    }
                    assert(data@.subrange(0, n as int) =~= data@);
                    assert(b@.subrange(0, start + n) =~= b@.subrange(0, start as int) + b@.subrange(start as int, start + n));
                    self.buffer = b;
                    self.read_len = start + n;
                    self.state = ConnectionState::ProcessRequest;
                    false
                }
            },
            IoOutcome::WouldBlock => false,
            IoOutcome::Failed => {
                self.state = ConnectionState::Done;
                true
            },
        }
    }

    /// Parses the bytes read so far. Without a complete head the machine goes
    /// back to reading; with one it returns the head and waits for `respond`.
    pub fn process(&mut self) -> (r: Option<RequestHead>)
        requires
            old(self).wf(),
            old(self).state_view() == ConnectionState::ProcessRequest,
        ensures
            final(self).wf(),
            final(self).received() == old(self).received(),
            final(self).buffer_view() == old(self).buffer_view(),
            final(self).output_view() == old(self).output_view(),
            final(self).written_view() == old(self).written_view(),
            final(self).has_stream_view() == old(self).has_stream_view(),
            match r {
                Some(head) => request_head_of(old(self).received(), head)
                    && head.header_end <= old(self).received().len()
                    && final(self).state_view() == ConnectionState::ProcessRequest,
                None => request_layout(old(self).received()) is None
                    && final(self).state_view() == ConnectionState::ReadRequest,
            },
            r is None ==> poll_step(old(self).course(), Report::Incomplete) == (final(self).course(), None::<bool>),
            r is Some ==> final(self).course() == old(self).course(),
    {
        let r = parse_http_request(&self.buffer.as_slice()[0..self.read_len]);
        if r.is_none() {
            self.state = ConnectionState::ReadRequest;
        }
        r
    }

    /// Sets the answer to send; writing starts from its first byte.
    pub fn respond(&mut self, response: &Response)
        requires
            old(self).wf(),
        ensures
            final(self).wf(),
            final(self).output_view() == response_bytes(response.status, headers_view(response.headers@), response.body@, false),
            final(self).written_view() == 0,
            final(self).state_view() == ConnectionState::WriteResponse,
            final(self).received() == old(self).received(),
            final(self).buffer_view() == old(self).buffer_view(),
            final(self).has_stream_view() == old(self).has_stream_view(),
            old(self).state_view() == ConnectionState::ProcessRequest ==> poll_step(
                old(self).course(),
                Report::Answered(final(self).output_view().len()),
            ) == (final(self).course(), None::<bool>),
    {
        self.response_bytes = format_response_fast(response, false);
        self.written = 0;
        self.state = ConnectionState::WriteResponse;
    }

    /// The socket was handed to a websocket handler: nothing more to do here.
    pub fn hand_over_stream(&mut self)
        requires
            old(self).wf(),
        ensures
            final(self).wf(),
            !final(self).has_stream_view(),
            final(self).state_view() == ConnectionState::Done,
            final(self).received() == old(self).received(),
            final(self).buffer_view() == old(self).buffer_view(),
            final(self).output_view() == old(self).output_view(),
            final(self).written_view() == old(self).written_view(),
            old(self).state_view() == ConnectionState::ProcessRequest ==> poll_step(old(self).course(), Report::HandedOver)
                == (final(self).course(), Some(true)),
    {
        self.has_stream = false;
        self.state = ConnectionState::Done;
    }

    /// Records the outcome of writing part of the pending answer.
    pub fn on_write(&mut self, outcome: IoOutcome) -> (done: bool)
        requires
            old(self).wf(),
            old(self).state_view() == ConnectionState::WriteResponse,
            outcome matches IoOutcome::Transferred(n) ==> n <= old(self).output_view().len() - old(self).written_view(),
        ensures
            final(self).wf(),
            final(self).received() == old(self).received(),
            final(self).buffer_view() == old(self).buffer_view(),
            final(self).output_view() == old(self).output_view(),
            final(self).has_stream_view() == old(self).has_stream_view(),
            match outcome {
                IoOutcome::Transferred(n) => if n == 0 {
                    done && final(self).state_view() == ConnectionState::Done
                        && final(self).written_view() == old(self).written_view()
                } else {
                    !done && final(self).state_view() == ConnectionState::WriteResponse
                        && final(self).written_view() == old(self).written_view() + n
                },
                IoOutcome::WouldBlock => !done && final(self).state_view() == ConnectionState::WriteResponse
                    && final(self).written_view() == old(self).written_view(),
                IoOutcome::Failed => done && final(self).state_view() == ConnectionState::Done
                    && final(self).written_view() == old(self).written_view(),
            },
            old(self).has_stream_view() && old(self).written_view() < old(self).output_view().len() ==> poll_step(
                old(self).course(),
                Report::Wrote(outcome),
            ) == (final(self).course(), if done { Some(true) } else if outcome is WouldBlock { Some(false) } else { None }),
    {
        match outcome {
            IoOutcome::Transferred(n) => {
                if n == 0 {
                    self.state = ConnectionState::Done;
                    true
                } else {
                    let olen = self.response_bytes.len();
                    assert(self.written + n <= olen);
                    self.written = self.written + n;
                    false
                }
            },
            IoOutcome::WouldBlock => false,
            IoOutcome::Failed => {
                self.state = ConnectionState::Done;
                true
            },
        }
    }
}

} // verus!
