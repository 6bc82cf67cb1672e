//! A connection as the server sees it between two reads: the descriptor,
//! the bytes received and not yet framed, and how far the current receive
//! has come. The transport itself stays with whoever does the I/O.

use crate::frame::{contents, encode_frame, encoding, frames_of, remainder_of, split_frames};
use crate::frame::MAX_PAYLOAD;
use vstd::prelude::*;

verus! {

/// What one read on the transport came to.
#[derive(Clone, Debug, PartialEq, Eq)]
pub enum ReadOutcome {
    /// The read returned these bytes. No bytes at all means that the peer
    /// has closed.
    Data(Vec<u8>),
    /// Nothing more can be read before the peer sends again.
    WouldBlock,
    /// The transport reported the end of the stream.
    Closed,
    /// The read failed for good.
    Failed,
}

/// Why a receive did not succeed.
#[derive(Clone, Copy, Debug, PartialEq, Eq)]
pub enum RecvError {
    /// The transport failed.
    Fatal,
    /// The transport had nothing to read in the first place.
    WouldBlock,
    /// The peer has closed the connection.
    Closed,
}

/// What the reader does after a read has been taken in.
#[derive(Clone, Copy, Debug, PartialEq, Eq)]
pub enum RecvStep {
    /// Read again: the transport may hold more.
    ReadAgain,
    /// The receive is over, with this result.
    Done(Result<(), RecvError>),
}

/// The mathematical content of a `Stream`.
pub struct StreamView {
    /// The descriptor.
    pub fd: i32,
    /// The bytes received and not yet cut into frames.
    pub rx: Seq<u8>,
    /// Whether a read of the receive under way has brought bytes.
    pub fresh: bool,
}

/// How a stream looks after `outcome` has been taken in.
pub open spec fn absorbed(s: StreamView, outcome: ReadOutcome) -> StreamView {
    match outcome {
        ReadOutcome::Data(bytes) => if bytes@.len() > 0 {
            StreamView { fd: s.fd, rx: s.rx + bytes@, fresh: true }
        } else {
            StreamView { fd: s.fd, rx: s.rx, fresh: false }
        },
        _ => StreamView { fd: s.fd, rx: s.rx, fresh: false },
    }
}

/// What follows `outcome` on a stream in state `s`: another read after
/// bytes, success when the transport runs dry after at least one read that
/// brought bytes, and an error in every other case.
pub open spec fn step_after(s: StreamView, outcome: ReadOutcome) -> RecvStep {
    match outcome {
        ReadOutcome::Data(bytes) => if bytes@.len() > 0 {
            RecvStep::ReadAgain
        } else {
            RecvStep::Done(Err(RecvError::Closed))
        },
        ReadOutcome::WouldBlock => if s.fresh {
            RecvStep::Done(Ok(()))
        } else {
            RecvStep::Done(Err(RecvError::WouldBlock))
        },
        ReadOutcome::Closed => RecvStep::Done(Err(RecvError::Closed)),
        ReadOutcome::Failed => RecvStep::Done(Err(RecvError::Fatal)),
    }
}

/// A connection: its descriptor and its receive buffer.
#[derive(Debug)]
pub struct Stream {
    fd: i32,
    rx: Vec<u8>,
    fresh: bool,
}

impl View for Stream {
    type V = StreamView;

    closed spec fn view(&self) -> StreamView {
        StreamView { fd: self.fd, rx: self.rx@, fresh: self.fresh }
    }
}

impl Stream {
    /// A stream on `fd` that has received nothing yet.
    pub fn new(fd: i32) -> (s: Stream)
        ensures
            s@ == (StreamView { fd, rx: Seq::empty(), fresh: false }),
    {
        Stream { fd, rx: Vec::new(), fresh: false }
    }

    /// The descriptor of the connection.
    pub fn as_fd(&self) -> (fd: i32)
        ensures
            fd == self@.fd,
    {
        self.fd
    }

    /// The number of bytes received and not yet cut into frames.
    pub fn buffered(&self) -> (n: usize)
        ensures
            n == self@.rx.len(),
    {
        self.rx.len()
    }

    /// The bytes received and not yet cut into frames.
    pub fn buffer(&self) -> (bytes: &Vec<u8>)
        ensures
            bytes@ == self@.rx,
    {
        &self.rx
    }

    /// Takes in what one read on the transport came to, and says whether to
    /// read again. A receive is the reads from the first one up to the one
    /// after which this returns `Done`: bytes are appended to the receive
    /// buffer and ask for another read, so that the transport is read dry.
    pub fn on_read(&mut self, outcome: ReadOutcome) -> (step: RecvStep)
        ensures
            final(self)@ == absorbed(old(self)@, outcome),
            step == step_after(old(self)@, outcome),
    {
        match outcome {
            ReadOutcome::Data(bytes) => {
                if bytes.len() > 0 {
                    let mut bytes = bytes;
                    self.rx.append(&mut bytes);
                    self.fresh = true;
                    RecvStep::ReadAgain
                } else {
                    self.fresh = false;
                    RecvStep::Done(Err(RecvError::Closed))
                }
            },
            ReadOutcome::WouldBlock => {
                let fresh = self.fresh;
                self.fresh = false;
                if fresh {
                    RecvStep::Done(Ok(()))
                } else {
                    RecvStep::Done(Err(RecvError::WouldBlock))
                }
            },
            ReadOutcome::Closed => {
                self.fresh = false;
                RecvStep::Done(Err(RecvError::Closed))
            },
            ReadOutcome::Failed => {
                self.fresh = false;
                RecvStep::Done(Err(RecvError::Fatal))
            },
        }
    }

    /// Hands out the messages that are complete in the receive buffer, in
    /// the order in which they arrived, and keeps the partial frame behind
    /// them for the next receive.
    pub fn drain_rx_queue(&mut self) -> (frames: Vec<Vec<u8>>)
        ensures
            contents(frames@) == frames_of(old(self)@.rx),
            final(self)@ == (StreamView {
                fd: old(self)@.fd,
                rx: remainder_of(old(self)@.rx),
                fresh: old(self)@.fresh,
            }),
    {
        split_frames(&mut self.rx)
    }
}

/// What one write on the transport came to.
#[derive(Clone, Copy, Debug, PartialEq, Eq)]
pub enum WriteOutcome {
    /// The transport took this many of the bytes it was given.
    Wrote(usize),
    /// The transport takes nothing before the peer has read.
    WouldBlock,
    /// The write failed for good.
    Failed,
}

/// What the sender does after a write has been taken in.
#[derive(Clone, Copy, Debug, PartialEq, Eq)]
pub enum SendStep {
    /// Write the bytes of the frame from this offset to its end.
    Write { from: usize },
    /// The frame is on the wire.
    Sent,
    /// The transport has failed; the rest of the frame is not sent.
    Broken,
}

/// The mathematical content of a `Sending`.
pub struct SendingView {
    /// The frame that is being sent.
    pub wire: Seq<u8>,
    /// How many of its bytes the transport has taken.
    pub sent: nat,
}

/// How a send looks after `outcome` has been taken in: bytes that were
/// taken are not offered again, and nothing else moves.
pub open spec fn progressed(s: SendingView, outcome: WriteOutcome) -> SendingView {
    match outcome {
        WriteOutcome::Wrote(n) => if n >= s.wire.len() - s.sent {
            SendingView { wire: s.wire, sent: s.wire.len() }
        } else {
            SendingView { wire: s.wire, sent: (s.sent + n) as nat }
        },
        _ => s,
    }
}

/// What follows `outcome` on a send in state `s`. A transport that would
/// block is offered the same bytes again; one that takes nothing, or
/// fails, breaks the send.
pub open spec fn step_after_write(s: SendingView, outcome: WriteOutcome) -> SendStep {
    match outcome {
        WriteOutcome::Wrote(n) => if s.sent >= s.wire.len() {
            SendStep::Sent
        } else if n == 0 {
            SendStep::Broken
        } else if n >= s.wire.len() - s.sent {
            SendStep::Sent
        } else {
            SendStep::Write { from: (s.sent + n) as usize }
        },
        WriteOutcome::WouldBlock => if s.sent >= s.wire.len() {
            SendStep::Sent
        } else {
            SendStep::Write { from: s.sent as usize }
        },
        WriteOutcome::Failed => SendStep::Broken,
    }
}

/// A message on its way out: the frame and how much of it is written.
#[derive(Debug)]
pub struct Sending {
    wire: Vec<u8>,
    sent: usize,
}

impl View for Sending {
    type V = SendingView;

    closed spec fn view(&self) -> SendingView {
        SendingView { wire: self.wire@, sent: self.sent as nat }
    }
}

impl Sending {
    /// Whether the send is in order: no more is written than there is.
    pub open spec fn wf(&self) -> bool {
        self@.sent <= self@.wire.len()
    }

    /// Begins to send `payload`: frames it, with nothing written yet.
    /// Returns `None` where the payload is longer than a frame can carry.
    pub fn new(payload: &Vec<u8>) -> (sending: Option<Sending>)
        ensures
            payload@.len() > MAX_PAYLOAD ==> sending.is_none(),
            payload@.len() <= MAX_PAYLOAD ==> sending.is_some() && sending.unwrap().wf()
                && sending.unwrap()@ == (SendingView { wire: encoding(payload@), sent: 0 }),
    {
        match encode_frame(payload) {
            Some(wire) => Some(Sending { wire, sent: 0 }),
            None => None,
        }
    }

    /// The frame that is being sent.
    pub fn wire(&self) -> (wire: &Vec<u8>)
        ensures
            wire@ == self@.wire,
    {
        &self.wire
    }

    /// How many bytes of the frame the transport has taken.
    pub fn sent(&self) -> (n: usize)
        ensures
            n == self@.sent,
    {
        self.sent
    }

    /// Takes in what one write on the transport came to, and says what
    /// to write next. The first write offers the whole frame; every later
    /// one offers what `Write` says.
    pub fn on_write(&mut self, outcome: WriteOutcome) -> (step: SendStep)
        requires
            old(self).wf(),
        ensures
            final(self)@ == progressed(old(self)@, outcome),
            step == step_after_write(old(self)@, outcome),
            final(self).wf(),
    {
        let left: usize = self.wire.len() - self.sent;
        match outcome {
            WriteOutcome::Wrote(n) => {
                if n >= left {
                    self.sent = self.wire.len();
                    SendStep::Sent
                } else if n == 0 {
                    SendStep::Broken
                } else {
                    self.sent = self.sent + n;
                    SendStep::Write { from: self.sent }
                }
            },
            WriteOutcome::WouldBlock => {
                if left == 0 {
                    SendStep::Sent
                } else {
                    SendStep::Write { from: self.sent }
                }
            },
            WriteOutcome::Failed => SendStep::Broken,
        }
    }
}

} // verus!
