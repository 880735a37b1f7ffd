//! The per-connection state machine.
//!
//! A [`Transport`] owns the two buffers of one connection and decides, event
//! by event, what the connection does next. It performs no input or output
//! itself: its driver reads from and writes to the socket as the returned
//! [`Action`] says, and reports back with the next [`Event`].

use bytes::BytesMut;
use crate::buffer::{buf_bytes, buf_to_vec};
use crate::codec::{decode_spec, free_capacity, IntCodec};
use crate::handler::{Handler, HandlerError};
use crate::wire::{be_bytes, FRAME_LEN};
use vstd::prelude::*;

verus! {

/// Why a connection was closed.
#[derive(Clone, Copy, Debug, PartialEq, Eq, Structural)]
pub enum CloseReason {
    /// A read returned no bytes: the peer has closed its side.
    PeerClosed,
    /// A read or a write on the socket failed.
    Socket,
    /// The handler refused a request.
    Handler(HandlerError),
    /// The inbound buffer cannot hold what was read on top of what it holds.
    Capacity,
}

/// Where a connection stands.
#[derive(Clone, Copy, Debug, PartialEq, Eq, Structural)]
pub enum Phase {
    /// No whole message is buffered: bytes must be read first.
    ReadingMore,
    /// A message has been taken off the inbound buffer and answered; its
    /// response waits to be written. More bytes may be buffered behind it.
    HasMessage,
    /// The connection is over.
    Closed(CloseReason),
}

/// What the driver reports to the connection.
#[derive(Debug, PartialEq, Eq)]
pub enum Event {
    /// A read returned these bytes. No bytes at all means end of stream.
    Received(Vec<u8>),
    /// The bytes of the last [`Action::Write`] were written in full.
    Written,
    /// A read or a write failed.
    Failed,
}

/// What the connection asks of its driver.
#[derive(Debug, PartialEq, Eq)]
pub enum Action {
    /// Read once from the socket and report [`Event::Received`].
    Read,
    /// Write all of these bytes to the socket and report [`Event::Written`].
    Write(Vec<u8>),
    /// Close the socket; the connection is over.
    Close(CloseReason),
}

/// An [`Event`] with its bytes as a sequence.
pub enum EventView {
    Received(Seq<u8>),
    Written,
    Failed,
}

/// An [`Action`] with its bytes as a sequence.
pub enum ActionView {
    Read,
    Write(Seq<u8>),
    Close(CloseReason),
}

impl View for Event {
    type V = EventView;

    open spec fn view(&self) -> EventView {
        match self {
            Event::Received(chunk) => EventView::Received(chunk@),
            Event::Written => EventView::Written,
            Event::Failed => EventView::Failed,
        }
    }
}

impl View for Action {
    type V = ActionView;

    open spec fn view(&self) -> ActionView {
        match self {
            Action::Read => ActionView::Read,
            Action::Write(bytes) => ActionView::Write(bytes@),
            Action::Close(reason) => ActionView::Close(*reason),
        }
    }
}

/// A connection as the contracts see it.
pub struct TransportView {
    /// Bytes received and not yet part of a decoded message, oldest first.
    pub inbound: Seq<u8>,
    /// Bytes of the response that waits to be written.
    pub outbound: Seq<u8>,
    pub phase: Phase,
}

/// The state of a connection that has just been accepted.
pub open spec fn fresh() -> TransportView {
    TransportView { inbound: Seq::empty(), outbound: Seq::empty(), phase: Phase::ReadingMore }
}

/// The state of a connection that reads, with `inbound` buffered and nothing
/// waiting to be written.
pub open spec fn reading(inbound: Seq<u8>) -> TransportView {
    TransportView { inbound, outbound: Seq::empty(), phase: Phase::ReadingMore }
}

/// What holds of every connection: while it reads, nothing waits to be
/// written and no whole message is buffered; while a response waits, it is
/// exactly one frame.
pub open spec fn well_formed(s: TransportView) -> bool {
    match s.phase {
        Phase::ReadingMore => s.outbound.len() == 0 && s.inbound.len() < FRAME_LEN,
        Phase::HasMessage => s.outbound.len() == FRAME_LEN,
        Phase::Closed(_) => true,
    }
}

/// What a connection in state `s` asks of its driver.
pub open spec fn awaited(s: TransportView) -> ActionView {
    match s.phase {
        Phase::ReadingMore => ActionView::Read,
        Phase::HasMessage => ActionView::Write(s.outbound),
        Phase::Closed(reason) => ActionView::Close(reason),
    }
}

/// The state after one decoding attempt on `inbound`, with nothing waiting to
/// be written: without a whole message the connection reads on; with one, the
/// message leaves the buffer and goes to the handler, whose response becomes
/// the pending write and whose refusal closes the connection.
pub open spec fn dispatched<H: Handler>(inbound: Seq<u8>, handler: H) -> TransportView {
    match decode_spec(inbound) {
        (None, rest) => TransportView {
            inbound: rest,
            outbound: Seq::empty(),
            phase: Phase::ReadingMore,
        },
        (Some(request), rest) => match handler.respond(request) {
            Ok(response) => TransportView {
                inbound: rest,
                outbound: be_bytes(response),
                phase: Phase::HasMessage,
            },
            Err(e) => TransportView {
                inbound: rest,
                outbound: Seq::empty(),
                phase: Phase::Closed(CloseReason::Handler(e)),
            },
        },
    }
}

/// The state that follows `s` on `event`.
///
/// A closed connection stays as it is. A failure closes the connection. A
/// read of no bytes closes it too, whatever is still buffered. Bytes read
/// join the inbound buffer, and unless a response still waits to be written,
/// one decoding attempt follows. A finished write clears the pending
/// response, and one decoding attempt follows.
pub open spec fn next<H: Handler>(s: TransportView, handler: H, event: EventView) -> TransportView {
    match s.phase {
        Phase::Closed(_) => s,
        _ => match event {
            EventView::Failed => TransportView { phase: Phase::Closed(CloseReason::Socket), ..s },
            EventView::Received(chunk) => {
                if chunk.len() == 0 {
                    TransportView { phase: Phase::Closed(CloseReason::PeerClosed), ..s }
                } else if free_capacity(s.inbound.len()) < chunk.len() {
                    TransportView { phase: Phase::Closed(CloseReason::Capacity), ..s }
                } else if s.phase == Phase::HasMessage {
                    TransportView { inbound: s.inbound + chunk, ..s }
                } else {
                    dispatched(s.inbound + chunk, handler)
                }
            },
            EventView::Written => {
                if s.phase == Phase::HasMessage {
                    dispatched(s.inbound, handler)
                } else {
                    s
                }
            },
        },
    }
}

/// One connection: its codec, its two buffers and where it stands.
pub struct Transport {
    codec: IntCodec,
    inbound: BytesMut,
    outbound: BytesMut,
    phase: Phase,
}

impl View for Transport {
    type V = TransportView;

    closed spec fn view(&self) -> TransportView {
        TransportView {
            inbound: buf_bytes(self.inbound),
            outbound: buf_bytes(self.outbound),
            phase: self.phase,
        }
    }
}

/// The protocol: what binds a newly accepted connection to its transport.
#[derive(Clone, Copy, Debug, Default)]
pub struct IntProto;

impl IntProto {
    /// The transport of a newly accepted connection: nothing buffered, no
    /// response waiting, and the first thing it asks for is a read.
    pub fn bind_transport(&self) -> (t: Transport)
        ensures
            t@ == fresh(),
    {
        Transport::new()
    }
}

impl Transport {
    /// A connection that has just been accepted: both buffers empty, reading.
    fn new() -> (t: Transport)
        ensures
            t@ == fresh(),
    {
        Transport {
            codec: IntCodec,
            inbound: BytesMut::new(),
            outbound: BytesMut::new(),
            phase: Phase::ReadingMore,
        }
    }

    /// Where the connection stands.
    pub fn phase(&self) -> (phase: Phase)
        ensures
            phase == self@.phase,
    {
        self.phase
    }

    /// How many received bytes wait in the inbound buffer.
    pub fn buffered(&self) -> (n: usize)
        ensures
            n == self@.inbound.len(),
    {
        self.inbound.len()
    }

    /// Says whether `incoming` more bytes fit in an inbound buffer that holds
    /// `buffered` bytes: whether the sum is still a length a buffer can have.
    pub fn fits(buffered: usize, incoming: usize) -> (r: bool)
        ensures
            r == (incoming <= free_capacity(buffered as nat)),
    {
        incoming <= usize::MAX - buffered
    }

    /// What the connection asks of its driver now.
    pub fn awaited(&self) -> (action: Action)
        ensures
            action@ == awaited(self@),
    {
        match self.phase {
            Phase::ReadingMore => Action::Read,
            Phase::HasMessage => Action::Write(buf_to_vec(&self.outbound)),
            Phase::Closed(reason) => Action::Close(reason),
        }
    }

    /// One decoding attempt on the inbound buffer, and what follows from it.
    /// Whatever waited to be written is dropped first.
    fn dispatch<H: Handler>(&mut self, handler: &H)
        ensures
            final(self)@ == dispatched(old(self)@.inbound, *handler),
    {
        self.outbound.clear();
        match self.codec.decode(&mut self.inbound) {
            Ok(Some(request)) => {
                match handler.call(request) {
                    Ok(response) => {
                        // The outbound buffer is empty here, so it has room.
                        match self.codec.encode(response, &mut self.outbound) {
                            Ok(()) => {
                                self.phase = Phase::HasMessage;
                            },
                            Err(_) => {
                                self.phase = Phase::Closed(CloseReason::Capacity);
                            },
                        }
                    },
                    Err(e) => {
                        self.phase = Phase::Closed(CloseReason::Handler(e));
                    },
                }
            },
            _ => {
                self.phase = Phase::ReadingMore;
            },
        }
    }

    /// Takes `event` in and says what the driver is to do next.
    ///
    /// The connection moves to the state that [`next`] gives, and the action
    /// returned is the one that state asks for.
    pub fn step<H: Handler>(&mut self, handler: &H, event: Event) -> (action: Action)
        ensures
            final(self)@ == next(old(self)@, *handler, event@),
            action@ == awaited(final(self)@),
            well_formed(old(self)@) ==> well_formed(final(self)@),
    {
        match self.phase {
            Phase::Closed(_) => {},
            _ => {
                match event {
                    Event::Failed => {
                        self.phase = Phase::Closed(CloseReason::Socket);
                    },
                    Event::Received(chunk) => {
                        if chunk.len() == 0 {
                            self.phase = Phase::Closed(CloseReason::PeerClosed);
                        } else if !Self::fits(self.inbound.len(), chunk.len()) {
                            self.phase = Phase::Closed(CloseReason::Capacity);
                        } else {
                            self.inbound.extend_from_slice(chunk.as_slice());
                            match self.phase {
                                Phase::HasMessage => {},
                                _ => {
                                    self.dispatch(handler);
                                },
                            }
                        }
                    },
                    Event::Written => {
                        match self.phase {
                            Phase::HasMessage => {
                                self.dispatch(handler);
                            },
                            _ => {},
                        }
                    },
                }
            },
        }
        self.awaited()
    }
}

/// A new connection is well formed, and a well-formed connection stays so
/// whatever is reported to it.
pub proof fn lemma_next_keeps_well_formed<H: Handler>(
    s: TransportView,
    handler: H,
    event: EventView,
)
    requires
        well_formed(s),
    ensures
        well_formed(fresh()),
        well_formed(next(s, handler, event)),
{
}

/// A closed connection stays closed, for the same reason, and its buffers
/// are not touched again.
pub proof fn lemma_closed_is_final<H: Handler>(s: TransportView, handler: H, event: EventView)
    requires
        s.phase is Closed,
    ensures
        next(s, handler, event) == s,
{
}

/// The end of the stream closes an open connection whatever it has buffered,
/// a part of a frame included, and nothing more is decoded or answered.
pub proof fn lemma_end_of_stream_closes<H: Handler>(s: TransportView, handler: H)
    requires
        !(s.phase is Closed),
    ensures
        next(s, handler, EventView::Received(Seq::empty())) == (TransportView {
            phase: Phase::Closed(CloseReason::PeerClosed),
            ..s
        }),
        awaited(next(s, handler, EventView::Received(Seq::empty()))) == ActionView::Close(
            CloseReason::PeerClosed,
        ),
{
}

} // verus!
