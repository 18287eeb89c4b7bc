//! Per-connection decisions: the protocol state machine layered on a TLS stream,
//! the rules of the non-blocking transport, and the outbound byte buffer.
//!
//! The I/O itself (the TLS session, the socket, WebSocket framing) is performed by
//! the caller, which reports each outcome here and performs the step returned.
use vstd::prelude::*;

verus! {

/// Where a connection stands. Exactly one phase holds at any time.
#[derive(Debug, Clone, Copy, PartialEq, Eq, Structural)]
pub enum Phase {
    /// The HTTP upgrade handshake is in progress.
    AwaitingUpgrade,
    /// The upgrade was refused and an HTTP answer is queued; the connection goes
    /// once that answer is flushed.
    Refusing,
    /// WebSocket frames flow both ways.
    Established,
    /// A close frame was answered; the connection goes once it is flushed.
    Closing,
    /// Terminal: the connection is to be removed.
    Closed,
}

/// Outcome of one non-blocking attempt at the upgrade handshake.
#[derive(Debug, Clone, Copy, PartialEq, Eq, Structural)]
pub enum Attempt {
    /// The upgrade was accepted.
    Complete,
    /// More I/O is needed.
    Interrupted,
    /// The upgrade was refused and an HTTP answer (an error, or a static file) was
    /// queued for the client.
    Refused,
    /// No request could be read: nothing is answered.
    Failed,
}

/// Outcome of an I/O operation that moves no data the caller sees.
#[derive(Debug, Clone, Copy, PartialEq, Eq, Structural)]
pub enum IoStatus {
    Done,
    WouldBlock,
    Failed,
}

/// Outcome of reading one inbound WebSocket frame.
pub enum Inbound {
    Text(Vec<u8>),
    Binary(Vec<u8>),
    Ping(Vec<u8>),
    Pong,
    Close,
    WouldBlock,
    Failed,
}

/// What the caller reports to a connection.
pub enum Input {
    Handshake(Attempt),
    Flushed(IoStatus),
    Received(Inbound),
}

/// What the caller must do next.
pub enum Step {
    /// Keep the connection registered and wait for readiness.
    Wait,
    /// Hand this text or binary payload to the application handler.
    Deliver(Vec<u8>),
    /// Send a pong carrying this payload.
    Pong(Vec<u8>),
    /// Send a close frame and flush it; the connection is removed after the flush.
    Close,
    /// Tear the connection down now (unsubscribe and deregister).
    Remove,
}

/// The phase after `input` arrives in phase `p`. Input that does not belong to the
/// phase is a protocol violation and closes the connection.
pub open spec fn next_phase(p: Phase, input: Input) -> Phase {
    match (p, input) {
        (Phase::AwaitingUpgrade, Input::Handshake(Attempt::Complete)) => Phase::Established,
        (Phase::AwaitingUpgrade, Input::Handshake(Attempt::Interrupted)) => Phase::AwaitingUpgrade,
        (Phase::AwaitingUpgrade, Input::Handshake(Attempt::Refused)) => Phase::Refusing,
        (Phase::Refusing, Input::Flushed(IoStatus::WouldBlock)) => Phase::Refusing,
        (Phase::Refusing, Input::Received(_)) => Phase::Refusing,
        (Phase::Established, Input::Flushed(IoStatus::Failed)) => Phase::Closed,
        (Phase::Established, Input::Flushed(_)) => Phase::Established,
        (Phase::Established, Input::Received(Inbound::Close)) => Phase::Closing,
        (Phase::Established, Input::Received(Inbound::Failed)) => Phase::Closed,
        (Phase::Established, Input::Received(_)) => Phase::Established,
        (Phase::Closing, Input::Flushed(IoStatus::WouldBlock)) => Phase::Closing,
        (Phase::Closing, Input::Received(_)) => Phase::Closing,
        _ => Phase::Closed,
    }
}

/// The step owed for `input` in phase `p`.
pub open spec fn step_for(p: Phase, input: Input, r: Step) -> bool {
    match (p, input) {
        (Phase::Established, Input::Received(Inbound::Text(b))) => r matches Step::Deliver(d) && d@ == b@,
        (Phase::Established, Input::Received(Inbound::Binary(b))) => r matches Step::Deliver(d) && d@ == b@,
        (Phase::Established, Input::Received(Inbound::Ping(b))) => r matches Step::Pong(d) && d@ == b@,
        (Phase::Established, Input::Received(Inbound::Close)) => r is Close,
        _ => if next_phase(p, input) == Phase::Closed {
            r is Remove
        } else {
            r is Wait
        },
    }
}

/// The protocol state of one connection.
pub struct Connection {
    phase: Phase,
}

impl Connection {
    pub closed spec fn phase(&self) -> Phase {
        self.phase
    }

    /// A connection whose first handshake attempt (made as soon as it was accepted)
    /// had the outcome `first`.
    pub fn new(first: Attempt) -> (r: Connection)
        ensures
            r.phase() == next_phase(Phase::AwaitingUpgrade, Input::Handshake(first)),
    {
        let mut c = Connection { phase: Phase::AwaitingUpgrade };
        let _ = c.handle(Input::Handshake(first));
        c
    }

    /// The current phase.
    pub fn current(&self) -> (r: Phase)
        ensures
            r == self.phase(),
    {
        self.phase
    }

    /// Whether queued broadcast items may be framed and sent now.
    pub fn accepts_deliveries(&self) -> (r: bool)
        ensures
            r == (self.phase() == Phase::Established),
    {
        self.phase == Phase::Established
    }

    /// Take one input: move to the next phase and say what to do. Every input is
    /// handled in every phase; one that does not belong there closes the connection.
    pub fn handle(&mut self, input: Input) -> (r: Step)
        ensures
            final(self).phase() == next_phase(old(self).phase(), input),
            step_for(old(self).phase(), input, r),
    {
        let p = self.phase;
        match (p, input) {
            (Phase::AwaitingUpgrade, Input::Handshake(Attempt::Complete)) => {
                self.phase = Phase::Established;
                Step::Wait
            },
            (Phase::AwaitingUpgrade, Input::Handshake(Attempt::Interrupted)) => Step::Wait,
            (Phase::AwaitingUpgrade, Input::Handshake(Attempt::Refused)) => {
                self.phase = Phase::Refusing;
                Step::Wait
            },
            (Phase::Refusing, Input::Flushed(IoStatus::WouldBlock)) => Step::Wait,
            (Phase::Refusing, Input::Received(_)) => Step::Wait,
            (Phase::Established, Input::Flushed(IoStatus::Failed)) => {
                self.phase = Phase::Closed;
                Step::Remove
            },
            (Phase::Established, Input::Flushed(_)) => Step::Wait,
            (Phase::Established, Input::Received(Inbound::Text(b))) => Step::Deliver(b),
            (Phase::Established, Input::Received(Inbound::Binary(b))) => Step::Deliver(b),
            (Phase::Established, Input::Received(Inbound::Ping(b))) => Step::Pong(b),
            (Phase::Established, Input::Received(Inbound::Close)) => {
                self.phase = Phase::Closing;
                Step::Close
            },
            (Phase::Established, Input::Received(Inbound::Failed)) => {
                self.phase = Phase::Closed;
                Step::Remove
            },
            (Phase::Established, Input::Received(_)) => Step::Wait,
            (Phase::Closing, Input::Flushed(IoStatus::WouldBlock)) => Step::Wait,
            (Phase::Closing, Input::Received(_)) => Step::Wait,
            _ => {
                self.phase = Phase::Closed;
                Step::Remove
            },
        }
    }
}

/// What a TLS session reports about its own progress.
#[derive(Debug, Clone, Copy, PartialEq, Eq, Structural)]
pub struct SessionFlags {
    pub handshaking: bool,
    pub wants_write: bool,
    pub wants_read: bool,
}

/// Before any read, write or flush, the session's pending handshake and buffered
/// ciphertext must be pushed to the socket.
pub fn needs_prior_io(f: SessionFlags) -> (r: bool)
    ensures
        r == (f.handshaking || f.wants_write),
{
    f.handshaking || f.wants_write
}

/// Outcome of a transport read.
#[derive(Debug, Clone, Copy, PartialEq, Eq, Structural)]
pub enum ReadOutcome {
    /// This many plaintext bytes were read.
    Data(usize),
    /// The peer shut the stream down in order.
    Shutdown,
    WouldBlock,
    Failed,
}

/// Classify a read: zero bytes with no would-block condition is an orderly shutdown,
/// distinct from would-block.
pub fn read_outcome(r: Result<usize, IoStatus>) -> (o: ReadOutcome)
    ensures
        o == match r {
            Ok(0) => ReadOutcome::Shutdown,
            Ok(n) => ReadOutcome::Data(n),
            Err(IoStatus::WouldBlock) => ReadOutcome::WouldBlock,
            Err(_) => ReadOutcome::Failed,
        },
{
    match r {
        Ok(0) => ReadOutcome::Shutdown,
        Ok(n) => ReadOutcome::Data(n),
        Err(IoStatus::WouldBlock) => ReadOutcome::WouldBlock,
        Err(_) => ReadOutcome::Failed,
    }
}

/// The result of a transport write, given how many plaintext bytes the session
/// took (`accepted`) and how pushing the new ciphertext to the socket went. Bytes
/// the session took are always reported, even if the push would block: the
/// ciphertext stays buffered and goes out before the next operation.
pub open spec fn write_result(accepted: usize, push: IoStatus) -> Result<usize, IoStatus> {
    match push {
        IoStatus::Failed => Err(IoStatus::Failed),
        _ => if accepted == 0 && push == IoStatus::WouldBlock {
            Err(IoStatus::WouldBlock)
        } else {
            Ok(accepted)
        },
    }
}

pub fn write_outcome(accepted: usize, push: IoStatus) -> (r: Result<usize, IoStatus>)
    ensures
        r == write_result(accepted, push),
{
    match push {
        IoStatus::Failed => Err(IoStatus::Failed),
        IoStatus::WouldBlock => if accepted == 0 {
            Err(IoStatus::WouldBlock)
        } else {
            Ok(accepted)
        },
        IoStatus::Done => Ok(accepted),
    }
}

/// A write that reports would-block took no bytes, so retrying it with the same
/// buffer repeats nothing; a write that succeeds reports exactly the bytes taken;
/// and once the socket takes the ciphertext, the write succeeds.
pub proof fn lemma_write_retry_safe(accepted: usize, push: IoStatus)
    ensures
        write_result(accepted, push) == Err::<usize, IoStatus>(IoStatus::WouldBlock) ==> accepted == 0,
        write_result(accepted, push) matches Ok(n) ==> n == accepted,
        write_result(accepted, IoStatus::Done) == Ok::<usize, IoStatus>(accepted),
{
}

/// Bytes waiting to go out on a connection, in the order they were queued.
pub struct Outbox {
    /// Bytes not yet taken by the transport.
    data: Vec<u8>,
    /// Every byte ever queued.
    queued: Ghost<Seq<u8>>,
    /// Every byte the transport has taken.
    sent: Ghost<Seq<u8>>,
}

impl Outbox {
    pub closed spec fn queued(&self) -> Seq<u8> {
        self.queued@
    }

    pub closed spec fn sent(&self) -> Seq<u8> {
        self.sent@
    }

    pub closed spec fn pending(&self) -> Seq<u8> {
        self.data@
    }

    pub closed spec fn wf(&self) -> bool {
        self.sent@ + self.data@ == self.queued@
    }

    pub fn new() -> (r: Outbox)
        ensures
            r.wf(),
            r.queued() == Seq::<u8>::empty(),
            r.sent() == Seq::<u8>::empty(),
    {
        Outbox { data: Vec::new(), queued: Ghost(Seq::empty()), sent: Ghost(Seq::empty()) }
    }

    /// Queue bytes behind those already waiting.
    pub fn push(&mut self, bytes: Vec<u8>)
        requires
            old(self).wf(),
        ensures
            final(self).wf(),
            final(self).queued() == old(self).queued() + bytes@,
            final(self).sent() == old(self).sent(),
    {
        let ghost b = bytes@;
        let mut bytes = bytes;
        self.data.append(&mut bytes);
        self.queued = Ghost(self.queued@ + b);
        assert(self.sent@ + self.data@ =~= self.queued@);
    }

    /// The bytes to hand to the next write; the same bytes again after a would-block.
    pub fn pending_bytes(&self) -> (r: &[u8])
        ensures
            r@ == self.pending(),
    {
        self.data.as_slice()
    }

    pub fn is_empty(&self) -> (r: bool)
        ensures
            r == (self.pending().len() == 0),
    {
        self.data.len() == 0
    }

    /// Record the result of writing `pending_bytes`: on `Ok(n)` the first `n` bytes
    /// are gone; otherwise nothing changes.
    pub fn record(&mut self, r: Result<usize, IoStatus>)
        requires
            old(self).wf(),
            r matches Ok(n) ==> n <= old(self).pending().len(),
        ensures
            final(self).wf(),
            final(self).queued() == old(self).queued(),
            final(self).sent() == match r {
                Ok(n) => old(self).sent() + old(self).pending().subrange(0, n as int),
                Err(_) => old(self).sent(),
            },
    {
        match r {
            Ok(n) => {
                let ghost old_data = self.data@;
                let mut rest: Vec<u8> = Vec::new();
                let mut i: usize = n;
                while i < self.data.len()
                    invariant
                        self.data@ == old_data,
                        n <= i <= old_data.len(),
                        rest@ == old_data.subrange(n as int, i as int),
                    decreases old_data.len() - i,
                {
                    rest.push(self.data[i]);
                    i = i + 1;
                    assert(rest@ =~= old_data.subrange(n as int, i as int));
                }
                self.sent = Ghost(self.sent@ + old_data.subrange(0, n as int));
                self.data = rest;
                assert(self.sent@ + self.data@ =~= self.queued@) by {
                    assert(old_data =~= old_data.subrange(0, n as int) + old_data.subrange(
                        n as int,
                        old_data.len() as int,
                    ));
                }
            },
            Err(_) => {},
        }
    }
}

/// Whatever the sequence of writes and would-blocks, the bytes taken by the
/// transport followed by those still waiting are exactly the bytes queued, in
/// order: nothing is sent twice and nothing is lost.
pub proof fn lemma_outbox_exact(o: &Outbox)
    requires
        o.wf(),
    ensures
        o.sent() + o.pending() == o.queued(),
        o.sent().len() <= o.queued().len(),
        o.sent() == o.queued().subrange(0, o.sent().len() as int),
{
    assert(o.sent() =~= o.queued().subrange(0, o.sent().len() as int));
}

} // verus!
