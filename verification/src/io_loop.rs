//! Decision core of the I/O loop. The loop itself runs on one dedicated
//! thread and performs the socket reads and writes; every decision it takes
//! and every byte it stages is computed here, on plain values: readiness
//! and loop-lifecycle state, serialization of queued frames into the send
//! buffer, the pending-write ledger walk that resolves completion promises
//! in submission order, parsing and dispatch of inbound frames in arrival
//! order, and critical-error teardown. The reactor's wait/wake primitive and
//! the heartbeat timer's clock belong to collaborators; the engine records
//! whether the heartbeat is armed and with which interval.

use vstd::prelude::*;
use amq_protocol::frame::AMQPFrame;
use crate::buffer::Buffer;
use crate::codec::{encode_frame, frame_encoding, frame_parse, parse_frame_bytes, Parsed};
use crate::commands::InternalCommand;
use crate::outbound::{
    ack_fired, ack_left, fail_entries, fail_queued, ledger_ids, ledger_total, lemma_ack,
    lemma_ids_of_resolutions, lemma_ledger_ids_push, lemma_ledger_total_push,
    lemma_queue_ids_push, lemma_resolved_ids_add, opt_ids, positive_lens, queue_ids,
    resolutions_of, resolved_ids, FrameQueue, LedgerEntry, Outcome, PendingLedger, QueuedFrame,
    Resolution,
};
use crate::status::{Configuration, ConnectionState, ConnectionStatus, Error};

verus! {

/// How many frames of the negotiated maximum size each buffer can hold.
pub const FRAMES_STORAGE: usize = 32;

/// The protocol's lower bound on the negotiated frame maximum, in bytes.
pub const FRAME_MIN_SIZE: usize = 4096;

/// Reply code sent to the peer for a protocol frame error.
pub const REPLY_FRAME_ERROR: u16 = 501;

/// Lifecycle of the loop itself: `Initial` until the handshake collaborator
/// reports the connection established, then `Connected`, then `Stop`,
/// terminal.
#[derive(Clone, Copy, Debug, PartialEq, Eq, Structural)]
pub enum Status {
    Initial,
    Connected,
    Stop,
}

/// Socket readiness as last reported by the reactor.
#[derive(Clone, Copy, Debug, PartialEq, Eq, Structural)]
pub struct SocketState {
    pub readable: bool,
    pub writable: bool,
}

/// The bytes that serializing these frames appends to the send buffer: each
/// frame's encoding, in queue order.
pub open spec fn staged_bytes(s: Seq<QueuedFrame>) -> Seq<u8>
    decreases s.len(),
{
    if s.len() == 0 {
        Seq::<u8>::empty()
    } else {
        frame_encoding(s[0].frame) + staged_bytes(s.skip(1))
    }
}

pub proof fn lemma_staged_bytes_push(s: Seq<QueuedFrame>, f: QueuedFrame)
    ensures
        staged_bytes(s.push(f)) == staged_bytes(s) + frame_encoding(f.frame),
    decreases s.len(),
{
    if s.len() == 0 {
        assert(s.push(f)[0] == f);
        assert(s.push(f).skip(1) =~= Seq::<QueuedFrame>::empty());
        assert(staged_bytes(s.push(f)) == frame_encoding(f.frame) + staged_bytes(
            Seq::<QueuedFrame>::empty(),
        ));
        assert(staged_bytes(s.push(f)) =~= staged_bytes(s) + frame_encoding(f.frame));
    } else {
        assert(s.push(f)[0] == s[0]);
        assert(s.push(f).skip(1) =~= s.skip(1).push(f));
        lemma_staged_bytes_push(s.skip(1), f);
        assert(staged_bytes(s.push(f)) == frame_encoding(s[0].frame) + staged_bytes(
            s.skip(1).push(f),
        ));
        assert(staged_bytes(s.push(f)) =~= staged_bytes(s) + frame_encoding(f.frame));
    }
}

/// Repeatedly parsing frames off the front of `input`, rejecting any frame
/// whose encoded size exceeds `frame_max` (when `frame_max` is nonzero):
/// the frames delivered in arrival order, the bytes left unconsumed, and
/// the fatal error if one arises. An empty window, like an incomplete
/// parse, just awaits more bytes.
pub open spec fn parse_run(input: Seq<u8>, frame_max: int) -> (Seq<AMQPFrame>, Seq<u8>, Option<
    Error,
>)
    decreases input.len(),
{
    if input.len() == 0 {
        (Seq::<AMQPFrame>::empty(), input, None)
    } else {
        match frame_parse(input) {
            Parsed::Frame(f, rest) => {
                if rest >= input.len() {
                    (Seq::<AMQPFrame>::empty(), input, Some(Error::ParsingError))
                } else {
                    let consumed = input.len() - rest;
                    if frame_max > 0 && consumed > frame_max {
                        (Seq::<AMQPFrame>::empty(), input, Some(Error::FrameTooLarge))
                    } else {
                        let tail = parse_run(input.skip(consumed as int), frame_max);
                        (seq![f] + tail.0, tail.1, tail.2)
                    }
                }
            },
            Parsed::Incomplete => (Seq::<AMQPFrame>::empty(), input, None),
            Parsed::Fatal => (Seq::<AMQPFrame>::empty(), input, Some(Error::ParsingError)),
        }
    }
}

/// The engine of one connection's I/O loop.
pub struct IoLoop {
    pub connection_status: ConnectionStatus,
    pub configuration: Configuration,
    pub status: Status,
    pub frame_size: usize,
    pub socket: SocketState,
    pub frames: FrameQueue,
    pub ledger: PendingLedger,
    pub send_buffer: Buffer,
    pub receive_buffer: Buffer,
    /// Promise resolutions handed back to callers, in resolution order.
    pub resolved: Vec<Resolution>,
    /// Connection-level commands for the internal command channel.
    pub command_outbox: Vec<InternalCommand>,
    pub heartbeat_armed: bool,
    pub heartbeat_interval_millis: u64,
    /// Every promise id ever submitted with a frame, in submission order.
    pub submitted: Ghost<Seq<u64>>,
}

/// The frame size the loop adopts at construction.
pub open spec fn initial_frame_size(configuration: Configuration) -> int {
    if configuration.frame_max > FRAME_MIN_SIZE as int {
        configuration.frame_max as int
    } else {
        FRAME_MIN_SIZE as int
    }
}

impl IoLoop {
    /// Engine invariant: buffers well formed, the ledger's unflushed byte
    /// sum equal to the bytes staged in the send buffer, and every submitted
    /// promise id accounted for exactly once — resolved, pending in the
    /// ledger, or pending in the queue, in that order.
    pub open spec fn wf(self) -> bool {
        &&& self.connection_status.wf()
        &&& self.send_buffer.wf()
        &&& self.receive_buffer.wf()
        &&& positive_lens(self.ledger@)
        &&& ledger_total(self.ledger@) == self.send_buffer@.len()
        &&& self.submitted@ == resolved_ids(self.resolved@) + ledger_ids(self.ledger@)
            + queue_ids(self.frames@)
    }

    pub fn new(connection_status: ConnectionStatus, configuration: Configuration) -> (r: IoLoop)
        requires
            connection_status.wf(),
            FRAMES_STORAGE * initial_frame_size(configuration) <= usize::MAX as int,
        ensures
            r.wf(),
            r.connection_status == connection_status,
            r.configuration == configuration,
            r.status == Status::Initial,
            r.frame_size as int == initial_frame_size(configuration),
            r.send_buffer.capacity == FRAMES_STORAGE * r.frame_size,
            r.receive_buffer.capacity == FRAMES_STORAGE * r.frame_size,
            r.send_buffer@.len() == 0,
            r.receive_buffer@.len() == 0,
            r.frames@.len() == 0,
            r.ledger@.len() == 0,
            r.resolved@.len() == 0,
            r.command_outbox@.len() == 0,
            !r.socket.readable && !r.socket.writable,
            !r.heartbeat_armed,
            r.submitted@ == Seq::<u64>::empty(),
    {
        let fm = configuration.frame_max() as usize;
        let frame_size = if fm > FRAME_MIN_SIZE {
            fm
        } else {
            FRAME_MIN_SIZE
        };
        assert(frame_size as int == initial_frame_size(configuration));
        let capacity = FRAMES_STORAGE * frame_size;
        let r = IoLoop {
            connection_status,
            configuration,
            status: Status::Initial,
            frame_size,
            socket: SocketState { readable: false, writable: false },
            frames: FrameQueue::new(),
            ledger: PendingLedger::new(),
            send_buffer: Buffer::with_capacity(capacity),
            receive_buffer: Buffer::with_capacity(capacity),
            resolved: Vec::new(),
            command_outbox: Vec::new(),
            heartbeat_armed: false,
            heartbeat_interval_millis: 0,
            submitted: Ghost(Seq::empty()),
        };
        proof {
            assert(r.submitted@ =~= resolved_ids(r.resolved@) + ledger_ids(r.ledger@) + queue_ids(
                r.frames@,
            ));
        }
        r
    }

    /// The frame size adopted once the negotiated frame maximum is known.
    pub open spec fn setup_frame_size(self) -> int {
        if self.configuration.frame_max as int > self.frame_size as int {
            self.configuration.frame_max as int
        } else {
            self.frame_size as int
        }
    }

    /// Once the shared status reports the connection established: adopt the
    /// negotiated frame maximum, grow both buffers to match, arm the
    /// heartbeat if a nonzero interval was negotiated, and enter
    /// `Connected`.
    pub fn finish_setup(&mut self) -> (r: bool)
        requires
            old(self).wf(),
            FRAMES_STORAGE * old(self).setup_frame_size() <= usize::MAX as int,
        ensures
            final(self).wf(),
            r == true,
            old(self).connection_status.state != ConnectionState::Connected ==> *final(self)
                == *old(self),
            old(self).connection_status.state == ConnectionState::Connected ==> {
                &&& *final(self) == (IoLoop {
                    status: final(self).status,
                    frame_size: final(self).frame_size,
                    send_buffer: final(self).send_buffer,
                    receive_buffer: final(self).receive_buffer,
                    heartbeat_armed: final(self).heartbeat_armed,
                    heartbeat_interval_millis: final(self).heartbeat_interval_millis,
                    ..*old(self)
                })
                &&& final(self).status == Status::Connected
                &&& final(self).frame_size as int == old(self).setup_frame_size()
                &&& final(self).send_buffer@ == old(self).send_buffer@
                &&& final(self).receive_buffer@ == old(self).receive_buffer@
                &&& final(self).send_buffer.capacity as int == (
                if FRAMES_STORAGE as int * final(self).frame_size as int > old(self).send_buffer.capacity as int {
                    FRAMES_STORAGE as int * final(self).frame_size as int
                } else {
                    old(self).send_buffer.capacity as int
                })
                &&& final(self).receive_buffer.capacity as int == (
                if FRAMES_STORAGE as int * final(self).frame_size as int > old(self).receive_buffer.capacity as int {
                    FRAMES_STORAGE as int * final(self).frame_size as int
                } else {
                    old(self).receive_buffer.capacity as int
                })
                &&& final(self).heartbeat_armed == (old(self).configuration.heartbeat != 0)
                &&& final(self).heartbeat_interval_millis == old(self).configuration.heartbeat as u64 * 500
            },
    {
        if self.connection_status.connected() {
            let fm = self.configuration.frame_max() as usize;
            if fm > self.frame_size {
                self.frame_size = fm;
            }
            let target = FRAMES_STORAGE * self.frame_size;
            self.send_buffer.grow(target);
            self.receive_buffer.grow(target);
            let heartbeat = self.configuration.heartbeat();
            if heartbeat != 0 {
                self.heartbeat_interval_millis = crate::status::heartbeat_timeout_millis(
                    heartbeat,
                );
                self.heartbeat_armed = true;
            } else {
                self.heartbeat_armed = false;
                self.heartbeat_interval_millis = 0;
            }
            self.status = Status::Connected;
        }
        true
    }

    /// Attempt to finish setup while `Initial`; report whether the loop may
    /// keep running (`Stop` says no).
    pub fn ensure_setup(&mut self) -> (r: bool)
        requires
            old(self).wf(),
            FRAMES_STORAGE * old(self).setup_frame_size() <= usize::MAX as int,
        ensures
            final(self).wf(),
            r == (old(self).status != Status::Stop),
            old(self).status != Status::Initial ==> *final(self) == *old(self),
            old(self).status == Status::Initial && old(self).connection_status.state
                != ConnectionState::Connected ==> *final(self) == *old(self),
            old(self).status == Status::Initial && old(self).connection_status.state
                == ConnectionState::Connected ==> final(self).status == Status::Connected
                && final(self).frame_size as int == old(self).setup_frame_size(),
    {
        match self.status {
            Status::Initial => self.finish_setup(),
            Status::Connected => true,
            Status::Stop => false,
        }
    }

    /// Whether anything awaits transmission: queued frames, staged bytes, or
    /// unflushed ledger entries.
    pub fn has_data(&self) -> (r: bool)
        requires
            self.wf(),
        ensures
            r == (self.frames@.len() > 0 || self.send_buffer@.len() > 0 || self.ledger@.len() > 0),
    {
        self.frames.has_pending() || self.send_buffer.available_data() > 0
            || self.ledger.has_pending()
    }

    pub fn can_write(&self) -> (r: bool)
        requires
            self.wf(),
        ensures
            r == (self.socket.writable && (self.frames@.len() > 0 || self.send_buffer@.len() > 0
                || self.ledger@.len() > 0) && !self.connection_status.blocked),
    {
        self.socket.writable && self.has_data() && !self.connection_status.blocked()
    }

    pub fn can_read(&self) -> (r: bool)
        requires
            self.wf(),
        ensures
            r == (self.socket.readable && self.receive_buffer.capacity
                - self.receive_buffer@.len() > 0),
    {
        self.socket.readable && self.receive_buffer.available_space() > 0
    }

    pub fn can_parse(&self) -> (r: bool)
        requires
            self.wf(),
        ensures
            r == (self.receive_buffer@.len() > 0),
    {
        self.receive_buffer.available_data() > 0
    }

    /// The loop continues while it is not yet connected or the shared status
    /// still reports connected or closing, it was not stopped, and no error
    /// was recorded.
    pub fn should_continue(&self) -> (r: bool)
        ensures
            r == ((self.status != Status::Connected || self.connection_status.state
                == ConnectionState::Connected || self.connection_status.state
                == ConnectionState::Closing) && self.status != Status::Stop
                && self.connection_status.state != ConnectionState::Error),
    {
        (!matches!(self.status, Status::Connected) || self.connection_status.connected()
            || self.connection_status.closing()) && !matches!(self.status, Status::Stop)
            && !self.connection_status.errored()
    }

    /// When neither reading nor writing is possible and the loop still
    /// runs, it blocks on the reactor's wait primitive until woken.
    pub fn needs_wait(&self) -> (r: bool)
        requires
            self.wf(),
        ensures
            r == (!(self.socket.readable && self.receive_buffer.capacity
                - self.receive_buffer@.len() > 0) && !(self.socket.writable && (self.frames@.len()
                > 0 || self.send_buffer@.len() > 0 || self.ledger@.len() > 0)
                && !self.connection_status.blocked) && (self.status != Status::Connected
                || self.connection_status.state == ConnectionState::Connected
                || self.connection_status.state == ConnectionState::Closing) && self.status
                != Status::Stop && self.connection_status.state != ConnectionState::Error),
    {
        !self.can_read() && !self.can_write() && self.should_continue()
    }

    /// A closed connection stops the loop.
    pub fn check_connection_state(&mut self)
        ensures
            old(self).connection_status.state == ConnectionState::Closed ==> *final(self) == (
            IoLoop { status: Status::Stop, ..*old(self) }),
            old(self).connection_status.state != ConnectionState::Closed ==> *final(self) == *old(self),
    {
        if self.connection_status.closed() {
            self.status = Status::Stop;
        }
    }

    /// The reactor reported readiness or a would-block cleared it.
    pub fn set_readable(&mut self, readable: bool)
        ensures
            *final(self) == (IoLoop {
                socket: SocketState { readable, ..old(self).socket },
                ..*old(self)
            }),
    {
        self.socket.readable = readable;
    }

    pub fn set_writable(&mut self, writable: bool)
        ensures
            *final(self) == (IoLoop {
                socket: SocketState { writable, ..old(self).socket },
                ..*old(self)
            }),
    {
        self.socket.writable = writable;
    }

    /// Submit a frame for transmission; its optional promise id is resolved
    /// once the frame's bytes are fully on the wire.
    pub fn send_frame(&mut self, frame: AMQPFrame, promise: Option<u64>)
        requires
            old(self).wf(),
        ensures
            final(self).wf(),
            *final(self) == (IoLoop {
                frames: final(self).frames,
                submitted: final(self).submitted,
                ..*old(self)
            }),
            final(self).frames@ == old(self).frames@.push(
                QueuedFrame { frame, promise },
            ),
            final(self).submitted@ == old(self).submitted@ + opt_ids(promise),
    {
        let qf = QueuedFrame { frame, promise };
        proof {
            lemma_queue_ids_push(self.frames@, QueuedFrame { frame, promise });
        }
        self.frames.push(qf);
        proof {
            self.submitted@ = self.submitted@ + opt_ids(promise);
            assert(self.submitted@ =~= resolved_ids(self.resolved@) + ledger_ids(self.ledger@)
                + queue_ids(self.frames@));
        }
    }

    /// Unrecoverable error: record the cause in the shared status, stop the
    /// loop, and fail every outstanding write-completion promise with that
    /// cause, in submission order — ledger entries first, then still-queued
    /// frames.
    pub fn critical_error(&mut self, err: Error)
        requires
            old(self).wf(),
        ensures
            final(self).wf(),
            *final(self) == (IoLoop {
                connection_status: final(self).connection_status,
                status: Status::Stop,
                frames: final(self).frames,
                ledger: final(self).ledger,
                send_buffer: final(self).send_buffer,
                resolved: final(self).resolved,
                ..*old(self)
            }),
            final(self).connection_status.state == ConnectionState::Error,
            final(self).connection_status.cause == Some(err),
            final(self).connection_status.blocked == old(self).connection_status.blocked,
            final(self).frames@.len() == 0,
            final(self).ledger@.len() == 0,
            final(self).send_buffer@.len() == 0,
            final(self).send_buffer.capacity == old(self).send_buffer.capacity,
            final(self).resolved@ == old(self).resolved@ + resolutions_of(
                ledger_ids(old(self).ledger@) + queue_ids(old(self).frames@),
                Outcome::Failed(err),
            ),
    {
        self.status = Status::Stop;
        self.connection_status.set_error(err);
        let entries = self.ledger.drain();
        fail_entries(&entries, err, &mut self.resolved);
        let queued = self.frames.drain();
        fail_queued(&queued, err, &mut self.resolved);
        let staged = self.send_buffer.available_data();
        self.send_buffer.consume(staged);
        proof {
            crate::outbound::lemma_resolutions_of_add(
                ledger_ids(old(self).ledger@),
                queue_ids(old(self).frames@),
                Outcome::Failed(err),
            );
            assert(self.resolved@ =~= old(self).resolved@ + resolutions_of(
                ledger_ids(old(self).ledger@) + queue_ids(old(self).frames@),
                Outcome::Failed(err),
            ));
            assert(self.send_buffer@ =~= Seq::<u8>::empty());
            lemma_resolved_ids_add(
                old(self).resolved@,
                resolutions_of(
                    ledger_ids(old(self).ledger@) + queue_ids(old(self).frames@),
                    Outcome::Failed(err),
                ),
            );
            lemma_ids_of_resolutions(
                ledger_ids(old(self).ledger@) + queue_ids(old(self).frames@),
                Outcome::Failed(err),
            );
            assert(self.submitted@ =~= resolved_ids(self.resolved@) + ledger_ids(self.ledger@)
                + queue_ids(self.frames@));
        }
    }

    /// Serialize queued frames into the send buffer while room allows,
    /// gated by the connection's flow-control state: each popped frame's
    /// encoding is appended to the staged bytes and its length and promise
    /// recorded in the ledger. Serialization stops only for a stated
    /// reason: flow control, an emptied queue, or a frame that does not
    /// fit, which is requeued at the head — backpressure, not an error.
    /// Any other encoding failure is fatal and fails every outstanding
    /// promise with the cause.
    pub fn serialize(&mut self, flow: bool) -> (r: Result<(), Error>)
        requires
            old(self).wf(),
        ensures
            final(self).wf(),
            !flow ==> (r matches Ok(()) && *final(self) == *old(self)),
            r matches Ok(()) ==> {
                &&& flow ==> final(self).frames@.len() == 0 || final(self).send_buffer@.len()
                    + frame_encoding(final(self).frames@[0].frame).len() > final(self).send_buffer.capacity
                &&& exists|k: int|
                    0 <= k <= old(self).frames@.len() && (#[trigger] final(self).frames@) == old(self).frames@.skip(k) && final(self).send_buffer@ == old(self).send_buffer@
                        + staged_bytes(old(self).frames@.take(k)) && *final(self) == (IoLoop {
                        frames: final(self).frames,
                        ledger: final(self).ledger,
                        send_buffer: final(self).send_buffer,
                        ..*old(self)
                    })
            },
            r matches Err(e) ==> e == Error::SerialisationError && *final(self) == (IoLoop {
                connection_status: final(self).connection_status,
                status: final(self).status,
                frames: final(self).frames,
                ledger: final(self).ledger,
                send_buffer: final(self).send_buffer,
                resolved: final(self).resolved,
                ..*old(self)
            }) && final(self).status == Status::Stop && final(self).connection_status.state
                == ConnectionState::Error && final(self).connection_status.cause == Some(e)
                && final(self).frames@.len() == 0 && final(self).ledger@.len() == 0 && final(self).send_buffer@.len() == 0 && final(self).resolved@ == old(self).resolved@
                + resolutions_of(
                ledger_ids(old(self).ledger@) + queue_ids(old(self).frames@),
                Outcome::Failed(e),
            ) && final(self).submitted == old(self).submitted,
    {
        let ghost q0 = self.frames@;
        let ghost b0 = self.send_buffer@;
        let ghost mut k: int = 0;
        proof {
            assert(q0.skip(0) =~= q0);
            assert(b0 + staged_bytes(q0.take(0)) =~= b0);
        }
        if !flow {
            // Frames are withheld while the connection reports itself
            // blocked.
            proof {
                assert(self.frames@ == q0.skip(0) && self.send_buffer@ == b0 + staged_bytes(
                    q0.take(0),
                ) && *self == (IoLoop {
                    frames: self.frames,
                    ledger: self.ledger,
                    send_buffer: self.send_buffer,
                    ..*old(self)
                }));
            }
            return Ok(());
        }
        loop
            invariant
                flow,
                self.wf(),
                0 <= k <= q0.len(),
                q0 == old(self).frames@,
                b0 == old(self).send_buffer@,
                self.frames@ == q0.skip(k),
                self.send_buffer@ == b0 + staged_bytes(q0.take(k)),
                ledger_ids(self.ledger@) + queue_ids(self.frames@) == ledger_ids(
                    old(self).ledger@,
                ) + queue_ids(old(self).frames@),
                *self == (IoLoop {
                    frames: self.frames,
                    ledger: self.ledger,
                    send_buffer: self.send_buffer,
                    ..*old(self)
                }),
            decreases q0.len() - k,
        {
            let next = self.frames.pop(flow);
            match next {
                None => {
                    // The queue is drained.
                    proof {
                        assert(self.frames@.len() == 0);
                        assert(self.frames@ == q0.skip(k) && self.send_buffer@ == b0
                            + staged_bytes(q0.take(k)) && *self == (IoLoop {
                            frames: self.frames,
                            ledger: self.ledger,
                            send_buffer: self.send_buffer,
                            ..*old(self)
                        }));
                    }
                    return Ok(());
                },
                Some(qf) => {
                    proof {
                        assert(q0.skip(k)[0] == q0[k]);
                        assert(q0.skip(k).skip(1) =~= q0.skip(k + 1));
                    }
                    match encode_frame(&qf.frame) {
                        Err(_e) => {
                            self.frames.retry(qf);
                            proof {
                                assert(self.frames@ =~= q0.skip(k));
                            }
                            self.critical_error(Error::SerialisationError);
                            return Err(Error::SerialisationError);
                        },
                        Ok(bytes) => {
                            let space = self.send_buffer.available_space();
                            if bytes.len() <= space {
                                let ghost pre_ledger = self.ledger@;
                                let entry = LedgerEntry {
                                    len: bytes.len() as u64,
                                    promise: qf.promise,
                                };
                                self.send_buffer.push_bytes(&bytes);
                                self.ledger.push(entry);
                                proof {
                                    lemma_ledger_ids_push(pre_ledger, entry);
                                    lemma_ledger_total_push(pre_ledger, entry);
                                    assert(q0.take(k + 1) =~= q0.take(k).push(q0[k]));
                                    lemma_staged_bytes_push(q0.take(k), q0[k]);
                                    assert(bytes@ == frame_encoding(q0[k].frame));
                                    assert(self.send_buffer@ =~= b0 + staged_bytes(
                                        q0.take(k + 1),
                                    ));
                                    assert(queue_ids(q0.skip(k)) == opt_ids(q0[k].promise)
                                        + queue_ids(q0.skip(k + 1)));
                                    k = k + 1;
                                    assert(self.submitted@ =~= resolved_ids(self.resolved@)
                                        + ledger_ids(self.ledger@) + queue_ids(self.frames@));
                                    assert(ledger_ids(self.ledger@) + queue_ids(self.frames@)
                                        =~= ledger_ids(old(self).ledger@) + queue_ids(
                                        old(self).frames@,
                                    ));
                                }
                            } else {
                                // No room for this frame's encoding:
                                // requeue it at the head and stop this
                                // iteration.
                                self.frames.retry(qf);
                                proof {
                                    assert(self.frames@ =~= q0.skip(k));
                                    assert(self.frames@[0] == q0[k]);
                                    assert(frame_encoding(self.frames@[0].frame) == bytes@);
                                    assert(self.send_buffer@.len() + frame_encoding(
                                        self.frames@[0].frame,
                                    ).len() > self.send_buffer.capacity);
                                    assert(self.frames@ == q0.skip(k) && self.send_buffer@ == b0
                                        + staged_bytes(q0.take(k)) && *self == (IoLoop {
                                        frames: self.frames,
                                        ledger: self.ledger,
                                        send_buffer: self.send_buffer,
                                        ..*old(self)
                                    }));
                                }
                                return Ok(());
                            }
                        },
                    }
                },
            }
        }
    }

    /// The staged bytes awaiting transmission, for the socket writer.
    pub fn outgoing(&self) -> (r: Vec<u8>)
        requires
            self.wf(),
        ensures
            r@ == self.send_buffer@,
    {
        self.send_buffer.contents()
    }

    /// A successful socket write of `n` bytes: consume them from the send
    /// buffer and walk the ledger, resolving every fully covered promise in
    /// submission order. A write of zero bytes while the socket reported
    /// writable is a would-block: the writable flag clears and nothing else
    /// changes.
    pub fn on_bytes_written(&mut self, n: usize)
        requires
            old(self).wf(),
            n <= old(self).send_buffer@.len(),
        ensures
            final(self).wf(),
            n == 0 ==> *final(self) == (IoLoop {
                socket: SocketState { writable: false, ..old(self).socket },
                ..*old(self)
            }),
            n > 0 ==> {
                &&& *final(self) == (IoLoop {
                    ledger: final(self).ledger,
                    send_buffer: final(self).send_buffer,
                    resolved: final(self).resolved,
                    ..*old(self)
                })
                &&& final(self).send_buffer@ == old(self).send_buffer@.skip(n as int)
                &&& final(self).send_buffer.capacity == old(self).send_buffer.capacity
                &&& final(self).ledger@ == ack_left(old(self).ledger@, n as int)
                &&& final(self).resolved@ == old(self).resolved@ + resolutions_of(
                    ack_fired(old(self).ledger@, n as int),
                    Outcome::Done,
                )
            },
    {
        if n == 0 {
            self.socket.writable = false;
            return;
        }
        self.send_buffer.consume(n);
        self.ledger.ack(n as u64, &mut self.resolved);
        proof {
            lemma_ack(old(self).ledger@, n as int);
            lemma_resolved_ids_add(
                old(self).resolved@,
                resolutions_of(ack_fired(old(self).ledger@, n as int), Outcome::Done),
            );
            lemma_ids_of_resolutions(ack_fired(old(self).ledger@, n as int), Outcome::Done);
            assert(self.submitted@ =~= resolved_ids(self.resolved@) + ledger_ids(self.ledger@)
                + queue_ids(self.frames@));
        }
    }

    /// How many bytes the reader may pull from the socket: the room left in
    /// the receive buffer.
    pub fn read_budget(&self) -> (r: usize)
        requires
            self.wf(),
        ensures
            r == self.receive_buffer.capacity - self.receive_buffer@.len(),
    {
        self.receive_buffer.available_space()
    }

    /// Bytes read from the socket. Reading is skipped entirely on a closed
    /// connection and fatal on an errored one; a read of zero bytes while
    /// the socket reported readable is a would-block: the readable flag
    /// clears and the receive cursor does not move.
    pub fn on_bytes_read(&mut self, data: &Vec<u8>) -> (r: Result<(), Error>)
        requires
            old(self).wf(),
            data@.len() <= old(self).receive_buffer.capacity - old(self).receive_buffer@.len(),
        ensures
            final(self).wf(),
            old(self).connection_status.state == ConnectionState::Closed ==> (r matches Ok(())
                && *final(self) == *old(self)),
            old(self).connection_status.state == ConnectionState::Error ==> (r matches Err(e) && e
                == Error::InvalidConnectionState(ConnectionState::Error) && final(self).status
                == Status::Stop && final(self).frames@.len() == 0 && final(self).ledger@.len()
                == 0),
            old(self).connection_status.state != ConnectionState::Closed && old(self).connection_status.state != ConnectionState::Error ==> {
                &&& data@.len() == 0 ==> (r matches Ok(()) && *final(self) == (IoLoop {
                    socket: SocketState { readable: false, ..old(self).socket },
                    ..*old(self)
                }))
                &&& data@.len() > 0 ==> (r matches Ok(()) && *final(self) == (IoLoop {
                    receive_buffer: final(self).receive_buffer,
                    ..*old(self)
                }) && final(self).receive_buffer@ == old(self).receive_buffer@ + data@ && final(self).receive_buffer.capacity == old(self).receive_buffer.capacity)
            },
    {
        if self.connection_status.closed() {
            return Ok(());
        }
        if self.connection_status.errored() {
            let err = Error::InvalidConnectionState(ConnectionState::Error);
            self.critical_error(err);
            return Err(err);
        }
        if data.len() == 0 {
            self.socket.readable = false;
            return Ok(());
        }
        self.receive_buffer.push_bytes(data);
        Ok(())
    }

    /// Parse and deliver every complete frame in the receive window, in
    /// arrival order. A frame whose encoded size exceeds the negotiated
    /// nonzero frame maximum is never delivered: a connection-close
    /// notification for the peer is placed on the command outbox and the
    /// connection goes to `Error`. A fatal parse error likewise tears the
    /// connection down; an incomplete parse just awaits more bytes.
    pub fn handle_frames(&mut self) -> (r: (Vec<AMQPFrame>, Result<(), Error>))
        requires
            old(self).wf(),
        ensures
            final(self).wf(),
            r.0@ == parse_run(
                old(self).receive_buffer@,
                old(self).configuration.frame_max as int,
            ).0,
            r.1 matches Ok(()) ==> parse_run(
                old(self).receive_buffer@,
                old(self).configuration.frame_max as int,
            ).2 is None && *final(self) == (IoLoop {
                receive_buffer: final(self).receive_buffer,
                ..*old(self)
            }) && final(self).receive_buffer@ == parse_run(
                old(self).receive_buffer@,
                old(self).configuration.frame_max as int,
            ).1 && final(self).receive_buffer.capacity == old(self).receive_buffer.capacity,
            r.1 matches Err(e) ==> Some(e) == parse_run(
                old(self).receive_buffer@,
                old(self).configuration.frame_max as int,
            ).2 && final(self).status == Status::Stop && final(self).connection_status.state
                == ConnectionState::Error && final(self).connection_status.cause == Some(e)
                && final(self).frames@.len() == 0 && final(self).ledger@.len() == 0 && final(self).send_buffer@.len() == 0 && final(self).resolved@ == old(self).resolved@ + resolutions_of(
                ledger_ids(old(self).ledger@) + queue_ids(old(self).frames@),
                Outcome::Failed(e),
            ) && final(self).receive_buffer@ == parse_run(
                old(self).receive_buffer@,
                old(self).configuration.frame_max as int,
            ).1 && final(self).submitted == old(self).submitted && (e == Error::FrameTooLarge ==> final(self).command_outbox@.len() == old(self).command_outbox@.len() + 1 && final(self).command_outbox@.last() is CloseConnection),
    {
        let ghost v0 = self.receive_buffer@;
        let ghost fm = self.configuration.frame_max as int;
        let mut dispatched: Vec<AMQPFrame> = Vec::new();
        proof {
            assert(parse_run(v0, fm).0 =~= dispatched@ + parse_run(self.receive_buffer@, fm).0);
        }
        while self.receive_buffer.available_data() > 0
            invariant
                self.wf(),
                v0 == old(self).receive_buffer@,
                fm == old(self).configuration.frame_max as int,
                parse_run(v0, fm).0 == dispatched@ + parse_run(self.receive_buffer@, fm).0,
                parse_run(v0, fm).1 == parse_run(self.receive_buffer@, fm).1,
                parse_run(v0, fm).2 == parse_run(self.receive_buffer@, fm).2,
                *self == (IoLoop { receive_buffer: self.receive_buffer, ..*old(self) }),
                self.receive_buffer.capacity == old(self).receive_buffer.capacity,
            decreases self.receive_buffer@.len(),
        {
            let window = self.receive_buffer.contents();
            let ghost cur = self.receive_buffer@;
            match parse_frame_bytes(&window) {
                Parsed::Incomplete => {
                    proof {
                        assert(parse_run(cur, fm).0 =~= Seq::<AMQPFrame>::empty());
                        assert(dispatched@ + parse_run(cur, fm).0 =~= dispatched@);
                    }
                    return (dispatched, Ok(()));
                },
                Parsed::Fatal => {
                    self.critical_error(Error::ParsingError);
                    proof {
                        assert(parse_run(cur, fm).2 == Some(Error::ParsingError));
                        assert(parse_run(cur, fm).1 == cur);
                        assert(self.receive_buffer@ == cur);
                        assert(dispatched@ + parse_run(cur, fm).0 =~= dispatched@);
                    }
                    return (dispatched, Err(Error::ParsingError));
                },
                Parsed::Frame(frame, rest) => {
                    let consumed = window.len() - rest;
                    let frame_max = self.configuration.frame_max();
                    if frame_max > 0 && consumed > frame_max as usize {
                        self.command_outbox.push(
                            InternalCommand::CloseConnection(
                                REPLY_FRAME_ERROR,
                                String::new(),
                                0,
                                0,
                            ),
                        );
                        self.critical_error(Error::FrameTooLarge);
                        proof {
                            assert(parse_run(cur, fm).2 == Some(Error::FrameTooLarge));
                            assert(parse_run(cur, fm).1 == cur);
                            assert(self.receive_buffer@ == cur);
                            assert(dispatched@ + parse_run(cur, fm).0 =~= dispatched@);
                        }
                        return (dispatched, Err(Error::FrameTooLarge));
                    }
                    self.receive_buffer.consume(consumed);
                    dispatched.push(frame);
                    proof {
                        let tail = parse_run(cur.skip(consumed as int), fm);
                        assert(parse_run(cur, fm).0 == seq![frame] + tail.0);
                        assert(self.receive_buffer@ == cur.skip(consumed as int));
                        assert(parse_run(v0, fm).0 =~= dispatched@ + parse_run(
                            self.receive_buffer@,
                            fm,
                        ).0);
                    }
                },
            }
        }
        proof {
            assert(self.receive_buffer@.len() == 0);
            assert(parse_run(self.receive_buffer@, fm).0 =~= Seq::<AMQPFrame>::empty());
            assert(dispatched@ + parse_run(self.receive_buffer@, fm).0 =~= dispatched@);
        }
        (dispatched, Ok(()))
    }

    /// On loop exit the heartbeat is cancelled: it never fires after
    /// `Stop`. The internal command processor is stopped by the caller
    /// through the command channel's sentinel.
    pub fn on_loop_exit(&mut self)
        ensures
            *final(self) == (IoLoop {
                heartbeat_armed: false,
                heartbeat_interval_millis: old(self).heartbeat_interval_millis,
                ..*old(self)
            }),
    {
        self.heartbeat_armed = false;
    }
}

/// Write-completion promises resolve strictly in submission order, each
/// exactly once: in any well-formed engine state the resolved ids are
/// exactly the first resolved-many submitted ids, and if the submitted ids
/// are distinct, no id is ever resolved twice.
pub proof fn lemma_resolution_order(engine: IoLoop)
    requires
        engine.wf(),
    ensures
        resolved_ids(engine.resolved@) == engine.submitted@.take(
            resolved_ids(engine.resolved@).len() as int,
        ),
        engine.submitted@.no_duplicates() ==> resolved_ids(engine.resolved@).no_duplicates(),
{
    let r = resolved_ids(engine.resolved@);
    let s = engine.submitted@;
    assert(s.take(r.len() as int) =~= r);
    if s.no_duplicates() {
        assert forall|i: int, j: int|
            0 <= i < r.len() && 0 <= j < r.len() && i != j implies r[i] != r[j] by {
            assert(s[i] == r[i]);
            assert(s[j] == r[j]);
        }
        assert(r.no_duplicates());
    }
}

} // verus!
