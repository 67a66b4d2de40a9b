//! Shared connection status: a monotonic state lattice checked at every loop
//! iteration boundary, the negotiated configuration values, and the
//! connection-level error taxonomy.

use vstd::prelude::*;

verus! {

/// Connection-level errors. Would-block and incomplete-parse conditions are
/// not errors and never appear here.
#[derive(Clone, Copy, Debug, PartialEq, Eq, Structural)]
pub enum Error {
    /// An operation was attempted in a state that forbids it.
    InvalidConnectionState(ConnectionState),
    /// A frame could not be serialized for a reason other than lack of room.
    SerialisationError,
    /// Inbound bytes could not be parsed as a frame (fatal, not incomplete).
    ParsingError,
    /// A parsed frame's encoded size exceeds the negotiated frame maximum.
    FrameTooLarge,
    /// A transport error other than would-block.
    IoError,
    /// An internal command failed to execute.
    CommandError,
}

/// The states of the shared connection state machine. Transitions are
/// monotonic toward `Closed` / `Error`, never backward.
#[derive(Clone, Copy, Debug, PartialEq, Eq, Structural)]
pub enum ConnectionState {
    Initial,
    Connecting,
    Connected,
    Closing,
    Closed,
    Error,
}

/// Position of a state in the monotonic lattice.
pub open spec fn state_rank(s: ConnectionState) -> int {
    match s {
        ConnectionState::Initial => 0,
        ConnectionState::Connecting => 1,
        ConnectionState::Connected => 2,
        ConnectionState::Closing => 3,
        ConnectionState::Closed => 4,
        ConnectionState::Error => 5,
    }
}

/// One shared state machine instance, visible to all threads (callers hold
/// it behind their own lock). Also carries the broker's flow-control signal
/// and, once errored, the cause.
pub struct ConnectionStatus {
    pub state: ConnectionState,
    pub blocked: bool,
    pub cause: Option<Error>,
}

impl ConnectionStatus {
    /// The cause is recorded exactly when the machine is in `Error`.
    pub open spec fn wf(self) -> bool {
        self.cause is Some <==> self.state == ConnectionState::Error
    }

    pub fn new() -> (r: ConnectionStatus)
        ensures
            r.wf(),
            r.state == ConnectionState::Initial,
            !r.blocked,
    {
        ConnectionStatus { state: ConnectionState::Initial, blocked: false, cause: None }
    }

    fn rank(s: ConnectionState) -> (r: u8)
        ensures
            r as int == state_rank(s),
    {
        match s {
            ConnectionState::Initial => 0,
            ConnectionState::Connecting => 1,
            ConnectionState::Connected => 2,
            ConnectionState::Closing => 3,
            ConnectionState::Closed => 4,
            ConnectionState::Error => 5,
        }
    }

    /// Advance toward `target`; a step backward in the lattice is refused and
    /// leaves the state unchanged. `Error` is entered through `set_error`.
    pub fn advance(&mut self, target: ConnectionState) -> (moved: bool)
        requires
            old(self).wf(),
            target != ConnectionState::Error,
        ensures
            final(self).wf(),
            moved == (state_rank(target) > state_rank(old(self).state)),
            final(self).state == if state_rank(target) > state_rank(old(self).state) {
                target
            } else {
                old(self).state
            },
            state_rank(final(self).state) >= state_rank(old(self).state),
            final(self).blocked == old(self).blocked,
            final(self).cause == old(self).cause,
    {
        if Self::rank(target) > Self::rank(self.state) {
            self.state = target;
            true
        } else {
            false
        }
    }

    /// Record a fatal error with its cause; terminal in the lattice.
    pub fn set_error(&mut self, cause: Error)
        requires
            old(self).wf(),
        ensures
            final(self).wf(),
            final(self).state == ConnectionState::Error,
            final(self).cause == Some(cause),
            state_rank(final(self).state) >= state_rank(old(self).state),
            final(self).blocked == old(self).blocked,
    {
        self.state = ConnectionState::Error;
        self.cause = Some(cause);
    }

    /// Flow control: the broker asked us to pause outbound publication.
    pub fn set_blocked(&mut self, blocked: bool)
        ensures
            final(self).state == old(self).state,
            final(self).cause == old(self).cause,
            final(self).blocked == blocked,
            old(self).wf() ==> final(self).wf(),
    {
        self.blocked = blocked;
    }

    pub fn state(&self) -> (r: ConnectionState)
        ensures
            r == self.state,
    {
        self.state
    }

    pub fn connected(&self) -> (r: bool)
        ensures
            r == (self.state == ConnectionState::Connected),
    {
        matches!(self.state, ConnectionState::Connected)
    }

    pub fn closing(&self) -> (r: bool)
        ensures
            r == (self.state == ConnectionState::Closing),
    {
        matches!(self.state, ConnectionState::Closing)
    }

    pub fn closed(&self) -> (r: bool)
        ensures
            r == (self.state == ConnectionState::Closed),
    {
        matches!(self.state, ConnectionState::Closed)
    }

    pub fn errored(&self) -> (r: bool)
        ensures
            r == (self.state == ConnectionState::Error),
    {
        matches!(self.state, ConnectionState::Error)
    }

    pub fn blocked(&self) -> (r: bool)
        ensures
            r == self.blocked,
    {
        self.blocked
    }
}

/// Negotiated configuration values, written by the handshake collaborator
/// and read-only here: the frame maximum in bytes and the heartbeat interval
/// in seconds (0 disables the heartbeat).
#[derive(Clone, Copy, Debug, PartialEq, Eq, Structural)]
pub struct Configuration {
    pub frame_max: u32,
    pub heartbeat: u16,
}

impl Configuration {
    pub fn new(frame_max: u32, heartbeat: u16) -> (r: Configuration)
        ensures
            r.frame_max == frame_max,
            r.heartbeat == heartbeat,
    {
        Configuration { frame_max, heartbeat }
    }

    pub fn frame_max(&self) -> (r: u32)
        ensures
            r == self.frame_max,
    {
        self.frame_max
    }

    pub fn heartbeat(&self) -> (r: u16)
        ensures
            r == self.heartbeat,
    {
        self.heartbeat
    }
}

/// The armed heartbeat timer interval in milliseconds: half the negotiated
/// period, which is given in seconds.
pub fn heartbeat_timeout_millis(heartbeat: u16) -> (r: u64)
    ensures
        r == heartbeat as u64 * 500,
{
    heartbeat as u64 * 500
}

} // verus!
