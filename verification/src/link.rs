//! The connection-lifecycle state machine of the device link.
//!
//! The link owns at most one connection and is never partially open: it is
//! either `Disconnected` or `Connected`.  The socket itself stays with the
//! caller, which drives this machine: before touching the wire it asks
//! [`Link::needs_open`], and after the attempt it records the outcome with
//! [`Link::opened`], [`Link::open_failed`] or [`Link::disconnect`].

use vstd::prelude::*;

verus! {

/// The fixed budget of one blocking write, in milliseconds.
pub const WRITE_TIMEOUT_MS: u64 = 250;

/// The capacity of the single bounded read a reply arrives in.  The
/// protocol is assumed to fit one read; nothing accumulates across reads.
pub const RECEIVE_BUFFER_LEN: usize = 512;

/// The two states of the link.
#[derive(Clone, Copy, PartialEq, Eq, Structural, Debug)]
pub enum LinkState {
    Disconnected,
    Connected,
}

/// The state after a connect: connected, whatever held before (a connect
/// on an already connected link is a no-op).
pub open spec fn connect_step(s: LinkState) -> LinkState {
    LinkState::Connected
}

/// The state after a disconnect: disconnected, whatever held before (a
/// disconnect on an already disconnected link is a no-op).
pub open spec fn disconnect_step(s: LinkState) -> LinkState {
    LinkState::Disconnected
}

/// Connecting twice in a row leaves the link exactly as connecting once
/// does, and disconnecting twice exactly as disconnecting once.
pub proof fn lemma_transitions_idempotent(s: LinkState)
    ensures
        connect_step(connect_step(s)) == connect_step(s),
        disconnect_step(disconnect_step(s)) == disconnect_step(s),
{
}

/// The connection lifecycle of one device link.
pub struct Link {
    state: LinkState,
}

impl Link {
    /// The current state.
    pub closed spec fn state(&self) -> LinkState {
        self.state
    }

    /// A fresh link starts disconnected.
    pub fn new() -> (l: Link)
        ensures
            l.state() == LinkState::Disconnected,
    {
        Link { state: LinkState::Disconnected }
    }

    /// Whether the link is connected.
    pub fn is_connected(&self) -> (b: bool)
        ensures
            b == (self.state() == LinkState::Connected),
    {
        match self.state {
            LinkState::Connected => true,
            LinkState::Disconnected => false,
        }
    }

    /// Whether a connect must open a socket: only from `Disconnected`;
    /// on a connected link a connect is a no-op.
    pub fn needs_open(&self) -> (b: bool)
        ensures
            b == (self.state() == LinkState::Disconnected),
    {
        match self.state {
            LinkState::Connected => false,
            LinkState::Disconnected => true,
        }
    }

    /// Record a completed connect: a socket was opened, or one was already
    /// open.  The link is now connected.
    pub fn opened(&mut self)
        ensures
            final(self).state() == connect_step(old(self).state()),
    {
        self.state = LinkState::Connected;
    }

    /// Record a failed connect attempt.  Opening was only attempted from
    /// `Disconnected`, and the link stays there.
    pub fn open_failed(&mut self)
        requires
            old(self).state() == LinkState::Disconnected,
        ensures
            final(self).state() == LinkState::Disconnected,
    {
        self.state = LinkState::Disconnected;
    }

    /// Record a disconnect.  Teardown is best-effort and unconditional:
    /// whatever the socket shutdown reported, the link is disconnected.
    pub fn disconnect(&mut self)
        ensures
            final(self).state() == disconnect_step(old(self).state()),
    {
        self.state = LinkState::Disconnected;
    }
}

} // verus!
