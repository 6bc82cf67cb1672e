//! The server's counters: descriptors opened and closed, connections
//! listed and lost.

use vstd::prelude::*;

verus! {

/// The counters as numbers without a bound.
pub struct StatsView {
    /// Descriptors handed to the server by the listener.
    pub fds_opened: nat,
    /// Descriptors that the server has asked to close.
    pub fds_closed: nat,
    /// Times a connection was put on the list of live connections.
    pub connections_received: nat,
    /// Times a connection was struck off the list because it could not be
    /// registered for readiness.
    pub connections_lost: nat,
}

impl StatsView {
    /// All counters at zero.
    pub open spec fn zero() -> StatsView {
        StatsView { fds_opened: 0, fds_closed: 0, connections_received: 0, connections_lost: 0 }
    }

    /// Whether every counter can still be raised by one.
    pub open spec fn has_room(self) -> bool {
        &&& self.fds_opened < u64::MAX
        &&& self.fds_closed < u64::MAX
        &&& self.connections_received < u64::MAX
        &&& self.connections_lost < u64::MAX
    }

    /// One more descriptor opened.
    pub open spec fn opened(self) -> StatsView {
        StatsView { fds_opened: self.fds_opened + 1, ..self }
    }

    /// One more descriptor closed.
    pub open spec fn closed(self) -> StatsView {
        StatsView { fds_closed: self.fds_closed + 1, ..self }
    }

    /// One more connection listed.
    pub open spec fn received(self) -> StatsView {
        StatsView { connections_received: self.connections_received + 1, ..self }
    }

    /// One more connection lost.
    pub open spec fn lost(self) -> StatsView {
        StatsView { connections_lost: self.connections_lost + 1, ..self }
    }
}

/// The counters.
#[derive(Clone, Copy, Debug, PartialEq, Eq)]
pub struct Stats {
    /// Descriptors handed to the server by the listener.
    pub fds_opened: u64,
    /// Descriptors that the server has asked to close.
    pub fds_closed: u64,
    /// Times a connection was put on the list of live connections.
    pub connections_received: u64,
    /// Times a connection was struck off the list because it could not be
    /// registered for readiness.
    pub connections_lost: u64,
}

impl View for Stats {
    type V = StatsView;

    open spec fn view(&self) -> StatsView {
        StatsView {
            fds_opened: self.fds_opened as nat,
            fds_closed: self.fds_closed as nat,
            connections_received: self.connections_received as nat,
            connections_lost: self.connections_lost as nat,
        }
    }
}

impl Stats {
    /// Counters that have counted nothing.
    pub fn new() -> (s: Stats)
        ensures
            s@ == StatsView::zero(),
    {
        Stats { fds_opened: 0, fds_closed: 0, connections_received: 0, connections_lost: 0 }
    }

    /// Whether every counter can still be raised by one.
    pub fn has_room(&self) -> (b: bool)
        ensures
            b == self@.has_room(),
    {
        self.fds_opened < u64::MAX && self.fds_closed < u64::MAX && self.connections_received
            < u64::MAX && self.connections_lost < u64::MAX
    }

    /// Counts a descriptor that the listener has accepted.
    pub fn fd_opened(&mut self)
        requires
            old(self)@.fds_opened < u64::MAX,
        ensures
            final(self)@ == old(self)@.opened(),
    {
        self.fds_opened = self.fds_opened + 1;
    }

    /// Counts a descriptor that is being closed.
    pub fn fd_closed(&mut self)
        requires
            old(self)@.fds_closed < u64::MAX,
        ensures
            final(self)@ == old(self)@.closed(),
    {
        self.fds_closed = self.fds_closed + 1;
    }

    /// Counts a connection that is being listed.
    pub fn conn_recv(&mut self)
        requires
            old(self)@.connections_received < u64::MAX,
        ensures
            final(self)@ == old(self)@.received(),
    {
        self.connections_received = self.connections_received + 1;
    }

    /// Counts a connection that is struck off the list.
    pub fn conn_lost(&mut self)
        requires
            old(self)@.connections_lost < u64::MAX,
        ensures
            final(self)@ == old(self)@.lost(),
    {
        self.connections_lost = self.connections_lost + 1;
    }
}

} // verus!
