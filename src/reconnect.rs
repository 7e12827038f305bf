//! Outbound links: a connection this process opens to a peer that is always
//! expected to be there, retried with a fixed delay for as long as it runs.

use vstd::prelude::*;
use crate::session::OriginKind;

verus! {

/// Wait between a failed or dropped link and the next attempt.
pub const RECONNECT_DELAY_MS: u64 = 1000;

#[derive(Clone, Copy, Debug, PartialEq, Eq, Structural)]
pub enum LinkState {
    /// An attempt to connect is under way.
    Connecting,
    /// Connected; the session has this id.
    Connected(u32),
    /// Waiting out the delay before the next attempt.
    Waiting,
}

/// What happened to the link.
#[derive(Clone, Copy, Debug, PartialEq, Eq, Structural)]
pub enum LinkEvent {
    /// The attempt succeeded and its session got this id.
    ConnectSucceeded(u32),
    ConnectFailed,
    /// The session ended: end of stream, or a read or write failure.
    Dropped,
    DelayElapsed,
}

/// What the caller is to do next.
#[derive(Clone, Copy, Debug, PartialEq, Eq, Structural)]
pub enum LinkAction {
    Connect,
    Sleep(u64),
    Nothing,
}

/// The link's next state and action after `evt`. Events that do not fit
/// the state change nothing.
pub open spec fn next_link(state: LinkState, evt: LinkEvent) -> (LinkState, LinkAction) {
    match (state, evt) {
        (LinkState::Connecting, LinkEvent::ConnectSucceeded(id)) => (
            LinkState::Connected(id),
            LinkAction::Nothing,
        ),
        (LinkState::Connecting, LinkEvent::ConnectFailed) => (
            LinkState::Waiting,
            LinkAction::Sleep(RECONNECT_DELAY_MS),
        ),
        (LinkState::Connected(_), LinkEvent::Dropped) => (
            LinkState::Waiting,
            LinkAction::Sleep(RECONNECT_DELAY_MS),
        ),
        (LinkState::Waiting, LinkEvent::DelayElapsed) => (LinkState::Connecting, LinkAction::Connect),
        _ => (state, LinkAction::Nothing),
    }
}

/// One outbound link and where it goes.
pub struct Reconnector {
    pub addr: String,
    pub port: u16,
    pub kind: OriginKind,
    state: LinkState,
}

impl Reconnector {
    pub closed spec fn spec_state(&self) -> LinkState {
        self.state
    }

    /// A link about to make its first attempt.
    pub fn new(addr: String, port: u16, kind: OriginKind) -> (r: Reconnector)
        ensures
            r.spec_state() == LinkState::Connecting,
    {
        Reconnector { addr, port, kind, state: LinkState::Connecting }
    }

    pub fn state(&self) -> (r: LinkState)
        ensures
            r == self.spec_state(),
    {
        self.state
    }

    /// Moves the link on after `evt` and says what to do next.
    pub fn on_event(&mut self, evt: LinkEvent) -> (r: LinkAction)
        ensures
            (final(self).spec_state(), r) == next_link(old(self).spec_state(), evt),
    {
        let (next, action) = match (self.state, evt) {
            (LinkState::Connecting, LinkEvent::ConnectSucceeded(id)) => (
                LinkState::Connected(id),
                LinkAction::Nothing,
            ),
            (LinkState::Connecting, LinkEvent::ConnectFailed) => (
                LinkState::Waiting,
                LinkAction::Sleep(RECONNECT_DELAY_MS),
            ),
            (LinkState::Connected(_), LinkEvent::Dropped) => (
                LinkState::Waiting,
                LinkAction::Sleep(RECONNECT_DELAY_MS),
            ),
            (LinkState::Waiting, LinkEvent::DelayElapsed) => (
                LinkState::Connecting,
                LinkAction::Connect,
            ),
            (s, _) => (s, LinkAction::Nothing),
        };
        self.state = next;
        action
    }
}

/// A link never gives up: from any state, after a failure or drop it
/// waits the fixed delay, then tries again, and a success connects it under
/// the new session's id.
pub proof fn lemma_link_retries(state: LinkState, failure: LinkEvent, new_id: u32)
    requires
        (state == LinkState::Connecting && failure == LinkEvent::ConnectFailed) || (
        state is Connected && failure == LinkEvent::Dropped),
    ensures
        next_link(state, failure) == (LinkState::Waiting, LinkAction::Sleep(RECONNECT_DELAY_MS)),
        next_link(LinkState::Waiting, LinkEvent::DelayElapsed) == (
            LinkState::Connecting,
            LinkAction::Connect,
        ),
        next_link(LinkState::Connecting, LinkEvent::ConnectSucceeded(new_id)) == (
            LinkState::Connected(new_id),
            LinkAction::Nothing,
        ),
{
}

} // verus!
