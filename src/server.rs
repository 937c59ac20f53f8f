//! The server's decisions, as a state machine that the caller feeds with what happened on
//! the network.

use vstd::prelude::*;
use crate::handshake::AppInfo;
use crate::osc::{parse_spec, OscError, OscMessage};

verus! {

/// Where the server binds and what it advertises.
pub struct ServerConfig {
    pub info: AppInfo,
    pub bind_addr: String,
    /// Port of the data endpoint.
    pub listen_port: u16,
    /// Port of the handshake endpoint.
    pub handshake_port: u16,
}

/// The phase of a server's life.
#[derive(Clone, Copy, Debug, PartialEq, Eq, Structural)]
pub enum Phase {
    /// Binding the handshake endpoint.
    Starting,
    /// The handshake endpoint is bound; binding the data endpoint.
    BindingData,
    /// Both endpoints are bound; the commander loop receives handshake datagrams.
    Listening,
    /// A bind or a receive failed; nothing more happens.
    Stopped,
}

/// What the outside world reports back after an action.
pub enum ServerEvent {
    /// The endpoint asked for is bound.
    Bound,
    /// The endpoint asked for could not be bound.
    BindFailed,
    /// One datagram arrived on the handshake endpoint.
    Datagram(Vec<u8>),
    /// Receiving on the handshake endpoint failed.
    ReceiveFailed,
}

/// What the server asks the outside world to do next.
pub enum ServerAction {
    /// Bind the handshake endpoint on this port of the bind address.
    BindHandshake(u16),
    /// Bind the data endpoint on this port of the bind address.
    BindData(u16),
    /// Start the commander loop on the handshake endpoint and wait for a datagram.
    StartCommander,
    /// Report the address of a decoded message, then wait for the next datagram.
    Report(String),
    /// Log why a datagram was refused, then wait for the next datagram.
    Skip(OscError),
    /// Startup failed: report the bind failure; no loop is started.
    Abort,
    /// End the commander loop.
    Halt,
    /// The event does not belong to this phase: nothing to do.
    Ignore,
}

/// The server's decisions: which endpoint to bind, when to start the commander loop, and what
/// to do with each handshake datagram.
pub struct ServerMachine {
    pub config: ServerConfig,
    pub phase: Phase,
}

/// The phase after `event` in phase `p`.
pub open spec fn next_phase(p: Phase, event: ServerEvent) -> Phase {
    match (p, event) {
        (Phase::Starting, ServerEvent::Bound) => Phase::BindingData,
        (Phase::BindingData, ServerEvent::Bound) => Phase::Listening,
        (Phase::Starting, ServerEvent::BindFailed) => Phase::Stopped,
        (Phase::BindingData, ServerEvent::BindFailed) => Phase::Stopped,
        (Phase::Listening, ServerEvent::ReceiveFailed) => Phase::Stopped,
        _ => p,
    }
}

/// `a` is what the server does on `event` in phase `p`, with data port `listen_port`.
pub open spec fn action_for(p: Phase, listen_port: u16, event: ServerEvent, a: ServerAction) -> bool {
    match (p, event) {
        (Phase::Starting, ServerEvent::Bound) => a == ServerAction::BindData(listen_port),
        (Phase::BindingData, ServerEvent::Bound) => a == ServerAction::StartCommander,
        (Phase::Starting, ServerEvent::BindFailed) => a == ServerAction::Abort,
        (Phase::BindingData, ServerEvent::BindFailed) => a == ServerAction::Abort,
        (Phase::Listening, ServerEvent::Datagram(d)) => match parse_spec(d@) {
            Ok(m) => match a {
                ServerAction::Report(s) => s@ == m.0,
                _ => false,
            },
            Err(e) => a == ServerAction::Skip(e),
        },
        (Phase::Listening, ServerEvent::ReceiveFailed) => a == ServerAction::Halt,
        _ => a == ServerAction::Ignore,
    }
}

impl ServerMachine {
    /// A server about to bind its handshake endpoint.
    pub fn new(config: ServerConfig) -> (r: (ServerMachine, ServerAction))
        ensures
            r.0.config == config,
            r.0.phase == Phase::Starting,
            r.1 == ServerAction::BindHandshake(config.handshake_port),
    {
        let port = config.handshake_port;
        (ServerMachine { config, phase: Phase::Starting }, ServerAction::BindHandshake(port))
    }

    /// Takes in what happened and says what to do next. A datagram that is not an OSC message
    /// is skipped: the commander loop goes on.
    pub fn step(&mut self, event: ServerEvent) -> (a: ServerAction)
        ensures
            final(self).config == old(self).config,
            final(self).phase == next_phase(old(self).phase, event),
            action_for(old(self).phase, old(self).config.listen_port, event, a),
    {
        match (self.phase, event) {
            (Phase::Starting, ServerEvent::Bound) => {
                self.phase = Phase::BindingData;
                ServerAction::BindData(self.config.listen_port)
            },
            (Phase::BindingData, ServerEvent::Bound) => {
                self.phase = Phase::Listening;
                ServerAction::StartCommander
            },
            (Phase::Starting, ServerEvent::BindFailed) | (
                Phase::BindingData,
                ServerEvent::BindFailed,
            ) => {
                self.phase = Phase::Stopped;
                ServerAction::Abort
            },
            (Phase::Listening, ServerEvent::Datagram(d)) => match OscMessage::new(&d) {
                Ok(m) => ServerAction::Report(m.address),
                Err(e) => ServerAction::Skip(e),
            },
            (Phase::Listening, ServerEvent::ReceiveFailed) => {
                self.phase = Phase::Stopped;
                ServerAction::Halt
            },
            _ => ServerAction::Ignore,
        }
    }
}

/// While listening, every datagram, well-formed or not, leaves the commander loop listening:
/// its address is reported, or the reason it was refused is logged.
pub proof fn lemma_datagram_keeps_listening(listen_port: u16, d: Vec<u8>, a: ServerAction)
    requires
        action_for(Phase::Listening, listen_port, ServerEvent::Datagram(d), a),
    ensures
        next_phase(Phase::Listening, ServerEvent::Datagram(d)) == Phase::Listening,
        a is Report || a is Skip,
        a is Skip <==> parse_spec(d@) is Err,
{
}

} // verus!
