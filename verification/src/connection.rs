//! The connection handler's state machine.  One accepted client walks
//! accept, configure, read handshake, look the virtual host up, then
//! either dial the backend and splice, or reject and close.  `step` is
//! the whole decision logic; the driver performs each returned action on
//! the sockets and feeds the outcome back in as the next event.

use vstd::prelude::*;

use crate::backend::{spec_addr, Backend};
use crate::handshake::{Handshake, NextState};
use crate::status::{backend_not_found_frame, backend_not_found_packet};

verus! {

use vstd::string::StringExecFns;

/// Where a connection stands.
#[derive(Debug)]
pub enum ConnectionState {
    /// Accepted, nothing done yet.
    Accepted,
    /// The client socket is being prepared and read.
    Configured,
    /// The handshake is in; its virtual host is being looked up.
    Resolving { handshake: Handshake },
    /// No backend: the typed rejection is being sent.
    Rejecting { next_state: NextState },
    /// A backend was found; the upstream connection is being opened.
    Dialing { handshake: Handshake, backend_host: String },
    /// Connected upstream; the rewritten handshake is being forwarded.
    Bridging,
    /// Bytes are being copied both ways.
    Forwarding,
    /// Torn down; both sockets are released.
    Closed,
}

/// What the driver observed while performing the last action.
#[derive(Debug)]
pub enum ConnectionEvent {
    /// The connection was just accepted.
    Start,
    ConfigureOk,
    ConfigureFailed,
    HandshakeOk { handshake: Handshake },
    HandshakeFailed,
    LookupOk { backend: Backend },
    LookupMiss,
    RejectSent,
    RejectFailed,
    DialOk,
    DialFailed,
    ForwardOk,
    ForwardFailed,
    SpliceDone,
}

/// What the driver must do next.
#[derive(Debug)]
pub enum ConnectionAction {
    /// Set TCP_NODELAY on the client socket.
    Configure,
    /// Read the client's handshake frame.
    ReadHandshake,
    /// Look this virtual host up in the routing table.
    Lookup { hostname: String },
    /// Send these bytes to the client, then half-close its write side.
    SendRejection { frame: Vec<u8> },
    /// Open a TCP connection to this address and set TCP_NODELAY on it.
    Dial { addr: String },
    /// Send this handshake to the upstream socket.
    WriteHandshake { handshake: Handshake },
    /// Copy bytes both ways until either side ends, then half-close
    /// both.
    Splice,
    /// Release both sockets.
    Close,
}

/// The pairs of state and event the machine's table covers; every other
/// pair tears the connection down.
pub open spec fn step_defined(state: ConnectionState, event: ConnectionEvent) -> bool {
    ||| state is Accepted && event is Start
    ||| state is Configured && (event is ConfigureOk || event is ConfigureFailed
        || event is HandshakeOk || event is HandshakeFailed)
    ||| state is Resolving && (event is LookupOk || event is LookupMiss)
    ||| state is Rejecting && (event is RejectSent || event is RejectFailed)
    ||| state is Dialing && (event is DialOk || event is DialFailed)
    ||| state is Bridging && (event is ForwardOk || event is ForwardFailed)
    ||| state is Forwarding && event is SpliceDone
}

/// One transition of the connection state machine: the next state, and
/// the action the driver performs before reporting the next event.
pub fn step(state: ConnectionState, event: ConnectionEvent) -> (r: (
    ConnectionState,
    ConnectionAction,
))
    ensures
        state is Accepted && event is Start ==> r.0 is Configured && r.1 is Configure,
        state is Configured && event is ConfigureOk ==> r.0 is Configured
            && r.1 is ReadHandshake,
        state is Configured ==> (event matches ConnectionEvent::HandshakeOk { handshake } ==> ({
            &&& r.0 matches ConnectionState::Resolving { handshake: h } && h@ == handshake@
            &&& r.1 matches ConnectionAction::Lookup { hostname } && hostname@
                == handshake@.hostname
        })),
        state matches ConnectionState::Resolving { handshake } ==> (event
            matches ConnectionEvent::LookupOk { backend } ==> ({
            &&& r.0 matches ConnectionState::Dialing { handshake: h, backend_host } && h@
                == handshake@ && backend_host@ == backend@.redirect_ip
            &&& r.1 matches ConnectionAction::Dial { addr } && addr@ == spec_addr(backend@)
        })),
        state matches ConnectionState::Resolving { handshake } ==> (event is LookupMiss ==> ({
            &&& r.0 matches ConnectionState::Rejecting { next_state } && next_state
                == handshake@.next_state
            &&& r.1 matches ConnectionAction::SendRejection { frame } && frame@
                == backend_not_found_frame(handshake@.next_state)
        })),
        state matches ConnectionState::Dialing { handshake, backend_host } ==> (event
            is DialOk ==> ({
            &&& r.0 is Bridging
            &&& r.1 matches ConnectionAction::WriteHandshake { handshake: h }
            &&& h@.hostname == backend_host@
            &&& h@.version == handshake@.version
            &&& h@.port == handshake@.port
            &&& h@.next_state == handshake@.next_state
        })),
        state is Bridging && event is ForwardOk ==> r.0 is Forwarding && r.1 is Splice,
        state is Configured && (event is ConfigureFailed || event is HandshakeFailed)
            ==> r.0 is Closed && r.1 is Close,
        state is Rejecting && (event is RejectSent || event is RejectFailed) ==> r.0 is Closed
            && r.1 is Close,
        state is Dialing && event is DialFailed ==> r.0 is Closed && r.1 is Close,
        state is Bridging && event is ForwardFailed ==> r.0 is Closed && r.1 is Close,
        state is Forwarding && event is SpliceDone ==> r.0 is Closed && r.1 is Close,
        !step_defined(state, event) ==> r.0 is Closed && r.1 is Close,
{
    match (state, event) {
        (ConnectionState::Accepted, ConnectionEvent::Start) => (
            ConnectionState::Configured,
            ConnectionAction::Configure,
        ),
        (ConnectionState::Configured, ConnectionEvent::ConfigureOk) => (
            ConnectionState::Configured,
            ConnectionAction::ReadHandshake,
        ),
        (ConnectionState::Configured, ConnectionEvent::HandshakeOk { handshake }) => {
            let hostname = handshake.hostname();
            (ConnectionState::Resolving { handshake }, ConnectionAction::Lookup { hostname })
        },
        (ConnectionState::Resolving { handshake }, ConnectionEvent::LookupOk { backend }) => {
            let addr = backend.addr();
            let backend_host = String::from_str(backend.redirect_ip());
            (
                ConnectionState::Dialing { handshake, backend_host },
                ConnectionAction::Dial { addr },
            )
        },
        (ConnectionState::Resolving { handshake }, ConnectionEvent::LookupMiss) => {
            let next_state = handshake.next_state();
            let frame = backend_not_found_packet(next_state);
            (ConnectionState::Rejecting { next_state }, ConnectionAction::SendRejection { frame })
        },
        (ConnectionState::Dialing { handshake, backend_host }, ConnectionEvent::DialOk) => {
            let mut handshake = handshake;
            handshake.set_hostname(backend_host);
            (ConnectionState::Bridging, ConnectionAction::WriteHandshake { handshake })
        },
        (ConnectionState::Bridging, ConnectionEvent::ForwardOk) => (
            ConnectionState::Forwarding,
            ConnectionAction::Splice,
        ),
        _ => (ConnectionState::Closed, ConnectionAction::Close),
    }
}

/// The client-side bind address: every interface, on the given port or
/// the proxy's default of 25565.
pub fn proxy_bind_addr(port: Option<String>) -> (r: String)
    ensures
        match port {
            Some(p) => r@ == "0.0.0.0:"@ + p@,
            None => r@ == "0.0.0.0:25565"@,
        },
{
    match port {
        Some(p) => {
            let mut s = String::from_str("0.0.0.0:");
            s.append(p.as_str());
            s
        },
        None => String::from_str("0.0.0.0:25565"),
    }
}

/// The control-plane bind address: every interface, on the given port or
/// the listener's default of 65535.
pub fn control_bind_addr(port: Option<String>) -> (r: String)
    ensures
        match port {
            Some(p) => r@ == "0.0.0.0:"@ + p@,
            None => r@ == "0.0.0.0:65535"@,
        },
{
    match port {
        Some(p) => {
            let mut s = String::from_str("0.0.0.0:");
            s.append(p.as_str());
            s
        },
        None => String::from_str("0.0.0.0:65535"),
    }
}

} // verus!
