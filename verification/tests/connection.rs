use kubecraft_proxy::backend::Backend;
use kubecraft_proxy::connection::{
    control_bind_addr, proxy_bind_addr, step, ConnectionAction, ConnectionEvent, ConnectionState,
};
use kubecraft_proxy::handshake::{Handshake, NextState};
use kubecraft_proxy::status::backend_not_found_packet;
use kubecraft_proxy::storage::Storage;

#[test]
fn test_put_then_route() {
    // The control plane stores a backend; a client handshake for its
    // hostname walks the machine to the splice, dialling the stored
    // address with a rewritten handshake.
    let mut storage = Storage::new();
    storage.add_backend(Backend::new(
        "mc.example".to_string(),
        "10.0.0.7".to_string(),
        25566,
    ));

    let (state, action) = step(ConnectionState::Accepted, ConnectionEvent::Start);
    assert!(matches!(action, ConnectionAction::Configure));

    let (state, action) = step(state, ConnectionEvent::ConfigureOk);
    assert!(matches!(action, ConnectionAction::ReadHandshake));

    let handshake = Handshake::new(47, "mc.example".to_string(), 25565, NextState::Login);
    let (state, action) = step(state, ConnectionEvent::HandshakeOk { handshake });
    let hostname = match action {
        ConnectionAction::Lookup { hostname } => hostname,
        _ => panic!("a read handshake must trigger a lookup"),
    };
    assert_eq!(hostname, "mc.example");

    let backend = storage.get_backend(&hostname).unwrap();
    let (state, action) = step(state, ConnectionEvent::LookupOk { backend });
    match &action {
        ConnectionAction::Dial { addr } => assert_eq!(addr, "10.0.0.7:25566"),
        _ => panic!("a lookup hit must trigger a dial"),
    }

    let (state, action) = step(state, ConnectionEvent::DialOk);
    match action {
        ConnectionAction::WriteHandshake { handshake } => {
            assert_eq!(handshake.hostname(), "10.0.0.7");
            assert_eq!(handshake.version(), 47);
            assert_eq!(handshake.port(), 25565);
            assert_eq!(handshake.next_state(), NextState::Login);
        }
        _ => panic!("a successful dial must forward the handshake"),
    }

    let (state, action) = step(state, ConnectionEvent::ForwardOk);
    assert!(matches!(state, ConnectionState::Forwarding));
    assert!(matches!(action, ConnectionAction::Splice));

    let (state, action) = step(state, ConnectionEvent::SpliceDone);
    assert!(matches!(state, ConnectionState::Closed));
    assert!(matches!(action, ConnectionAction::Close));
}

#[test]
fn test_unknown_host_rejected() {
    let handshake = Handshake::new(47, "unknown.example".to_string(), 25565, NextState::Login);
    let (state, _) = step(
        ConnectionState::Configured,
        ConnectionEvent::HandshakeOk { handshake },
    );
    let (state, action) = step(state, ConnectionEvent::LookupMiss);
    assert!(matches!(state, ConnectionState::Rejecting { .. }));
    match action {
        ConnectionAction::SendRejection { frame } => {
            assert_eq!(frame, backend_not_found_packet(NextState::Login));
        }
        _ => panic!("a lookup miss must send the rejection"),
    }
    let (state, action) = step(state, ConnectionEvent::RejectSent);
    assert!(matches!(state, ConnectionState::Closed));
    assert!(matches!(action, ConnectionAction::Close));
}

#[test]
fn test_unknown_host_status_variant() {
    let handshake = Handshake::new(110, "unknown.example".to_string(), 25565, NextState::Status);
    let (state, _) = step(
        ConnectionState::Configured,
        ConnectionEvent::HandshakeOk { handshake },
    );
    let (_, action) = step(state, ConnectionEvent::LookupMiss);
    match action {
        ConnectionAction::SendRejection { frame } => {
            assert_eq!(frame, backend_not_found_packet(NextState::Status));
        }
        _ => panic!("a lookup miss must send the rejection"),
    }
}

#[test]
fn test_rewrite_preserves_port_and_next_state() {
    let handshake = Handshake::new(47, "pvp.example".to_string(), 25565, NextState::Login);
    let backend = Backend::new("pvp.example".to_string(), "1.2.3.4".to_string(), 5555);
    let (state, _) = step(
        ConnectionState::Configured,
        ConnectionEvent::HandshakeOk { handshake },
    );
    let (state, action) = step(state, ConnectionEvent::LookupOk { backend });
    match &action {
        ConnectionAction::Dial { addr } => assert_eq!(addr, "1.2.3.4:5555"),
        _ => panic!("a lookup hit must trigger a dial"),
    }
    let (_, action) = step(state, ConnectionEvent::DialOk);
    match action {
        ConnectionAction::WriteHandshake { handshake } => {
            assert_eq!(handshake.version(), 47);
            assert_eq!(handshake.hostname(), "1.2.3.4");
            assert_eq!(handshake.port(), 25565);
            assert_eq!(handshake.next_state(), NextState::Login);
        }
        _ => panic!("a successful dial must forward the handshake"),
    }
}

#[test]
fn test_failures_close_the_connection() {
    let events = [
        (ConnectionState::Configured, ConnectionEvent::ConfigureFailed),
        (ConnectionState::Configured, ConnectionEvent::HandshakeFailed),
        (ConnectionState::Bridging, ConnectionEvent::ForwardFailed),
        (ConnectionState::Forwarding, ConnectionEvent::SpliceDone),
    ];
    for (state, event) in events {
        let (next, action) = step(state, event);
        assert!(matches!(next, ConnectionState::Closed));
        assert!(matches!(action, ConnectionAction::Close));
    }
    let handshake = Handshake::new(47, "mc.example".to_string(), 25565, NextState::Login);
    let (state, _) = step(
        ConnectionState::Configured,
        ConnectionEvent::HandshakeOk { handshake },
    );
    let (state, _) = step(
        state,
        ConnectionEvent::LookupOk {
            backend: Backend::new("mc.example".to_string(), "10.0.0.7".to_string(), 25566),
        },
    );
    let (next, action) = step(state, ConnectionEvent::DialFailed);
    assert!(matches!(next, ConnectionState::Closed));
    assert!(matches!(action, ConnectionAction::Close));
}

#[test]
fn test_unexpected_event_closes() {
    let (next, action) = step(ConnectionState::Accepted, ConnectionEvent::SpliceDone);
    assert!(matches!(next, ConnectionState::Closed));
    assert!(matches!(action, ConnectionAction::Close));
}

#[test]
fn test_bind_addrs() {
    assert_eq!(proxy_bind_addr(None), "0.0.0.0:25565");
    assert_eq!(proxy_bind_addr(Some("2000".to_string())), "0.0.0.0:2000");
    assert_eq!(control_bind_addr(None), "0.0.0.0:65535");
    assert_eq!(control_bind_addr(Some("9000".to_string())), "0.0.0.0:9000");
}
