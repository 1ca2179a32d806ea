use kubecraft_proxy::backend::Backend;
use kubecraft_proxy::event::{handle_event, Event, EventReply};
use kubecraft_proxy::listener::{
    delete_backend_response, internal_error_status, list_backend_response, proxy_backend_from_tonic,
    put_backend_response, tonic_backend_from_proxy, ControlBackend, ControlError, Listener,
};
use kubecraft_proxy::storage::Storage;

fn backend(hostname: &str, ip: &str, port: u16) -> Backend {
    Backend::new(hostname.to_string(), ip.to_string(), port)
}

#[test]
fn test_listener_keeps_addr() {
    let listener = Listener::new("0.0.0.0:65535".to_string());
    assert_eq!(listener.addr(), "0.0.0.0:65535");
}

#[test]
fn test_handle_put_event() {
    let mut storage = Storage::new();
    let reply = handle_event(
        &mut storage,
        Event::PutBackend(backend("mc.example", "10.0.0.7", 25566)),
    );
    assert!(matches!(reply, EventReply::Done));
    assert_eq!(storage.get_backend("mc.example").unwrap().addr(), "10.0.0.7:25566");
}

#[test]
fn test_handle_delete_event() {
    let mut storage = Storage::new();
    handle_event(
        &mut storage,
        Event::PutBackend(backend("mc.example", "10.0.0.7", 25566)),
    );
    let reply = handle_event(
        &mut storage,
        Event::DeleteBackend(backend("mc.example", "ignored", 0)),
    );
    assert!(matches!(reply, EventReply::Done));
    assert!(storage.get_backend("mc.example").is_none());
}

#[test]
fn test_handle_list_event_sorted() {
    let mut storage = Storage::new();
    handle_event(&mut storage, Event::PutBackend(backend("b", "10.0.0.2", 2)));
    handle_event(&mut storage, Event::PutBackend(backend("c", "10.0.0.3", 3)));
    handle_event(&mut storage, Event::PutBackend(backend("a", "10.0.0.1", 1)));
    match handle_event(&mut storage, Event::ListBackends) {
        EventReply::Backends(bs) => {
            let names: Vec<&str> = bs.iter().map(|b| b.hostname()).collect();
            assert_eq!(names, ["a", "b", "c"]);
        }
        EventReply::Done => panic!("a list event must reply with backends"),
    }
}

#[test]
fn test_events_apply_in_order() {
    // Two puts for one hostname: the later event wins, never the earlier.
    let mut storage = Storage::new();
    handle_event(&mut storage, Event::PutBackend(backend("mc.example", "10.0.0.7", 25566)));
    handle_event(&mut storage, Event::PutBackend(backend("mc.example", "10.0.0.8", 25567)));
    assert_eq!(storage.get_backend("mc.example").unwrap().addr(), "10.0.0.8:25567");
}

#[test]
fn test_backend_from_tonic_truncates_port() {
    let wire = ControlBackend {
        hostname: "mc.example".to_string(),
        redirect_ip: "10.0.0.7".to_string(),
        redirect_port: 25566,
    };
    let b = proxy_backend_from_tonic(wire);
    assert_eq!(b.hostname(), "mc.example");
    assert_eq!(b.redirect_ip(), "10.0.0.7");
    assert_eq!(b.redirect_port(), 25566);

    let wide = ControlBackend {
        hostname: "mc.example".to_string(),
        redirect_ip: "10.0.0.7".to_string(),
        redirect_port: 70000,
    };
    assert_eq!(proxy_backend_from_tonic(wide).redirect_port(), 4464);
}

#[test]
fn test_backend_to_tonic() {
    let wire = tonic_backend_from_proxy(backend("mc.example", "10.0.0.7", 25566));
    assert_eq!(wire.hostname, "mc.example");
    assert_eq!(wire.redirect_ip, "10.0.0.7");
    assert_eq!(wire.redirect_port, 25566);
}

#[test]
fn test_unit_responses() {
    assert!(put_backend_response(Ok(())).is_ok());
    assert_eq!(
        put_backend_response(Err(ControlError::MailboxSendFailed)),
        Err("Internal server error".to_string())
    );
    assert!(delete_backend_response(Ok(())).is_ok());
    assert_eq!(
        delete_backend_response(Err(ControlError::ReplyChannelDropped)),
        Err("Internal server error".to_string())
    );
    assert_eq!(internal_error_status(), "Internal server error");
}

#[test]
fn test_list_response_converts_all() {
    let reply = vec![backend("a", "10.0.0.1", 1), backend("b", "10.0.0.2", 2)];
    let wires = list_backend_response(Ok(reply)).unwrap();
    assert_eq!(wires.len(), 2);
    assert_eq!(wires[0].hostname, "a");
    assert_eq!(wires[0].redirect_port, 1);
    assert_eq!(wires[1].hostname, "b");
    assert_eq!(wires[1].redirect_ip, "10.0.0.2");
}

#[test]
fn test_list_response_failure() {
    match list_backend_response(Err(ControlError::ReplyChannelDropped)) {
        Err(m) => assert_eq!(m, "Internal server error"),
        Ok(_) => panic!("a dropped reply channel must map to the internal status"),
    }
}
