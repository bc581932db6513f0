//! Fan-out behaviour: completeness, delivery to the sender, and isolation
//! of one recipient's failure.

use chat_fanout::messages::{ChatMessage, OutboundHandle};
use chat_fanout::registry::ChatServer;

fn text(s: &str) -> ChatMessage {
    ChatMessage(s.to_string())
}

fn closed_handle() -> OutboundHandle {
    let mut h = OutboundHandle::new();
    h.close();
    h
}

#[test]
fn broadcast_reaches_every_registered_session_exactly_once() {
    let mut server = ChatServer::new();
    server.connect(1, OutboundHandle::new());
    server.connect(2, OutboundHandle::new());
    server.connect(3, OutboundHandle::new());

    server.broadcast(&text("hello"));

    for id in [1, 2, 3] {
        let handle = server.handle_of(id).unwrap();
        assert_eq!(handle.attempts, vec!["hello".to_string()]);
        assert_eq!(handle.delivered, vec!["hello".to_string()]);
    }
    assert_eq!(server.len(), 3);
}

#[test]
fn broadcast_to_empty_registry_does_nothing() {
    let mut server = ChatServer::new();
    server.broadcast(&text("into the void"));
    assert_eq!(server.len(), 0);
}

#[test]
fn payload_is_fanned_out_verbatim() {
    let mut server = ChatServer::new();
    server.connect(4, OutboundHandle::new());
    let payload = "  spaces, \"quotes\" and unicode: \u{00e9}\u{4e16}  ";
    server.broadcast(&text(payload));
    assert_eq!(server.handle_of(4).unwrap().delivered, vec![payload.to_string()]);
}

#[test]
fn one_dead_transport_does_not_stop_the_rest() {
    let mut server = ChatServer::new();
    server.connect(1, OutboundHandle::new());
    server.connect(2, closed_handle());
    server.connect(3, OutboundHandle::new());

    server.broadcast(&text("still here"));

    // The dead recipient records the attempt but no delivery...
    let dead = server.handle_of(2).unwrap();
    assert_eq!(dead.attempts, vec!["still here".to_string()]);
    assert!(dead.delivered.is_empty());

    // ...while both others receive the payload, and the registry is intact.
    for id in [1, 3] {
        assert_eq!(server.handle_of(id).unwrap().delivered, vec!["still here".to_string()]);
    }
    assert_eq!(server.len(), 3);
}

#[test]
fn per_sender_order_is_kept_per_recipient() {
    let mut server = ChatServer::new();
    server.connect(1, OutboundHandle::new());
    server.connect(2, OutboundHandle::new());

    server.broadcast(&text("first"));
    server.broadcast(&text("second"));

    for id in [1, 2] {
        assert_eq!(
            server.handle_of(id).unwrap().delivered,
            vec!["first".to_string(), "second".to_string()]
        );
    }
}
