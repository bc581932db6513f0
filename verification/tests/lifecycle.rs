//! Connection lifecycle behaviour of the registry: idempotent disconnects,
//! defensive overwrite on duplicate connects, and fresh state on reconnect.

use chat_fanout::messages::{ChatMessage, OutboundHandle};
use chat_fanout::registry::ChatServer;

fn text(s: &str) -> ChatMessage {
    ChatMessage(s.to_string())
}

#[test]
fn disconnect_of_unknown_id_is_a_noop() {
    let mut server = ChatServer::new();
    server.connect(1, OutboundHandle::new());
    server.connect(2, OutboundHandle::new());
    assert_eq!(server.len(), 2);

    server.disconnect(99);
    assert_eq!(server.len(), 2);
    assert!(server.contains(1));
    assert!(server.contains(2));
    assert!(!server.contains(99));
}

#[test]
fn repeated_disconnect_only_removes_once() {
    let mut server = ChatServer::new();
    server.connect(1, OutboundHandle::new());
    server.connect(2, OutboundHandle::new());

    server.disconnect(1);
    assert_eq!(server.len(), 1);
    assert!(!server.contains(1));
    assert!(server.contains(2));

    server.disconnect(1);
    server.disconnect(1);
    assert_eq!(server.len(), 1);
    assert!(!server.contains(1));
    assert!(server.contains(2));
}

#[test]
fn disconnect_on_empty_registry_is_a_noop() {
    let mut server = ChatServer::new();
    server.disconnect(5);
    assert_eq!(server.len(), 0);
    assert!(!server.contains(5));
}

#[test]
fn duplicate_connect_overwrites_with_the_new_handle() {
    let mut server = ChatServer::new();
    server.connect(1, OutboundHandle::new());
    server.broadcast(&text("before"));
    assert_eq!(server.handle_of(1).unwrap().attempts, vec!["before".to_string()]);

    // A second connect for a registered id is a caller bug that the
    // registry absorbs: last writer wins, and the old write history is gone.
    server.connect(1, OutboundHandle::new());
    assert_eq!(server.len(), 1);
    assert!(server.handle_of(1).unwrap().attempts.is_empty());

    server.broadcast(&text("after"));
    assert_eq!(server.handle_of(1).unwrap().attempts, vec!["after".to_string()]);
}

#[test]
fn reconnect_after_removal_is_a_fresh_registration() {
    let mut server = ChatServer::new();
    server.connect(7, OutboundHandle::new());
    server.broadcast(&text("old news"));
    server.disconnect(7);
    assert!(!server.contains(7));

    server.connect(7, OutboundHandle::new());
    assert!(server.contains(7));
    let handle = server.handle_of(7).unwrap();
    assert!(handle.live);
    assert!(handle.attempts.is_empty());
    assert!(handle.delivered.is_empty());
}

#[test]
fn membership_ops_on_distinct_ids_agree_under_any_order() {
    // One membership operation per id: connect 1, connect 2, disconnect 3.
    // Applied in every order to the same starting registry, the final
    // membership is identical.
    let orders: [[u8; 3]; 6] = [
        [0, 1, 2],
        [0, 2, 1],
        [1, 0, 2],
        [1, 2, 0],
        [2, 0, 1],
        [2, 1, 0],
    ];
    for order in orders.iter() {
        let mut server = ChatServer::new();
        server.connect(3, OutboundHandle::new());
        for op in order.iter() {
            match op {
                0 => server.connect(1, OutboundHandle::new()),
                1 => server.connect(2, OutboundHandle::new()),
                _ => server.disconnect(3),
            }
        }
        assert_eq!(server.len(), 2);
        assert!(server.contains(1));
        assert!(server.contains(2));
        assert!(!server.contains(3));
    }
}
