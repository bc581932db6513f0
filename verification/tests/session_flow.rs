//! The session's frame handling and the end-to-end chat scenario.

use chat_fanout::messages::{Connect, Frame, OutboundHandle, ServerEvent};
use chat_fanout::registry::ChatServer;
use chat_fanout::session::WsChatSession;

fn session(id: usize) -> WsChatSession {
    WsChatSession { id, stopped: false }
}

#[test]
fn text_frame_becomes_one_broadcast_event() {
    let mut s = session(11);
    let ev = s.handle(Frame::Text("hi all".to_string()));
    match ev {
        Some(ServerEvent::Message(m)) => assert_eq!(m.0, "hi all"),
        _ => panic!("a text frame must become a broadcast request"),
    }
    assert!(!s.stopped);
}

#[test]
fn binary_and_other_frames_are_silently_dropped() {
    let mut s = session(12);
    assert!(s.handle(Frame::Binary(vec![1, 2, 3])).is_none());
    assert!(s.handle(Frame::Other).is_none());
    assert!(!s.stopped);
}

#[test]
fn close_emits_disconnect_exactly_once() {
    let mut s = session(13);
    match s.handle(Frame::Close) {
        Some(ServerEvent::Disconnect(d)) => assert_eq!(d.id, 13),
        _ => panic!("a close frame must emit this session's disconnect"),
    }
    assert!(s.stopped);

    // Close may be signalled again; teardown already ran, nothing is emitted.
    assert!(s.handle(Frame::Close).is_none());
    assert!(s.handle(Frame::Text("late".to_string())).is_none());
}

#[test]
fn fresh_sessions_start_unstopped() {
    let s = WsChatSession::new();
    let mut t = WsChatSession::new();
    assert!(!s.stopped);
    assert!(!t.stopped);
    assert!(t.handle(Frame::Text("x".to_string())).is_some());
}

#[test]
fn hello_reaches_all_and_bye_skips_the_departed() {
    let mut server = ChatServer::new();
    let mut a = session(1);
    let mut b = session(2);
    let mut c = session(3);
    for id in [1, 2, 3] {
        server.handle(ServerEvent::Connect(Connect { id, addr: OutboundHandle::new() }));
    }

    // A sends "hello": the server delivers it to A, B and C alike.
    let ev = a.handle(Frame::Text("hello".to_string())).unwrap();
    server.handle(ev);
    for id in [1, 2, 3] {
        assert_eq!(server.handle_of(id).unwrap().delivered, vec!["hello".to_string()]);
    }

    // C disconnects.
    let ev = c.handle(Frame::Close).unwrap();
    server.handle(ev);
    assert!(server.handle_of(3).is_none());

    // A sends "bye": only A and B are still registered to receive it.
    let ev = a.handle(Frame::Text("bye".to_string())).unwrap();
    server.handle(ev);
    for id in [1, 2] {
        assert_eq!(
            server.handle_of(id).unwrap().delivered,
            vec!["hello".to_string(), "bye".to_string()]
        );
    }
    assert_eq!(server.len(), 2);
    let _ = b;
}
