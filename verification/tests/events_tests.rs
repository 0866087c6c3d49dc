use peer_chat::errors::CoreError;
use peer_chat::events::{classify_line, render_message, FrontendEvent, PeerEvent};
use peer_chat::generate_unique_id;

fn classify(line: &str) -> Option<PeerEvent> {
    classify_line(&"conn-7".to_string(), &"node-9".to_string(), &line.to_string())
}

#[test]
fn classify_join_line() {
    match classify("JOIN|{\"node_id\":\"x\"}\n") {
        Some(PeerEvent::Join { conn_id, msg }) => {
            assert_eq!(conn_id, "conn-7");
            assert_eq!(msg, "JOIN|{\"node_id\":\"x\"}");
        },
        other => panic!("expected a Join event, got {:?}", other),
    }
}

#[test]
fn classify_peers_line() {
    match classify("PEERS|{\"node_id\":\"x\"}\n") {
        Some(PeerEvent::Peers { msg }) => {
            assert_eq!(msg, "PEERS|{\"node_id\":\"x\"}");
        },
        other => panic!("expected a Peers event, got {:?}", other),
    }
}

#[test]
fn classify_message_line_carries_current_node_id() {
    match classify("MSG|hello there\n") {
        Some(PeerEvent::Message { node_id, msg }) => {
            assert_eq!(node_id, "node-9");
            assert_eq!(msg, "MSG|hello there");
        },
        other => panic!("expected a Message event, got {:?}", other),
    }
}

#[test]
fn classify_bare_msg_prefix_counts_as_message() {
    assert!(matches!(classify("MSGX"), Some(PeerEvent::Message { .. })));
}

#[test]
fn classify_drops_empty_and_unknown_lines() {
    assert!(classify("").is_none());
    assert!(classify("   \r\n").is_none());
    assert!(classify("HELLO|x").is_none());
}

#[test]
fn render_message_uses_uname() {
    let (display, fe) = render_message(
        &Some("alice".to_string()),
        &"MSG|hi all".to_string(),
    )
    .expect("has a body");
    assert_eq!(display, "alice: hi all");
    match fe {
        FrontendEvent::MessageReceived { from, content } => {
            assert_eq!(from, "alice");
            assert_eq!(content, "hi all");
        },
        other => panic!("expected MessageReceived, got {:?}", other),
    }
}

#[test]
fn render_message_defaults_to_stranger() {
    let (display, _) = render_message(&None, &"MSG|hi".to_string()).expect("has a body");
    assert_eq!(display, "Stranger: hi");
}

#[test]
fn render_message_without_pipe_shows_nothing() {
    assert!(render_message(&Some("alice".to_string()), &"MSG".to_string()).is_none());
}

#[test]
fn error_kinds_have_descriptions() {
    let kinds = [
        CoreError::ConfigMissing,
        CoreError::DuplicateConn,
        CoreError::UnknownTarget,
        CoreError::ProtocolDecode,
        CoreError::TransportError,
        CoreError::ActorStopped,
    ];
    for k in kinds {
        assert!(!k.describe().is_empty());
    }
}

#[test]
fn unique_ids_are_uuid_shaped_and_fresh() {
    let a = generate_unique_id();
    let b = generate_unique_id();
    assert_eq!(a.chars().count(), 36);
    assert_eq!(b.chars().count(), 36);
    assert_ne!(a, b);
}
