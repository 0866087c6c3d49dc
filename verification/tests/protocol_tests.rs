use peer_chat::errors::CoreError;
use peer_chat::protocol::{
    join_payload, parse_join_frame, parse_peers_frame, peers_listen_addrs, peers_payload,
};
use peer_chat::summary::PeerSummary;

fn summary(listen: &str, node: &str, name: &str) -> PeerSummary {
    PeerSummary {
        remote_addr: None,
        listen_addr: Some(listen.to_string()),
        node_id: Some(node.to_string()),
        uname: Some(name.to_string()),
    }
}

#[test]
fn peers_payload_of_empty_list() {
    let payload = peers_payload(&Vec::new());
    assert_eq!(payload, "PEERS|");
}

#[test]
fn peers_payload_exact() {
    let a = summary("127.0.0.1:40001", "a", "alice");
    let b = summary("127.0.0.1:40002", "b", "bob");
    let payload = peers_payload(&vec![a, b]);
    assert_eq!(
        payload,
        "PEERS|{\"remote_addr\":null,\"listen_addr\":\"127.0.0.1:40001\",\"node_id\":\"a\",\"uname\":\"alice\"}\
         ;{\"remote_addr\":null,\"listen_addr\":\"127.0.0.1:40002\",\"node_id\":\"b\",\"uname\":\"bob\"}"
    );
}

#[test]
fn peers_round_trip_two_summaries() {
    let a = summary("127.0.0.1:40001", "a", "alice");
    let b = summary("127.0.0.1:40002", "b", "bob");
    let payload = peers_payload(&vec![a.clone(), b.clone()]);
    let back = parse_peers_frame(&payload).expect("peers frame");
    assert_eq!(back, vec![a, b]);
}

#[test]
fn peers_round_trip_with_separator_in_name() {
    let a = summary("127.0.0.1:40001", "a", "semi;colon;name");
    let payload = peers_payload(&vec![a.clone()]);
    let back = parse_peers_frame(&payload).expect("peers frame");
    assert_eq!(back, vec![a]);
}

#[test]
fn peers_frame_skips_empty_segments() {
    let back = parse_peers_frame("PEERS|;;{\"node_id\":\"x\"}; ;").expect("peers frame");
    assert_eq!(back.len(), 1);
    assert_eq!(back[0].node_id.as_deref(), Some("x"));
}

#[test]
fn peers_frame_skips_malformed_segments() {
    let back =
        parse_peers_frame("PEERS|garbage;{\"node_id\":\"x\"};{broken").expect("peers frame");
    assert_eq!(back.len(), 1);
    assert_eq!(back[0].node_id.as_deref(), Some("x"));
}

#[test]
fn peers_frame_requires_prefix() {
    assert_eq!(parse_peers_frame("PEER|x"), Err(CoreError::ProtocolDecode));
    assert_eq!(parse_peers_frame(""), Err(CoreError::ProtocolDecode));
}

#[test]
fn join_payload_exact() {
    let a = summary("127.0.0.1:40001", "a", "alice");
    let payload = join_payload(&a);
    assert_eq!(
        payload,
        "JOIN|{\"remote_addr\":null,\"listen_addr\":\"127.0.0.1:40001\",\"node_id\":\"a\",\"uname\":\"alice\"}"
    );
}

#[test]
fn join_round_trip() {
    let a = summary("127.0.0.1:40001", "a", "alice");
    let payload = join_payload(&a);
    let back = parse_join_frame(&payload).expect("join frame");
    assert_eq!(back, a);
}

#[test]
fn join_frame_errors() {
    assert_eq!(parse_join_frame("JOIN without pipe"), Err(CoreError::ProtocolDecode));
    assert_eq!(parse_join_frame("JOIN|not json"), Err(CoreError::ProtocolDecode));
}

#[test]
fn listen_addrs_collected_in_order() {
    let a = summary("127.0.0.1:40001", "a", "alice");
    let b = summary("127.0.0.1:40002", "b", "bob");
    let addrs = peers_listen_addrs(&vec![a, b]).expect("all addressed");
    assert_eq!(addrs, vec!["127.0.0.1:40001".to_string(), "127.0.0.1:40002".to_string()]);
}

#[test]
fn listen_addrs_missing_is_config_error() {
    let a = summary("127.0.0.1:40001", "a", "alice");
    let bare = PeerSummary { remote_addr: None, listen_addr: None, node_id: None, uname: None };
    assert_eq!(peers_listen_addrs(&vec![a, bare]), Err(CoreError::ConfigMissing));
}
