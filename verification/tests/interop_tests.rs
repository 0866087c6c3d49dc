//! The wire codec against serde_json: what this library encodes, a
//! serde_json decoder reads back identically, and the other way round.

use peer_chat::codec::{decode_summary, encode_summary};
use peer_chat::summary::PeerSummary;
use serde_json::Value;

#[test]
fn serde_json_reads_our_encoding() {
    let s = PeerSummary {
        remote_addr: Some("127.0.0.1:55123".to_string()),
        listen_addr: Some("127.0.0.1:40001".to_string()),
        node_id: Some("a".to_string()),
        uname: Some("ali;ce\n\"q\"".to_string()),
    };
    let enc = encode_summary(&s);
    let v: Value = serde_json::from_str(&enc).expect("valid json");
    assert_eq!(v.get("remote_addr").and_then(Value::as_str), Some("127.0.0.1:55123"));
    assert_eq!(v.get("listen_addr").and_then(Value::as_str), Some("127.0.0.1:40001"));
    assert_eq!(v.get("node_id").and_then(Value::as_str), Some("a"));
    assert_eq!(v.get("uname").and_then(Value::as_str), Some("ali;ce\n\"q\""));
}

#[test]
fn serde_json_null_fields_match() {
    let s = PeerSummary { remote_addr: None, listen_addr: None, node_id: None, uname: None };
    let enc = encode_summary(&s);
    let v: Value = serde_json::from_str(&enc).expect("valid json");
    assert!(v.get("remote_addr").unwrap().is_null());
    assert!(v.get("listen_addr").unwrap().is_null());
    assert!(v.get("node_id").unwrap().is_null());
    assert!(v.get("uname").unwrap().is_null());
}

#[test]
fn we_read_a_serde_json_encoding() {
    let mut map = serde_json::Map::new();
    map.insert("remote_addr".to_string(), Value::Null);
    map.insert("listen_addr".to_string(), Value::String("127.0.0.1:40002".to_string()));
    map.insert("node_id".to_string(), Value::String("b".to_string()));
    map.insert("uname".to_string(), Value::String("bob \u{2603}\ttab".to_string()));
    let text = serde_json::to_string(&Value::Object(map)).expect("encodes");
    let s = decode_summary(&text).expect("we decode it");
    assert_eq!(s.remote_addr, None);
    assert_eq!(s.listen_addr.as_deref(), Some("127.0.0.1:40002"));
    assert_eq!(s.node_id.as_deref(), Some("b"));
    assert_eq!(s.uname.as_deref(), Some("bob \u{2603}\ttab"));
}
