use peer_chat::codec::{decode_summary, encode_summary};
use peer_chat::summary::PeerSummary;

fn full_summary() -> PeerSummary {
    PeerSummary {
        remote_addr: Some("127.0.0.1:55123".to_string()),
        listen_addr: Some("127.0.0.1:40001".to_string()),
        node_id: Some("1f0e9c1a-5a54-4c6b-9d0e-2b8a4f1c7d21".to_string()),
        uname: Some("alice".to_string()),
    }
}

#[test]
fn encode_full_summary_exact() {
    let s = full_summary();
    let enc = encode_summary(&s);
    assert_eq!(
        enc,
        "{\"remote_addr\":\"127.0.0.1:55123\",\"listen_addr\":\"127.0.0.1:40001\",\
         \"node_id\":\"1f0e9c1a-5a54-4c6b-9d0e-2b8a4f1c7d21\",\"uname\":\"alice\"}"
    );
}

#[test]
fn encode_empty_summary_exact() {
    let s = PeerSummary { remote_addr: None, listen_addr: None, node_id: None, uname: None };
    let enc = encode_summary(&s);
    assert_eq!(
        enc,
        "{\"remote_addr\":null,\"listen_addr\":null,\"node_id\":null,\"uname\":null}"
    );
}

#[test]
fn round_trip_full_summary() {
    let s = full_summary();
    let enc = encode_summary(&s);
    let back = decode_summary(&enc).expect("decodes");
    assert_eq!(back, s);
}

#[test]
fn round_trip_partial_summary() {
    let s = PeerSummary {
        remote_addr: None,
        listen_addr: Some("127.0.0.1:40002".to_string()),
        node_id: None,
        uname: None,
    };
    let enc = encode_summary(&s);
    let back = decode_summary(&enc).expect("decodes");
    assert_eq!(back, s);
}

#[test]
fn round_trip_special_characters() {
    let s = PeerSummary {
        remote_addr: None,
        listen_addr: None,
        node_id: None,
        uname: Some("a\"b\\c\nd;e\tf\rg".to_string()),
    };
    let enc = encode_summary(&s);
    assert!(!enc.contains(';'), "separator must be escaped: {}", enc);
    assert!(!enc.contains('\n'), "newline must be escaped: {}", enc);
    let back = decode_summary(&enc).expect("decodes");
    assert_eq!(back, s);
}

#[test]
fn semicolon_escapes_as_unicode() {
    let s = PeerSummary {
        remote_addr: None,
        listen_addr: None,
        node_id: None,
        uname: Some(";".to_string()),
    };
    let enc = encode_summary(&s);
    assert_eq!(
        enc,
        "{\"remote_addr\":null,\"listen_addr\":null,\"node_id\":null,\"uname\":\"\\u003b\"}"
    );
}

#[test]
fn round_trip_non_ascii() {
    let s = PeerSummary {
        remote_addr: None,
        listen_addr: None,
        node_id: None,
        uname: Some("z\u{e9}ro \u{1F600}".to_string()),
    };
    let enc = encode_summary(&s);
    let back = decode_summary(&enc).expect("decodes");
    assert_eq!(back, s);
}

#[test]
fn decode_accepts_any_field_order_and_whitespace() {
    let text = " { \"uname\" : \"bob\" , \"node_id\" : \"b\" , \
                \"listen_addr\" : \"127.0.0.1:40002\" , \"remote_addr\" : null } ";
    let s = decode_summary(text).expect("decodes");
    assert_eq!(s.uname.as_deref(), Some("bob"));
    assert_eq!(s.node_id.as_deref(), Some("b"));
    assert_eq!(s.listen_addr.as_deref(), Some("127.0.0.1:40002"));
    assert_eq!(s.remote_addr, None);
}

#[test]
fn decode_accepts_missing_fields() {
    let s = decode_summary("{\"node_id\":\"x\"}").expect("decodes");
    assert_eq!(s.node_id.as_deref(), Some("x"));
    assert_eq!(s.listen_addr, None);
    assert_eq!(s.remote_addr, None);
    assert_eq!(s.uname, None);
}

#[test]
fn decode_accepts_empty_object() {
    let s = decode_summary("{}").expect("decodes");
    assert_eq!(s, PeerSummary { remote_addr: None, listen_addr: None, node_id: None, uname: None });
}

#[test]
fn decode_unicode_escape() {
    let s = decode_summary("{\"uname\":\"\\u0041\\u003b\"}").expect("decodes");
    assert_eq!(s.uname.as_deref(), Some("A;"));
}

#[test]
fn decode_rejects_malformed_inputs() {
    assert!(decode_summary("").is_none());
    assert!(decode_summary("not json").is_none());
    assert!(decode_summary("{\"uname\":\"open").is_none());
    assert!(decode_summary("{\"unknown\":null}").is_none());
    assert!(decode_summary("{\"uname\":null,\"uname\":null}").is_none());
    assert!(decode_summary("{\"uname\":null}trailing").is_none());
    assert!(decode_summary("{\"uname\":12}").is_none());
    assert!(decode_summary("{\"uname\":\"\\uD800\"}").is_none());
    assert!(decode_summary("{\"uname\":\"\\q\"}").is_none());
}
