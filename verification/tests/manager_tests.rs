use peer_chat::dialer::{accept_summary, dial_precheck, dial_summary};
use peer_chat::errors::CoreError;
use peer_chat::manager::{PeerEntry, PeerManager};
use peer_chat::protocol::{join_payload, parse_join_frame, parse_peers_frame, peers_payload};
use peer_chat::summary::PeerSummary;

fn summary(listen: Option<&str>, node: Option<&str>, name: Option<&str>) -> PeerSummary {
    PeerSummary {
        remote_addr: None,
        listen_addr: listen.map(|s| s.to_string()),
        node_id: node.map(|s| s.to_string()),
        uname: name.map(|s| s.to_string()),
    }
}

#[test]
fn add_conn_then_duplicate_fails() {
    let mut m = PeerManager::new();
    assert!(m.add_conn("c1".to_string(), summary(None, None, None)).is_ok());
    assert_eq!(
        m.add_conn("c1".to_string(), summary(None, None, None)),
        Err(CoreError::DuplicateConn)
    );
}

#[test]
fn add_entry_duplicate_of_promoted_conn_fails() {
    let mut m = PeerManager::new();
    m.add_conn("c1".to_string(), summary(None, None, None)).unwrap();
    m.register_node("c1".to_string(), summary(Some("127.0.0.1:40002"), Some("n1"), None))
        .unwrap();
    let entry = PeerEntry { conn_id: "c1".to_string(), summary: summary(None, None, None) };
    assert_eq!(m.add_entry("c1".to_string(), entry), Err(CoreError::DuplicateConn));
}

#[test]
fn register_node_promotes_pending_conn() {
    let mut m = PeerManager::new();
    m.add_conn("c1".to_string(), summary(None, None, None)).unwrap();
    let s = summary(Some("127.0.0.1:40002"), Some("n1"), Some("bob"));
    assert!(m.register_node("c1".to_string(), s.clone()).is_ok());
    assert_eq!(m.get_peer(&"n1".to_string()).expect("registered"), s);
    assert_eq!(m.get_conn(&"c1".to_string()), Err(CoreError::UnknownTarget));
}

#[test]
fn register_node_without_node_id_is_config_error() {
    let mut m = PeerManager::new();
    m.add_conn("c1".to_string(), summary(None, None, None)).unwrap();
    assert_eq!(
        m.register_node("c1".to_string(), summary(Some("x"), None, None)),
        Err(CoreError::ConfigMissing)
    );
}

#[test]
fn register_node_unknown_everywhere_is_unknown_target() {
    let mut m = PeerManager::new();
    assert_eq!(
        m.register_node("nope".to_string(), summary(None, Some("n1"), None)),
        Err(CoreError::UnknownTarget)
    );
}

#[test]
fn register_node_refreshes_summary_in_place() {
    let mut m = PeerManager::new();
    m.add_conn("c1".to_string(), summary(None, None, None)).unwrap();
    m.register_node("c1".to_string(), summary(Some("a1"), Some("n1"), Some("old")))
        .unwrap();
    let refreshed = summary(Some("a1"), Some("n1"), Some("new"));
    assert!(m.register_node("gone".to_string(), refreshed.clone()).is_ok());
    assert_eq!(m.get_peer(&"n1".to_string()).expect("still there"), refreshed);
    assert_eq!(m.get_peers().len(), 1);
}

#[test]
fn node_id_collision_keeps_later_join() {
    let mut m = PeerManager::new();
    m.add_conn("c1".to_string(), summary(None, None, None)).unwrap();
    m.add_conn("c2".to_string(), summary(None, None, None)).unwrap();
    let first = summary(Some("a1"), Some("x"), Some("early"));
    let second = summary(Some("a2"), Some("x"), Some("late"));
    m.register_node("c1".to_string(), first).unwrap();
    m.register_node("c2".to_string(), second.clone()).unwrap();
    assert_eq!(m.get_peer(&"x".to_string()).expect("exists"), second);
    assert_eq!(m.get_peers().len(), 1);
    assert_eq!(m.get_conn(&"c1".to_string()), Err(CoreError::UnknownTarget));
    assert_eq!(m.get_conn(&"c2".to_string()), Err(CoreError::UnknownTarget));
}

#[test]
fn get_peers_snapshot_has_distinct_node_ids() {
    let mut m = PeerManager::new();
    for i in 0..4 {
        let cid = format!("c{}", i);
        m.add_conn(cid.clone(), summary(None, None, None)).unwrap();
        m.register_node(cid, summary(Some(&format!("a{}", i)), Some(&format!("n{}", i)), None))
            .unwrap();
    }
    let snap = m.get_peers();
    assert_eq!(snap.len(), 4);
    for i in 0..snap.len() {
        for j in 0..snap.len() {
            if i != j {
                assert_ne!(snap[i].node_id, snap[j].node_id);
            }
        }
    }
}

#[test]
fn remove_conn_drops_pending_then_falls_back_to_peers() {
    let mut m = PeerManager::new();
    m.add_conn("c1".to_string(), summary(None, None, None)).unwrap();
    m.remove_conn("c1".to_string());
    assert_eq!(m.get_conn(&"c1".to_string()), Err(CoreError::UnknownTarget));

    m.add_conn("c2".to_string(), summary(None, None, None)).unwrap();
    m.register_node("c2".to_string(), summary(Some("a2"), Some("n2"), None)).unwrap();
    m.remove_conn("c2".to_string());
    assert_eq!(m.get_peer(&"n2".to_string()), Err(CoreError::UnknownTarget));
}

#[test]
fn remove_node_drops_registered_peer() {
    let mut m = PeerManager::new();
    m.add_conn("c1".to_string(), summary(None, None, None)).unwrap();
    m.register_node("c1".to_string(), summary(Some("a1"), Some("n1"), None)).unwrap();
    m.remove_node("n1".to_string());
    assert_eq!(m.get_peer(&"n1".to_string()), Err(CoreError::UnknownTarget));
    assert_eq!(m.get_peers().len(), 0);
}

#[test]
fn broadcast_fans_out_to_every_peer() {
    let mut m = PeerManager::new();
    for i in 0..3 {
        let cid = format!("c{}", i);
        m.add_conn(cid.clone(), summary(None, None, None)).unwrap();
        m.register_node(cid, summary(Some(&format!("a{}", i)), Some(&format!("n{}", i)), None))
            .unwrap();
    }
    let pushes = m.broadcast("MSG|hello".to_string());
    assert_eq!(pushes.len(), 3);
    for i in 0..3 {
        assert_eq!(pushes[i].conn_id, format!("c{}", i));
        assert_eq!(pushes[i].msg, "MSG|hello");
    }
}

#[test]
fn broadcast_never_blocks_later_commands() {
    let mut m = PeerManager::new();
    m.add_conn("c1".to_string(), summary(None, None, None)).unwrap();
    m.register_node("c1".to_string(), summary(Some("a1"), Some("n1"), None)).unwrap();
    for _ in 0..100 {
        let pushes = m.broadcast("flood".to_string());
        assert_eq!(pushes.len(), 1);
    }
    assert!(m.add_conn("c2".to_string(), summary(None, None, None)).is_ok());
    assert!(m.get_peer(&"n1".to_string()).is_ok());
    assert_eq!(m.get_peers().len(), 1);
}

#[test]
fn send_to_prefers_node_id_and_reports_unknown_targets() {
    let mut m = PeerManager::new();
    m.add_conn("c1".to_string(), summary(None, None, None)).unwrap();
    m.add_conn("c2".to_string(), summary(None, None, None)).unwrap();
    m.register_node("c1".to_string(), summary(Some("a1"), Some("n1"), None)).unwrap();

    let by_node = m
        .send_to(Some("n1".to_string()), None, "hi".to_string())
        .expect("resolves by node id");
    assert_eq!(by_node.conn_id, "c1");
    assert_eq!(by_node.msg, "hi");

    let by_conn = m
        .send_to(None, Some("c2".to_string()), "yo".to_string())
        .expect("resolves by conn id");
    assert_eq!(by_conn.conn_id, "c2");

    assert!(m.send_to(Some("missing".to_string()), None, "x".to_string()).is_err());
    assert!(m.send_to(None, Some("missing".to_string()), "x".to_string()).is_err());
    assert!(m.send_to(None, None, "x".to_string()).is_err());
}

#[test]
fn contains_listen_addr_sees_both_maps() {
    let mut m = PeerManager::new();
    m.add_conn("c1".to_string(), summary(Some("127.0.0.1:40005"), None, None)).unwrap();
    assert!(m.contains_listen_addr(&"127.0.0.1:40005".to_string()));
    m.add_conn("c2".to_string(), summary(None, None, None)).unwrap();
    m.register_node("c2".to_string(), summary(Some("127.0.0.1:40006"), Some("n2"), None))
        .unwrap();
    assert!(m.contains_listen_addr(&"127.0.0.1:40006".to_string()));
    assert!(!m.contains_listen_addr(&"127.0.0.1:40007".to_string()));
}

#[test]
fn self_connect_is_rejected() {
    let m = PeerManager::new();
    let me = summary(Some("127.0.0.1:40001"), Some("a"), Some("alice"));
    assert_eq!(
        dial_precheck(&me, &m, &"127.0.0.1:40001".to_string()),
        Err(CoreError::ConfigMissing)
    );
    assert_eq!(m.get_peers().len(), 0);
}

#[test]
fn dial_without_own_listen_addr_is_rejected() {
    let m = PeerManager::new();
    let me = summary(None, Some("a"), None);
    assert_eq!(
        dial_precheck(&me, &m, &"127.0.0.1:40002".to_string()),
        Err(CoreError::ConfigMissing)
    );
}

#[test]
fn duplicate_listen_addr_dial_fails_early() {
    let mut m = PeerManager::new();
    let me = summary(Some("127.0.0.1:40001"), Some("a"), Some("alice"));
    m.add_conn("c1".to_string(), summary(None, None, None)).unwrap();
    m.register_node("c1".to_string(), summary(Some("127.0.0.1:40002"), Some("b"), None))
        .unwrap();
    assert_eq!(
        dial_precheck(&me, &m, &"127.0.0.1:40002".to_string()),
        Err(CoreError::DuplicateConn)
    );
    assert_eq!(m.get_peers().len(), 1);
    assert!(dial_precheck(&me, &m, &"127.0.0.1:40003".to_string()).is_ok());
}

#[test]
fn fresh_connection_summaries() {
    let d = dial_summary(&"127.0.0.1:40002".to_string());
    assert_eq!(d.listen_addr.as_deref(), Some("127.0.0.1:40002"));
    assert_eq!(d.remote_addr, None);
    assert_eq!(d.node_id, None);
    let a = accept_summary(&"127.0.0.1:55123".to_string());
    assert_eq!(a.remote_addr.as_deref(), Some("127.0.0.1:55123"));
    assert_eq!(a.listen_addr, None);
    assert_eq!(a.node_id, None);
}

#[test]
fn two_node_bootstrap_over_frames() {
    let a_info = summary(Some("127.0.0.1:40001"), Some("a"), Some("alice"));
    let b_info = summary(Some("127.0.0.1:40002"), Some("b"), Some("bob"));
    let mut a = PeerManager::new();
    let mut b = PeerManager::new();

    // B dials A, both record the fresh transport, and B announces itself.
    assert!(dial_precheck(&b_info, &b, &"127.0.0.1:40001".to_string()).is_ok());
    b.add_conn("b-out".to_string(), dial_summary(&"127.0.0.1:40001".to_string())).unwrap();
    a.add_conn("a-in".to_string(), accept_summary(&"127.0.0.1:55123".to_string())).unwrap();
    let join_b = join_payload(&b_info);

    // A processes B's JOIN and answers with its own JOIN and a PEERS frame.
    let got_b = parse_join_frame(&join_b).expect("join decodes");
    a.register_node("a-in".to_string(), got_b).unwrap();
    let join_a = join_payload(&a_info);
    let peers_of_a = peers_payload(&a.get_peers());

    // B processes A's JOIN on the same transport.
    let got_a = parse_join_frame(&join_a).expect("join decodes");
    b.register_node("b-out".to_string(), got_a).unwrap();

    assert_eq!(a.get_peers().len(), 1);
    assert_eq!(b.get_peers().len(), 1);
    assert_eq!(
        a.get_peer(&"b".to_string()).unwrap().listen_addr.as_deref(),
        Some("127.0.0.1:40002")
    );
    assert_eq!(
        b.get_peer(&"a".to_string()).unwrap().listen_addr.as_deref(),
        Some("127.0.0.1:40001")
    );

    // The PEERS gossip names B itself, which B refuses to dial again.
    let gossiped = parse_peers_frame(&peers_of_a).expect("peers frame");
    assert_eq!(gossiped.len(), 1);
    let target = gossiped[0].listen_addr.clone().unwrap();
    assert_eq!(
        dial_precheck(&b_info, &b, &target),
        Err(CoreError::ConfigMissing)
    );
}

#[test]
fn three_node_transitive_discovery_over_frames() {
    let a_info = summary(Some("127.0.0.1:40001"), Some("a"), Some("alice"));
    let b_info = summary(Some("127.0.0.1:40002"), Some("b"), Some("bob"));
    let c_info = summary(Some("127.0.0.1:40003"), Some("c"), Some("carol"));
    let mut a = PeerManager::new();
    let mut b = PeerManager::new();
    let mut c = PeerManager::new();

    // A and B are already joined to each other.
    a.add_conn("a-b".to_string(), accept_summary(&"127.0.0.1:50001".to_string())).unwrap();
    a.register_node("a-b".to_string(), b_info.clone()).unwrap();
    b.add_conn("b-a".to_string(), dial_summary(&"127.0.0.1:40001".to_string())).unwrap();
    b.register_node("b-a".to_string(), a_info.clone()).unwrap();

    // C dials A and both sides process the JOIN exchange.
    assert!(dial_precheck(&c_info, &c, &"127.0.0.1:40001".to_string()).is_ok());
    c.add_conn("c-a".to_string(), dial_summary(&"127.0.0.1:40001".to_string())).unwrap();
    a.add_conn("a-c".to_string(), accept_summary(&"127.0.0.1:50002".to_string())).unwrap();
    let got_c = parse_join_frame(&join_payload(&c_info)).expect("join decodes");
    a.register_node("a-c".to_string(), got_c).unwrap();
    let got_a = parse_join_frame(&join_payload(&a_info)).expect("join decodes");
    c.register_node("c-a".to_string(), got_a).unwrap();

    // A gossips its membership; B picks out the one unfamiliar address.
    let gossip = peers_payload(&a.get_peers());
    let learned = parse_peers_frame(&gossip).expect("peers frame");
    assert_eq!(learned.len(), 2);
    let mut to_dial: Vec<String> = Vec::new();
    for s in &learned {
        let addr = s.listen_addr.clone().unwrap();
        if dial_precheck(&b_info, &b, &addr).is_ok() {
            to_dial.push(addr);
        }
    }
    assert_eq!(to_dial, vec!["127.0.0.1:40003".to_string()]);

    // B dials C; one more JOIN exchange completes the mesh.
    b.add_conn("b-c".to_string(), dial_summary(&"127.0.0.1:40003".to_string())).unwrap();
    c.add_conn("c-b".to_string(), accept_summary(&"127.0.0.1:50003".to_string())).unwrap();
    let got_b = parse_join_frame(&join_payload(&b_info)).expect("join decodes");
    c.register_node("c-b".to_string(), got_b).unwrap();
    let got_b_side = parse_join_frame(&join_payload(&c_info)).expect("join decodes");
    b.register_node("b-c".to_string(), got_b_side).unwrap();

    assert_eq!(a.get_peers().len(), 2);
    assert_eq!(b.get_peers().len(), 2);
    assert_eq!(c.get_peers().len(), 2);
    assert_eq!(
        b.get_peer(&"c".to_string()).unwrap().listen_addr.as_deref(),
        Some("127.0.0.1:40003")
    );
    assert_eq!(
        c.get_peer(&"b".to_string()).unwrap().listen_addr.as_deref(),
        Some("127.0.0.1:40002")
    );
}
