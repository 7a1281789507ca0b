use mini_eth_net::discovery::{DiscoveryMessage, Enr, PeerTable, NODE_ID_BYTES};
use mini_eth_net::enr::{EnrBuilder, EnrError};

fn enr(id: &str, port: u16) -> Enr {
    Enr { node_id: id.to_string(), ip: "127.0.0.1".to_string(), port }
}

fn ids(t: &PeerTable) -> Vec<String> {
    t.list().into_iter().map(|e| e.node_id).collect()
}

#[test]
fn new_local_record() {
    let e = Enr::new_local(9001);
    assert_eq!(e.port, 9001);
    assert_eq!(e.ip, "127.0.0.1");
    assert_eq!(e.node_id.len(), 2 * NODE_ID_BYTES);
    assert!(e.node_id.chars().all(|c| c.is_ascii_digit() || ('a'..='f').contains(&c)));
    let other = Enr::new_local(9001);
    assert_ne!(e.node_id, other.node_id);
}

#[test]
fn insert_refuses_self_and_duplicates() {
    let me = enr("me", 1);
    let mut t = PeerTable::new(4);
    assert!(!t.insert(&me, enr("me", 2)));
    assert!(t.insert(&me, enr("a", 3)));
    assert!(!t.insert(&me, enr("a", 4)));
    assert_eq!(ids(&t), vec!["a"]);
    assert_eq!(t.list()[0].port, 3);
}

#[test]
fn full_table_evicts_oldest() {
    let me = enr("me", 1);
    let mut t = PeerTable::new(2);
    assert!(t.insert(&me, enr("a", 2)));
    assert!(t.insert(&me, enr("b", 3)));
    assert!(t.insert(&me, enr("c", 4)));
    assert_eq!(ids(&t), vec!["b", "c"]);
}

#[test]
fn zero_sized_table_holds_the_latest() {
    let me = enr("me", 1);
    let mut t = PeerTable::new(0);
    assert!(t.insert(&me, enr("a", 2)));
    assert!(t.insert(&me, enr("b", 3)));
    assert_eq!(ids(&t), vec!["b"]);
}

#[test]
fn insert_many_reports_added() {
    let me = enr("me", 1);
    let mut t = PeerTable::new(8);
    t.insert(&me, enr("a", 2));
    let added = t.insert_many(&me, vec![enr("a", 5), enr("b", 6), enr("me", 7), enr("b", 8), enr("c", 9)]);
    let added_ids: Vec<String> = added.into_iter().map(|e| e.node_id).collect();
    assert_eq!(added_ids, vec!["b", "c"]);
    assert_eq!(ids(&t), vec!["a", "b", "c"]);
}

#[test]
fn ping_is_answered_with_pong() {
    let me = enr("me", 1);
    let mut t = PeerTable::new(8);
    let reply = t.handle_message(&me, DiscoveryMessage::Ping { from: enr("a", 2) });
    match reply {
        Some(DiscoveryMessage::Pong { from }) => assert_eq!(from, me),
        _ => panic!("expected a pong"),
    }
    assert_eq!(ids(&t), vec!["a"]);
}

#[test]
fn nodes_message_records_sender_and_peers() {
    let me = enr("me", 1);
    let mut t = PeerTable::new(8);
    let msg = DiscoveryMessage::Nodes { from: enr("a", 2), peers: vec![enr("b", 3), enr("me", 1), enr("c", 4)] };
    assert!(t.handle_message(&me, msg).is_none());
    assert_eq!(ids(&t), vec!["a", "b", "c"]);
}

#[test]
fn other_discovery_messages_change_nothing() {
    let me = enr("me", 1);
    let mut t = PeerTable::new(8);
    assert!(t.handle_message(&me, DiscoveryMessage::Pong { from: enr("a", 2) }).is_none());
    assert!(t.handle_message(&me, DiscoveryMessage::FindNodes { from: enr("a", 2) }).is_none());
    assert!(ids(&t).is_empty());
}

#[test]
fn builder_collects_pairs() {
    let kp = mini_eth_net::crypto::generate_keypair().unwrap();
    let rec = EnrBuilder::new().seq(7).add(b"id", b"v4").add(b"quic", &9001u16.to_be_bytes()).build(&kp).unwrap();
    assert_eq!(rec.seq, 7);
    assert_eq!(rec.pairs, vec![(b"id".to_vec(), b"v4".to_vec()), (b"quic".to_vec(), vec![0x23, 0x29])]);
    let default_seq = EnrBuilder::new().build(&kp).unwrap();
    assert_eq!(default_seq.seq, 1);
    assert!(default_seq.pairs.is_empty());
    assert_ne!(EnrError::MissingField("ip"), EnrError::RlpError);
}
