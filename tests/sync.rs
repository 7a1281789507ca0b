use mini_eth_net::chain::Chain;
use mini_eth_net::fork_choice::{best_index, choose_chain, ForkChoiceRule};
use mini_eth_net::header::Header;
use mini_eth_net::manager::ChainManager;
use mini_eth_net::message::{Headers, MiniSyncMessage, RequestHeaders, Status};

fn header(parent: &str, hash: &str, number: u64) -> Header {
    Header { parent_hash: parent.to_string(), hash: hash.to_string(), number }
}

fn chain_of(genesis: &str, hashes: &[&str]) -> Chain {
    let mut c = Chain::new(genesis.to_string());
    let mut parent = genesis.to_string();
    for (i, h) in hashes.iter().enumerate() {
        c.headers.push(header(&parent, h, (i + 1) as u64));
        parent = h.to_string();
    }
    c
}

fn status(genesis: &str, head: &str, number: u64) -> Status {
    Status { genesis_hash: genesis.to_string(), head_hash: head.to_string(), head_number: number }
}

#[test]
fn chain_new_holds_genesis() {
    let c = Chain::new("G".to_string());
    assert_eq!(c.headers.len(), 1);
    assert_eq!(c.height(), 0);
    assert_eq!(c.head_hash(), "G");
    assert_eq!(c.head().parent_hash, "0x00");
    assert!(c.check_linear());
}

#[test]
fn append_linear_keeps_only_the_linked_prefix() {
    let mut c = chain_of("G", &["C1", "C2"]);
    c.append_linear(vec![header("C2", "C3", 3), header("X", "C5", 5), header("C3", "C4", 4)]);
    assert_eq!(c.height(), 3);
    assert_eq!(c.head_hash(), "C3");
    assert_eq!(c.headers.len(), 4);
}

#[test]
fn append_linear_stops_at_first_mismatch() {
    let mut c = chain_of("G", &[]);
    c.append_linear(vec![header("G", "A1", 2), header("G", "A1", 1), header("A1", "A2", 2)]);
    assert_eq!(c.height(), 0);
    assert_eq!(c.head_hash(), "G");
    c.append_linear(vec![header("G", "A1", 1), header("A1", "A2", 2), header("A1", "A3", 3), header("A2", "A3", 3)]);
    assert_eq!(c.height(), 2);
    assert_eq!(c.head_hash(), "A2");
    assert!(c.check_linear());
}

#[test]
fn append_linear_rejects_wrong_parent() {
    let mut c = chain_of("G", &[]);
    c.append_linear(vec![header("other", "A1", 1)]);
    assert_eq!(c.height(), 0);
}

#[test]
fn check_linear_detects_gaps() {
    let mut c = chain_of("G", &["A1"]);
    assert!(c.check_linear());
    c.headers.push(header("A1", "A3", 3));
    assert!(!c.check_linear());
    let empty = Chain { headers: vec![] };
    assert!(!empty.check_linear());
}

#[test]
fn produce_header_extends_tip() {
    let mut c = chain_of("G", &["A1"]);
    c.produce_header();
    assert_eq!(c.height(), 2);
    assert_eq!(c.head().parent_hash, "A1");
    let h = c.head_hash();
    assert!(h.starts_with("0x"));
    assert_eq!(h.len(), 2 + 32);
    assert!(h[2..].chars().all(|ch| ch.is_ascii_hexdigit() && !ch.is_ascii_uppercase()));
    assert!(c.check_linear());
}

#[test]
fn fork_choice_picks_unique_highest() {
    let cands = vec![chain_of("G", &["A1"]), chain_of("G", &["B1", "B2", "B3"]), chain_of("G", &["C1", "C2"])];
    let best = choose_chain(&ForkChoiceRule::LongestChain, &cands).unwrap();
    assert_eq!(best.head_hash(), "B3");
    assert_eq!(best_index(&cands), Some(1));
}

#[test]
fn fork_choice_tie_is_order_independent() {
    let x = || chain_of("G", &["b"]);
    let y = || chain_of("G", &["a"]);
    let first = vec![x(), y()];
    let second = vec![y(), x()];
    let a = choose_chain(&ForkChoiceRule::LongestChain, &first).unwrap().head_hash();
    let b = choose_chain(&ForkChoiceRule::LongestChain, &second).unwrap().head_hash();
    assert_eq!(a, "a");
    assert_eq!(b, "a");
}

#[test]
fn fork_choice_of_nothing_is_none() {
    let cands: Vec<Chain> = vec![];
    assert!(choose_chain(&ForkChoiceRule::LongestChain, &cands).is_none());
    assert_eq!(best_index(&cands), None);
}

#[test]
fn manager_starts_at_genesis() {
    let m = ChainManager::new("G".to_string());
    assert_eq!(m.canonical_height(), 0);
    assert_eq!(m.canonical_head_hash(), "G");
    assert_eq!(m.genesis_hash(), "G");
    let st = m.status();
    assert_eq!(st.genesis_hash, "G");
    assert_eq!(st.head_hash, "G");
    assert_eq!(st.head_number, 0);
    assert_eq!(m.canonical_clone().headers.len(), 1);
}

#[test]
fn import_extends_canonical() {
    let mut m = ChainManager::new("G".to_string());
    m.import_headers(vec![header("G", "A1", 1), header("A1", "A2", 2)]);
    assert_eq!(m.canonical_height(), 2);
    assert_eq!(m.canonical_head_hash(), "A2");
    assert_eq!(m.canonical().headers[1].hash, "A1");
}

#[test]
fn import_twice_is_idempotent() {
    let batch = || vec![header("G", "A1", 1), header("A1", "A2", 2)];
    let mut once = ChainManager::new("G".to_string());
    once.import_headers(batch());
    let mut twice = ChainManager::new("G".to_string());
    twice.import_headers(batch());
    twice.import_headers(batch());
    assert_eq!(once.canonical_height(), twice.canonical_height());
    assert_eq!(once.canonical_head_hash(), twice.canonical_head_hash());
    assert_eq!(twice.canonical().headers.len(), 3);
}

#[test]
fn import_of_nothing_changes_nothing() {
    let mut m = ChainManager::new("G".to_string());
    m.import_headers(vec![]);
    m.import_headers(vec![header("X", "Y", 7)]);
    assert_eq!(m.canonical_height(), 0);
    assert_eq!(m.canonical_head_hash(), "G");
}

#[test]
fn insert_chain_ignores_other_network() {
    let mut m = ChainManager::new("G".to_string());
    m.insert_chain(chain_of("H", &["H1", "H2", "H3"]));
    assert_eq!(m.canonical_height(), 0);
    assert_eq!(m.genesis_hash(), "G");
}

#[test]
fn insert_chain_ignores_broken_chain() {
    let mut m = ChainManager::new("G".to_string());
    let mut broken = chain_of("G", &["A1"]);
    broken.headers.push(header("zz", "A2", 2));
    m.insert_chain(broken);
    assert_eq!(m.canonical_height(), 0);
}

#[test]
fn longer_fork_takes_over_and_ties_go_to_smaller_hash() {
    let mut m = ChainManager::new("G".to_string());
    m.insert_chain(chain_of("G", &["b1"]));
    assert_eq!(m.canonical_head_hash(), "b1");
    m.insert_chain(chain_of("G", &["a1"]));
    assert_eq!(m.canonical_head_hash(), "a1");
    m.insert_chain(chain_of("G", &["c1", "c2"]));
    assert_eq!(m.canonical_head_hash(), "c2");
    m.recompute();
    assert_eq!(m.canonical_head_hash(), "c2");
}

#[test]
fn should_request_only_when_ahead_on_same_network() {
    let mut m = ChainManager::new("G".to_string());
    m.import_headers(vec![header("G", "A1", 1)]);
    assert!(m.should_request(&status("G", "X", 2)));
    assert!(!m.should_request(&status("G", "A1", 1)));
    assert!(!m.should_request(&status("G", "G", 0)));
    assert!(!m.should_request(&status("other", "X", 50)));
}

#[test]
fn build_request_asks_for_the_gap() {
    let mut m = ChainManager::new("G".to_string());
    m.import_headers(vec![header("G", "A1", 1), header("A1", "A2", 2)]);
    match m.build_request(&status("G", "X", 7)) {
        MiniSyncMessage::RequestHeaders(q) => {
            assert_eq!(q.start, 3);
            assert_eq!(q.count, 5);
        }
        _ => panic!("expected a request"),
    }
}

#[test]
fn headers_for_returns_range() {
    let mut m = ChainManager::new("G".to_string());
    m.import_headers(vec![header("G", "A1", 1), header("A1", "A2", 2), header("A2", "A3", 3)]);
    let hs = m.headers_for(&RequestHeaders { start: 1, count: 2 });
    let names: Vec<&str> = hs.headers.iter().map(|h| h.hash.as_str()).collect();
    assert_eq!(names, vec!["A1", "A2"]);
    let hs = m.headers_for(&RequestHeaders { start: 2, count: 10 });
    let names: Vec<&str> = hs.headers.iter().map(|h| h.hash.as_str()).collect();
    assert_eq!(names, vec!["A2", "A3"]);
    assert!(m.headers_for(&RequestHeaders { start: 9, count: 3 }).headers.is_empty());
    assert!(m.headers_for(&RequestHeaders { start: 0, count: 0 }).headers.is_empty());
    assert_eq!(m.headers_for(&RequestHeaders { start: u64::MAX, count: u64::MAX }).headers.len(), 0);
}

#[test]
fn end_to_end_sync_between_two_nodes() {
    let mut a = ChainManager::new("G".to_string());
    let mut b = ChainManager::new("G".to_string());
    b.import_headers(vec![header("G", "B1", 1), header("B1", "B2", 2), header("B2", "B3", 3)]);
    assert_eq!(b.canonical_height(), 3);
    assert_eq!(b.canonical_head_hash(), "B3");

    let st = b.status();
    assert_eq!(st.genesis_hash, "G");
    assert_eq!(st.head_hash, "B3");
    assert_eq!(st.head_number, 3);
    assert!(a.should_request(&st));

    let req = a.handle_message(MiniSyncMessage::Status(st)).expect("a request");
    match &req {
        MiniSyncMessage::RequestHeaders(q) => {
            assert_eq!(q.start, 1);
            assert_eq!(q.count, 3);
        }
        _ => panic!("expected a request"),
    }
    let reply = b.handle_message(req).expect("headers");
    match &reply {
        MiniSyncMessage::Headers(hs) => assert_eq!(hs.headers.len(), 3),
        _ => panic!("expected headers"),
    }
    assert!(a.handle_message(reply).is_none());
    assert_eq!(a.canonical_height(), 3);
    assert_eq!(a.canonical_head_hash(), "B3");
    assert!(!a.should_request(&b.status()));
}

#[test]
fn status_from_other_network_gets_no_request() {
    let mut a = ChainManager::new("G".to_string());
    assert!(a.handle_message(MiniSyncMessage::Status(status("H", "X", 9))).is_none());
    assert_eq!(a.canonical_height(), 0);
}

#[test]
fn headers_message_imports() {
    let mut a = ChainManager::new("G".to_string());
    let msg = MiniSyncMessage::Headers(Headers { headers: vec![header("G", "A1", 1)] });
    assert!(a.handle_message(msg).is_none());
    assert_eq!(a.canonical_head_hash(), "A1");
}

#[test]
fn producer_extends_canonical() {
    let mut m = ChainManager::new("G".to_string());
    m.produce_next();
    m.produce_next();
    assert_eq!(m.canonical_height(), 2);
    let c = m.canonical();
    assert_eq!(c.headers[1].parent_hash, "G");
    assert_eq!(c.headers[2].parent_hash, c.headers[1].hash);
    assert_ne!(c.headers[1].hash, c.headers[2].hash);
    assert!(c.check_linear());
}

#[test]
fn import_keeps_only_the_linked_prefix() {
    let mut m = ChainManager::new("G".to_string());
    m.import_headers(vec![header("G", "C1", 1), header("C1", "C2", 2)]);
    m.import_headers(vec![header("C2", "C3", 3), header("X", "C5", 5), header("C3", "C4", 4)]);
    assert_eq!(m.canonical_height(), 3);
    assert_eq!(m.canonical_head_hash(), "C3");
}

#[test]
fn insert_chain_ignores_chain_with_other_genesis_header() {
    let mut m = ChainManager::new("G".to_string());
    let forged = Chain { headers: vec![header("Y", "G", 0), header("G", "Z", 1)] };
    assert!(forged.check_linear());
    m.insert_chain(forged);
    assert_eq!(m.canonical_height(), 0);
    assert_eq!(m.canonical_head_hash(), "G");
    assert_eq!(m.canonical().headers[0].parent_hash, "0x00");
}

#[test]
fn produce_header_with_given_hash() {
    let mut c = chain_of("G", &["A1"]);
    c.produce_header_with("A2".to_string());
    assert_eq!(c.headers.len(), 3);
    assert_eq!(c.headers[2].parent_hash, "A1");
    assert_eq!(c.headers[2].hash, "A2");
    assert_eq!(c.headers[2].number, 2);
    let copy = c.clone();
    assert_eq!(copy.head_hash(), "A2");
    assert_eq!(copy.headers.len(), 3);
}

#[test]
fn status_reflects_canonical_chain_only() {
    let mut m = ChainManager::new("G".to_string());
    m.insert_chain(chain_of("G", &["A1", "A2"]));
    m.insert_chain(chain_of("G", &["B1"]));
    let st = m.status();
    assert_eq!(st.head_hash, "A2");
    assert_eq!(st.head_number, 2);
    assert_eq!(st.genesis_hash, "G");
}
