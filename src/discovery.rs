use vstd::prelude::*;

use crate::ident::{hex_of, random_bytes, to_hex};

verus! {

/// Number of random bytes behind a node identifier.
pub const NODE_ID_BYTES: usize = 32;

/// Address of the local node.
pub const LOCAL_IP: &'static str = "127.0.0.1";

/// The mathematical content of an [`Enr`].
pub ghost struct EnrView {
    pub node_id: Seq<char>,
    pub ip: Seq<char>,
    pub port: u16,
}

/// A peer address record: node identifier, IP and port.
#[derive(Debug, PartialEq, Eq, Hash)]
pub struct Enr {
    pub node_id: String,
    pub ip: String,
    pub port: u16,
}

impl View for Enr {
    type V = EnrView;

    open spec fn view(&self) -> EnrView {
        EnrView { node_id: self.node_id@, ip: self.ip@, port: self.port }
    }
}

impl Clone for Enr {
    fn clone(&self) -> (r: Self)
        ensures
            r == *self,
    {
        Enr { node_id: self.node_id.clone(), ip: self.ip.clone(), port: self.port }
    }
}

impl Enr {
    /// The local record: a random identifier in hex, the loopback address and
    /// the given port.
    pub fn new_local(port: u16) -> (r: Enr)
        ensures
            exists|b: Seq<u8>| b.len() == NODE_ID_BYTES && r.node_id@ == #[trigger] hex_of(b),
            r.ip@ == LOCAL_IP@,
            r.port == port,
    {
        let bytes = random_bytes(NODE_ID_BYTES);
        let node_id = to_hex(bytes.as_slice());
        Enr { node_id, ip: LOCAL_IP.to_owned(), port }
    }
}

/// Messages of the discovery protocol.
#[derive(Debug, Clone)]
pub enum DiscoveryMessage {
    Ping { from: Enr },
    Pong { from: Enr },
    FindNodes { from: Enr },
    Nodes { from: Enr, peers: Vec<Enr> },
}

pub open spec fn enr_views(s: Seq<Enr>) -> Seq<EnrView> {
    s.map_values(|e: Enr| e@)
}

pub open spec fn ids_of(s: Seq<EnrView>) -> Seq<Seq<char>> {
    s.map_values(|e: EnrView| e.node_id)
}

/// No two records share a node identifier.
pub open spec fn unique_ids(s: Seq<EnrView>) -> bool {
    forall|i: int, j: int|
        0 <= i < s.len() && 0 <= j < s.len() && #[trigger] s[i].node_id == #[trigger] s[j].node_id ==> i == j
}

/// The peers after offering `e` to a table bounded by `max` on a node whose own
/// identifier is `local_id`, and whether `e` was taken. The local node and known
/// identifiers are refused; a full table gives up its oldest peer.
pub open spec fn insert_spec(peers: Seq<EnrView>, max: nat, local_id: Seq<char>, e: EnrView) -> (
    Seq<EnrView>,
    bool,
) {
    if e.node_id == local_id || ids_of(peers).contains(e.node_id) {
        (peers, false)
    } else if peers.len() >= max && peers.len() > 0 {
        (peers.drop_first().push(e), true)
    } else {
        (peers.push(e), true)
    }
}

/// The peers after offering each of `es` in turn, and those that were taken.
pub open spec fn insert_many_spec(
    peers: Seq<EnrView>,
    max: nat,
    local_id: Seq<char>,
    es: Seq<EnrView>,
) -> (Seq<EnrView>, Seq<EnrView>)
    decreases es.len(),
{
    if es.len() == 0 {
        (peers, Seq::empty())
    } else {
        let (p, added) = insert_many_spec(peers, max, local_id, es.drop_last());
        let (p2, taken) = insert_spec(p, max, local_id, es.last());
        (p2, if taken { added.push(es.last()) } else { added })
    }
}

/// The known peer addresses, bounded in number, one per node identifier.
#[derive(Debug)]
pub struct PeerTable {
    max_size: usize,
    peers: Vec<Enr>,
}

impl PeerTable {
    pub closed spec fn peers_view(&self) -> Seq<EnrView> {
        enr_views(self.peers@)
    }

    pub closed spec fn max_view(&self) -> nat {
        self.max_size as nat
    }

    pub open spec fn wf(&self) -> bool {
        unique_ids(self.peers_view())
    }

    pub fn new(max_size: usize) -> (r: PeerTable)
        ensures
            r.wf(),
            r.peers_view() == Seq::<EnrView>::empty(),
            r.max_view() == max_size,
    {
        let r = PeerTable { max_size, peers: Vec::new() };
        assert(r.peers_view() =~= Seq::<EnrView>::empty());
        r
    }

    fn knows(&self, node_id: &String) -> (r: bool)
        ensures
            r == ids_of(self.peers_view()).contains(node_id@),
    {
        let ghost ids = ids_of(self.peers_view());
        let mut i: usize = 0;
        while i < self.peers.len()
            invariant
                ids == ids_of(self.peers_view()),
                ids.len() == self.peers@.len(),
                0 <= i <= self.peers@.len(),
                forall|j: int| 0 <= j < i ==> #[trigger] ids[j] != node_id@,
            decreases self.peers@.len() - i,
        {
            assert(ids[i as int] == self.peers@[i as int].node_id@);
            if self.peers[i].node_id == *node_id {
                return true;
            }
            i = i + 1;
        }
        false
    }

    /// Adds `enr` unless it is the local node or its identifier is already
    /// known; when the table is full its oldest peer makes room. Tells whether
    /// `enr` was added.
    pub fn insert(&mut self, local: &Enr, enr: Enr) -> (r: bool)
        requires
            old(self).wf(),
        ensures
            final(self).wf(),
            final(self).max_view() == old(self).max_view(),
            (final(self).peers_view(), r) == insert_spec(
                old(self).peers_view(),
                old(self).max_view(),
                local.node_id@,
                enr@,
            ),
    {
        if enr.node_id == local.node_id {
            return false;
        }
        if self.knows(&enr.node_id) {
            return false;
        }
        let ghost before = self.peers_view();
        if self.peers.len() >= self.max_size && self.peers.len() > 0 {
            self.peers.remove(0);
            assert(self.peers_view() =~= before.drop_first());
        }
        let ghost mid = self.peers_view();
        self.peers.push(enr);
        proof {
            assert(self.peers_view() =~= mid.push(enr@));
            assert forall|i: int| 0 <= i < mid.len() implies #[trigger] mid[i].node_id != enr@.node_id by {
                if before.len() >= self.max_size && before.len() > 0 {
                    assert(mid[i] == before[i + 1]);
                    assert(ids_of(before)[i + 1] == before[i + 1].node_id);
                } else {
                    assert(mid[i] == before[i]);
                    assert(ids_of(before)[i] == before[i].node_id);
                }
            }
            let now = self.peers_view();
            assert forall|i: int, j: int|
                0 <= i < now.len() && 0 <= j < now.len() && #[trigger] now[i].node_id == #[trigger] now[j].node_id
                    implies i == j by {
                if before.len() >= self.max_size && before.len() > 0 {
                    if i < mid.len() && j < mid.len() {
                        assert(mid[i] == before[i + 1] && mid[j] == before[j + 1]);
                    }
                }
            }
        }
        true
    }

    /// Offers each record in turn and returns those that were added.
    pub fn insert_many(&mut self, local: &Enr, enrs: Vec<Enr>) -> (r: Vec<Enr>)
        requires
            old(self).wf(),
        ensures
            final(self).wf(),
            final(self).max_view() == old(self).max_view(),
            (final(self).peers_view(), enr_views(r@)) == insert_many_spec(
                old(self).peers_view(),
                old(self).max_view(),
                local.node_id@,
                enr_views(enrs@),
            ),
    {
        let ghost start = self.peers_view();
        let ghost es = enr_views(enrs@);
        let mut added: Vec<Enr> = Vec::new();
        let mut i: usize = 0;
        while i < enrs.len()
            invariant
                self.wf(),
                self.max_view() == old(self).max_view(),
                0 <= i <= enrs@.len(),
                es == enr_views(enrs@),
                (self.peers_view(), enr_views(added@)) == insert_many_spec(
                    start,
                    self.max_view(),
                    local.node_id@,
                    es.take(i as int),
                ),
            decreases enrs@.len() - i,
        {
            let e = enrs[i].clone();
            proof {
                assert(es.take(i + 1).drop_last() =~= es.take(i as int));
                assert(es.take(i + 1).last() == e@);
            }
            let ghost prev_added = enr_views(added@);
            if self.insert(local, e.clone()) {
                added.push(e);
                assert(enr_views(added@) =~= prev_added.push(e@));
            }
            i = i + 1;
        }
        assert(es.take(enrs@.len() as int) =~= es);
        added
    }

    /// The known peers, oldest first.
    pub fn list(&self) -> (r: Vec<Enr>)
        ensures
            enr_views(r@) == self.peers_view(),
    {
        let mut out: Vec<Enr> = Vec::new();
        let mut i: usize = 0;
        while i < self.peers.len()
            invariant
                0 <= i <= self.peers@.len(),
                out@.len() == i,
                forall|j: int| 0 <= j < i ==> #[trigger] out@[j] == self.peers@[j],
            decreases self.peers@.len() - i,
        {
            out.push(self.peers[i].clone());
            i = i + 1;
        }
        assert(enr_views(out@) =~= self.peers_view());
        out
    }

    /// Reacts to one discovery message: a ping records its sender and is
    /// answered with a pong from the local record; a node list records its
    /// sender and then each listed peer. Other messages change nothing.
    pub fn handle_message(&mut self, local: &Enr, msg: DiscoveryMessage) -> (r: Option<DiscoveryMessage>)
        requires
            old(self).wf(),
        ensures
            final(self).wf(),
            final(self).max_view() == old(self).max_view(),
            match msg {
                DiscoveryMessage::Ping { from } => {
                    &&& final(self).peers_view() == insert_spec(
                        old(self).peers_view(),
                        old(self).max_view(),
                        local.node_id@,
                        from@,
                    ).0
                    &&& r matches Some(DiscoveryMessage::Pong { from: me }) && me == *local
                },
                DiscoveryMessage::Nodes { from, peers } => {
                    &&& r is None
                    &&& final(self).peers_view() == insert_many_spec(
                        insert_spec(old(self).peers_view(), old(self).max_view(), local.node_id@, from@).0,
                        old(self).max_view(),
                        local.node_id@,
                        enr_views(peers@),
                    ).0
                },
                _ => r is None && final(self).peers_view() == old(self).peers_view(),
            },
    {
        match msg {
            DiscoveryMessage::Ping { from } => {
                self.insert(local, from);
                Some(DiscoveryMessage::Pong { from: local.clone() })
            },
            DiscoveryMessage::Nodes { from, peers } => {
                self.insert(local, from);
                self.insert_many(local, peers);
                None
            },
            _ => None,
        }
    }
}

} // verus!
