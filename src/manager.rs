use vstd::prelude::*;

use crate::chain::{
    headers_view, is_linear, lemma_linear_append_extension, lemma_linear_append_linear,
    lemma_linear_append_stale, linear_append, Chain,
};
use crate::fork_choice::{all_nonempty, best_index, chain_views, hash_le, is_choice, ForkChoiceRule};
use crate::header::{Header, HeaderView};
use crate::message::{Headers, MiniSyncMessage, RequestHeaders, Status};

verus! {

/// A set of tracked chains as the manager keeps it: every chain linear, all
/// starting with one genesis header, and no two with the same head hash.
pub open spec fn store_ok(s: Seq<Seq<HeaderView>>) -> bool {
    &&& s.len() > 0
    &&& forall|i: int| 0 <= i < s.len() ==> #[trigger] is_linear(s[i])
    &&& forall|i: int| 0 <= i < s.len() ==> #[trigger] s[i][0] == s[0][0]
    &&& forall|i: int, j: int|
        0 <= i < s.len() && 0 <= j < s.len() && #[trigger] s[i].last().hash == #[trigger] s[j].last().hash
            ==> i == j
}

pub open spec fn has_head(s: Seq<Seq<HeaderView>>, h: Seq<char>) -> bool {
    exists|i: int| 0 <= i < s.len() && #[trigger] s[i].last().hash == h
}

pub open spec fn head_index(s: Seq<Seq<HeaderView>>, h: Seq<char>) -> int {
    choose|i: int| 0 <= i < s.len() && #[trigger] s[i].last().hash == h
}

/// The chain set after tracking `c` under its head hash: a chain already
/// tracked under that hash is replaced, otherwise `c` is added.
pub open spec fn upsert(s: Seq<Seq<HeaderView>>, c: Seq<HeaderView>) -> Seq<Seq<HeaderView>> {
    if has_head(s, c.last().hash) {
        s.update(head_index(s, c.last().hash), c)
    } else {
        s.push(c)
    }
}

/// The canonical headers that answer a request for `count` headers from number
/// `start` on: on a linear chain a header's number is its position, so these
/// are the headers numbered `start` and up, at most `count` of them.
pub open spec fn requested_range(c: Seq<HeaderView>, start: u64, count: u64) -> Seq<HeaderView> {
    let lo = if start < c.len() { start as int } else { c.len() as int };
    let hi = if lo + count < c.len() { lo + count } else { c.len() as int };
    c.subrange(lo, hi)
}

/// The node's synchronisation state: the tracked chains and which of them is
/// canonical.
#[derive(Debug)]
pub struct ChainManager {
    chains: Vec<Chain>,
    canonical: usize,
    rule: ForkChoiceRule,
}

impl ChainManager {
    /// The tracked chains.
    pub closed spec fn chains_view(&self) -> Seq<Seq<HeaderView>> {
        chain_views(self.chains@)
    }

    /// Position of the canonical chain among the tracked chains.
    pub closed spec fn canonical_index(&self) -> int {
        self.canonical as int
    }

    pub open spec fn canonical_view(&self) -> Seq<HeaderView> {
        self.chains_view()[self.canonical_index()]
    }

    pub open spec fn genesis_view(&self) -> Seq<char> {
        self.canonical_view()[0].hash
    }

    pub open spec fn height_view(&self) -> u64 {
        self.canonical_view().last().number
    }

    pub open spec fn head_view(&self) -> Seq<char> {
        self.canonical_view().last().hash
    }

    /// The chain set is sound and the canonical position points into it.
    pub open spec fn store_wf(&self) -> bool {
        &&& store_ok(self.chains_view())
        &&& 0 <= self.canonical_index() < self.chains_view().len()
    }

    /// The chain set is sound and the canonical chain is the fork-choice winner.
    pub open spec fn wf(&self) -> bool {
        &&& store_ok(self.chains_view())
        &&& is_choice(self.chains_view(), self.canonical_index())
    }

    /// A chain that may join the tracked set: linear, and starting with this
    /// network's genesis header.
    pub open spec fn accepts_chain(&self, c: Seq<HeaderView>) -> bool {
        is_linear(c) && c[0] == self.canonical_view()[0]
    }

    /// A manager that tracks only the genesis chain.
    pub fn new(genesis_hash: String) -> (r: ChainManager)
        ensures
            r.wf(),
            r.chains_view() == seq![Chain::new_view(genesis_hash@)],
            r.canonical_index() == 0,
    {
        let chain = Chain::new(genesis_hash);
        let chains = vec![chain];
        let r = ChainManager { chains, canonical: 0, rule: ForkChoiceRule::LongestChain };
        proof {
            let s = r.chains_view();
            assert(s =~= seq![Chain::new_view(genesis_hash@)]);
            crate::fork_choice::lemma_hash_le_reflexive(s[0].last().hash);
        }
        r
    }

    pub fn canonical(&self) -> (r: &Chain)
        requires
            self.store_wf(),
        ensures
            r@ == self.canonical_view(),
    {
        &self.chains[self.canonical]
    }

    pub fn canonical_height(&self) -> (r: u64)
        requires
            self.store_wf(),
        ensures
            r == self.height_view(),
    {
        proof {
            assert(is_linear(self.chains_view()[self.canonical_index()]));
        }
        self.canonical().height()
    }

    pub fn canonical_head_hash(&self) -> (r: String)
        requires
            self.store_wf(),
        ensures
            r@ == self.head_view(),
    {
        proof {
            assert(is_linear(self.chains_view()[self.canonical_index()]));
        }
        self.canonical().head_hash()
    }

    pub fn genesis_hash(&self) -> (r: String)
        requires
            self.store_wf(),
        ensures
            r@ == self.genesis_view(),
    {
        proof {
            assert(is_linear(self.chains_view()[self.canonical_index()]));
        }
        self.canonical().headers[0].hash.clone()
    }

    /// Genesis hash, head hash and height of the canonical chain.
    pub fn status(&self) -> (r: Status)
        requires
            self.store_wf(),
        ensures
            r.genesis_hash@ == self.genesis_view(),
            r.head_hash@ == self.head_view(),
            r.head_number == self.height_view(),
    {
        Status {
            genesis_hash: self.genesis_hash(),
            head_hash: self.canonical_head_hash(),
            head_number: self.canonical_height(),
        }
    }

    /// A copy of the canonical chain, to be extended as a candidate fork.
    pub fn canonical_clone(&self) -> (r: Chain)
        requires
            self.store_wf(),
        ensures
            r@ == self.canonical_view(),
    {
        self.canonical().clone()
    }

    /// Tells whether `chain` may join the tracked set.
    fn admissible(&self, chain: &Chain) -> (r: bool)
        requires
            self.store_wf(),
        ensures
            r == self.accepts_chain(chain@),
    {
        if !chain.check_linear() {
            return false;
        }
        proof {
            assert(is_linear(self.chains_view()[self.canonical_index()]));
        }
        let mine = &chain.headers[0];
        let genesis = &self.canonical().headers[0];
        mine.number == genesis.number && mine.parent_hash == genesis.parent_hash && mine.hash == genesis.hash
    }

    /// Position of the tracked chain whose head hash is `head`, if any.
    fn position_of(&self, head: &String) -> (r: Option<usize>)
        requires
            self.store_wf(),
        ensures
            r matches Some(i) ==> i < self.chains_view().len() && i == head_index(self.chains_view(), head@)
                && self.chains_view()[i as int].last().hash == head@,
            r is None ==> !has_head(self.chains_view(), head@),
    {
        let ghost s = self.chains_view();
        let mut i: usize = 0;
        while i < self.chains.len()
            invariant
                s == self.chains_view(),
                store_ok(s),
                0 <= i <= s.len(),
                forall|j: int| 0 <= j < i ==> #[trigger] s[j].last().hash != head@,
            decreases s.len() - i,
        {
            assert(is_linear(s[i as int]));
            if self.chains[i].head_hash() == *head {
                proof {
                    assert(has_head(s, head@));
                    let k = head_index(s, head@);
                    assert(s[k].last().hash == s[i as int].last().hash);
                }
                return Some(i);
            }
            i = i + 1;
        }
        None
    }

    /// Tracks `chain` under its head hash and recomputes the canonical chain.
    /// A chain that is not linear or has another genesis is ignored.
    pub fn insert_chain(&mut self, chain: Chain)
        requires
            old(self).wf(),
        ensures
            final(self).wf(),
            old(self).accepts_chain(chain@) ==> final(self).chains_view() == upsert(
                old(self).chains_view(),
                chain@,
            ),
            !old(self).accepts_chain(chain@) ==> final(self).chains_view() == old(self).chains_view()
                && final(self).canonical_index() == old(self).canonical_index(),
    {
        if !self.admissible(&chain) {
            return;
        }
        let ghost s = self.chains_view();
        let ghost c = chain@;
        proof {
            assert(is_linear(s[self.canonical_index()]));
            assert(s[self.canonical_index()][0] == s[0][0]);
        }
        let head = chain.head_hash();
        match self.position_of(&head) {
            Some(i) => {
                self.chains.set(i, chain);
                proof {
                    assert(has_head(s, c.last().hash));
                    assert(self.chains_view() =~= s.update(i as int, c));
                }
            },
            None => {
                self.chains.push(chain);
                proof {
                    assert(self.chains_view() =~= s.push(c));
                }
            },
        }
        proof {
            lemma_upsert_store_ok(s, c);
        }
        self.recompute();
    }

    /// Points the canonical position at the fork-choice winner.
    pub fn recompute(&mut self)
        requires
            old(self).store_wf(),
        ensures
            final(self).wf(),
            final(self).chains_view() == old(self).chains_view(),
    {
        proof {
            let s = self.chains_view();
            assert forall|j: int| 0 <= j < s.len() implies #[trigger] s[j].len() > 0 by {
                assert(is_linear(s[j]));
            }
            assert(all_nonempty(chain_views(self.chains@)));
        }
        match self.rule {
            ForkChoiceRule::LongestChain => match best_index(self.chains.as_slice()) {
                Some(i) => {
                    self.canonical = i;
                },
                None => {},
            },
        }
    }

    /// Whether a peer with status `remote` is worth asking for headers: it is on
    /// the same network and ahead of the local canonical chain.
    pub fn should_request(&self, remote: &Status) -> (r: bool)
        requires
            self.store_wf(),
        ensures
            r == (remote.genesis_hash@ == self.genesis_view() && remote.head_number > self.height_view()),
    {
        if remote.genesis_hash != self.genesis_hash() {
            return false;
        }
        remote.head_number > self.canonical_height()
    }

    /// The request for every header the peer has beyond the local height.
    pub fn build_request(&self, remote: &Status) -> (r: MiniSyncMessage)
        requires
            self.store_wf(),
            remote.head_number > self.height_view(),
        ensures
            r matches MiniSyncMessage::RequestHeaders(q) && q.start == self.height_view() + 1
                && q.count == remote.head_number - self.height_view() && q.count >= 1,
    {
        let local_h = self.canonical_height();
        MiniSyncMessage::RequestHeaders(
            RequestHeaders { start: local_h + 1, count: remote.head_number - local_h },
        )
    }

    /// The canonical headers that answer `req`, in ascending order.
    pub fn headers_for(&self, req: &RequestHeaders) -> (r: Headers)
        requires
            self.store_wf(),
        ensures
            headers_view(r.headers@) == requested_range(self.canonical_view(), req.start, req.count),
    {
        let chain = self.canonical();
        let len = chain.headers.len();
        let lo: usize = if req.start < len as u64 {
            req.start as usize
        } else {
            len
        };
        let avail = len - lo;
        let hi: usize = if req.count < avail as u64 {
            lo + req.count as usize
        } else {
            len
        };
        let ghost want = requested_range(self.canonical_view(), req.start, req.count);
        assert(want =~= chain@.subrange(lo as int, hi as int));
        let mut out: Vec<Header> = Vec::new();
        let mut i: usize = lo;
        while i < hi
            invariant
                lo <= i <= hi <= chain@.len(),
                out@.len() == i - lo,
                headers_view(out@) =~= chain@.subrange(lo as int, i as int),
            decreases hi - i,
        {
            let h = chain.headers[i].clone();
            assert(chain@[i as int] == h@);
            let ghost before = out@;
            out.push(h);
            proof {
                assert forall|j: int| 0 <= j < out@.len() implies #[trigger] headers_view(out@)[j]
                    == chain@.subrange(lo as int, i + 1)[j] by {
                    assert(headers_view(out@)[j] == out@[j]@);
                    assert(before.len() == i - lo);
                    if j < before.len() {
                        assert(out@[j] == before[j]);
                        assert(headers_view(before)[j] == chain@.subrange(lo as int, i as int)[j]);
                    }
                }
            }
            i = i + 1;
        }
        Headers { headers: out }
    }

    /// Extends a copy of the canonical chain by linear append of `headers` and
    /// tracks the result, which then competes in fork choice.
    pub fn import_headers(&mut self, headers: Vec<Header>)
        requires
            old(self).wf(),
        ensures
            final(self).wf(),
            final(self).chains_view() == upsert(
                old(self).chains_view(),
                linear_append(old(self).canonical_view(), headers_view(headers@)),
            ),
    {
        let ghost s = self.chains_view();
        let ghost k = self.canonical_index();
        if headers.len() == 0 {
            proof {
                lemma_upsert_tracked(s, k);
            }
            return;
        }
        let mut candidate = self.canonical_clone();
        proof {
            assert(is_linear(s[k]));
            assert(s[k][0] == s[0][0]);
        }
        candidate.append_linear(headers);
        proof {
            lemma_linear_append_linear(s[k], headers_view(headers@));
            assert(candidate@[0] == candidate@.subrange(0, s[k].len() as int)[0]);
        }
        self.insert_chain(candidate);
    }

    /// Extends a copy of the canonical chain by one header under a fresh hash
    /// and tracks it, exactly as an imported chain is tracked; being higher
    /// than every tracked chain, it becomes canonical.
    pub fn produce_next(&mut self)
        requires
            old(self).wf(),
            old(self).height_view() < u64::MAX,
        ensures
            final(self).wf(),
            final(self).height_view() == old(self).height_view() + 1,
            final(self).canonical_view().drop_last() == old(self).canonical_view(),
            exists|c: Seq<HeaderView>|
                c.drop_last() == old(self).canonical_view() && c.last().parent_hash == old(self).head_view()
                    && final(self).chains_view() == #[trigger] upsert(old(self).chains_view(), c),
    {
        let ghost s = self.chains_view();
        let ghost k = self.canonical_index();
        let mut next = self.canonical_clone();
        proof {
            assert(is_linear(s[k]));
            lemma_linear_height(s[k]);
        }
        next.produce_header();
        let ghost c = next@;
        proof {
            assert(c =~= s[k].push(c.last()));
            assert(is_linear(c)) by {
                assert forall|i: int| 0 <= i < c.len() implies #[trigger] c[i].number == i by {
                    if i < s[k].len() {
                        assert(c[i] == s[k][i]);
                    }
                }
                assert forall|i: int| 0 < i < c.len() implies #[trigger] c[i].parent_hash == c[i - 1].hash by {
                    if i < s[k].len() {
                        assert(c[i] == s[k][i] && c[i - 1] == s[k][i - 1]);
                    }
                }
            }
            assert(c[0] == s[k][0]);
            assert(s[k][0] == s[0][0]);
        }
        self.insert_chain(next);
        proof {
            lemma_higher_chain_wins(s, k, c, self.canonical_index());
        }
    }

    /// Reacts to one synchronisation message: a status from a peer that is
    /// ahead yields a request, a request yields the canonical headers it asks
    /// for, and headers are imported. Only headers change the state.
    pub fn handle_message(&mut self, msg: MiniSyncMessage) -> (r: Option<MiniSyncMessage>)
        requires
            old(self).wf(),
        ensures
            final(self).wf(),
            match msg {
                MiniSyncMessage::Status(remote) => {
                    &&& *final(self) == *old(self)
                    &&& (r is Some <==> (remote.genesis_hash@ == old(self).genesis_view()
                        && remote.head_number > old(self).height_view()))
                    &&& r matches Some(MiniSyncMessage::RequestHeaders(q)) ==> q.start
                        == old(self).height_view() + 1 && q.count == remote.head_number
                        - old(self).height_view()
                    &&& r is Some ==> r matches Some(MiniSyncMessage::RequestHeaders(_))
                },
                MiniSyncMessage::RequestHeaders(req) => {
                    &&& *final(self) == *old(self)
                    &&& r matches Some(MiniSyncMessage::Headers(hs)) && headers_view(hs.headers@)
                        == requested_range(old(self).canonical_view(), req.start, req.count)
                },
                MiniSyncMessage::Headers(hs) => {
                    &&& r is None
                    &&& final(self).chains_view() == upsert(
                        old(self).chains_view(),
                        linear_append(old(self).canonical_view(), headers_view(hs.headers@)),
                    )
                },
            },
    {
        match msg {
            MiniSyncMessage::Status(remote) => {
                if self.should_request(&remote) {
                    Some(self.build_request(&remote))
                } else {
                    None
                }
            },
            MiniSyncMessage::RequestHeaders(req) => Some(
                MiniSyncMessage::Headers(self.headers_for(&req)),
            ),
            MiniSyncMessage::Headers(hs) => {
                self.import_headers(hs.headers);
                None
            },
        }
    }
}

/// Tracking a chain that may join keeps the chain set sound.
pub proof fn lemma_upsert_store_ok(s: Seq<Seq<HeaderView>>, c: Seq<HeaderView>)
    requires
        store_ok(s),
        is_linear(c),
        c[0] == s[0][0],
    ensures
        store_ok(upsert(s, c)),
        upsert(s, c).len() > 0,
{
    let t = upsert(s, c);
    if has_head(s, c.last().hash) {
        let k = head_index(s, c.last().hash);
        assert forall|i: int| 0 <= i < t.len() implies #[trigger] t[i][0] == t[0][0] by {
            if k == 0 {
                assert(t[0] == c);
            }
            assert(s[i][0] == s[0][0]);
        }
        assert forall|i: int, j: int|
            0 <= i < t.len() && 0 <= j < t.len() && #[trigger] t[i].last().hash == #[trigger] t[j].last().hash
                implies i == j by {
            assert(t[i].last().hash == s[i].last().hash);
            assert(t[j].last().hash == s[j].last().hash);
        }
        assert forall|i: int| 0 <= i < t.len() implies #[trigger] is_linear(t[i]) by {
            if i != k {
                assert(t[i] == s[i]);
            }
        }
    } else {
        assert forall|i: int, j: int|
            0 <= i < t.len() && 0 <= j < t.len() && #[trigger] t[i].last().hash == #[trigger] t[j].last().hash
                implies i == j by {
            if i < s.len() && j == s.len() {
                assert(s[i].last().hash == c.last().hash);
            }
            if j < s.len() && i == s.len() {
                assert(s[j].last().hash == c.last().hash);
            }
        }
        assert forall|i: int| 0 <= i < t.len() implies #[trigger] is_linear(t[i]) by {
            if i < s.len() {
                assert(t[i] == s[i]);
            }
        }
        assert forall|i: int| 0 <= i < t.len() implies #[trigger] t[i][0] == t[0][0] by {
            if i < s.len() {
                assert(t[i] == s[i]);
                assert(s[i][0] == s[0][0]);
            }
        }
    }
}

/// Tracking a chain that is already tracked leaves the set as it is.
pub proof fn lemma_upsert_tracked(s: Seq<Seq<HeaderView>>, k: int)
    requires
        store_ok(s),
        0 <= k < s.len(),
    ensures
        upsert(s, s[k]) == s,
{
    assert(has_head(s, s[k].last().hash));
    let i = head_index(s, s[k].last().hash);
    assert(i == k);
    assert(s.update(k, s[k]) =~= s);
}

/// In a sound chain set at most one position is the fork-choice winner.
pub proof fn lemma_choice_index_unique(s: Seq<Seq<HeaderView>>, i: int, j: int)
    requires
        store_ok(s),
        is_choice(s, i),
        is_choice(s, j),
    ensures
        i == j,
{
    assert(s[i].last().number == s[j].last().number);
    crate::fork_choice::lemma_hash_le_antisymmetric(s[i].last().hash, s[j].last().hash);
}

proof fn lemma_linear_height(c: Seq<HeaderView>)
    requires
        is_linear(c),
    ensures
        c.last().number == c.len() - 1,
{
    assert(c[c.len() - 1].number == c.len() - 1);
}

/// A chain that may join and is higher than the canonical chain becomes the
/// fork-choice winner once tracked.
pub proof fn lemma_higher_chain_wins(s: Seq<Seq<HeaderView>>, k: int, c: Seq<HeaderView>, k1: int)
    requires
        store_ok(s),
        is_choice(s, k),
        is_linear(c),
        c[0] == s[0][0],
        c.last().number > s[k].last().number,
        is_choice(upsert(s, c), k1),
    ensures
        upsert(s, c)[k1] == c,
{
    let s1 = upsert(s, c);
    let p = if has_head(s, c.last().hash) {
        head_index(s, c.last().hash)
    } else {
        s.len() as int
    };
    assert(s1[p] == c);
    if k1 != p {
        assert(s1[k1] == s[k1]);
        assert(s[k1].last().number <= s[k].last().number);
        assert(s1[p].last().number <= s1[k1].last().number);
    }
}

/// Importing a batch that extends the canonical chain is idempotent: after
/// the first import the canonical chain is the extended one, and importing the
/// same batch again leaves the tracked chains, and so the canonical chain and
/// its height and head hash, as they were.
pub proof fn lemma_import_idempotent(
    s: Seq<Seq<HeaderView>>,
    k: int,
    batch: Seq<HeaderView>,
    k1: int,
)
    requires
        store_ok(s),
        is_choice(s, k),
        is_linear(s[k] + batch),
        is_choice(upsert(s, linear_append(s[k], batch)), k1),
    ensures
        ({
            let s1 = upsert(s, linear_append(s[k], batch));
            &&& s1[k1] == s[k] + batch
            &&& upsert(s1, linear_append(s1[k1], batch)) == s1
            &&& forall|k2: int| is_choice(s1, k2) ==> k2 == k1
        }),
{
    let c = s[k];
    assert(is_linear(c));
    lemma_linear_append_extension(c, batch);
    let c1 = c + batch;
    let s1 = upsert(s, c1);
    assert(c1.subrange(0, c.len() as int) =~= c);
    assert(c1[0] == c[0]);
    assert(c[0] == s[0][0]);
    lemma_upsert_store_ok(s, c1);
    if batch.len() == 0 {
        assert(c1 =~= c);
        lemma_upsert_tracked(s, k);
        lemma_choice_index_unique(s, k, k1);
    } else {
        lemma_linear_height(c);
        lemma_linear_height(c1);
        lemma_higher_chain_wins(s, k, c1, k1);
    }
    assert(s1[k1] == c1);
    assert forall|i: int| 0 <= i < batch.len() implies #[trigger] batch[i].number <= c1.last().number by {
        let n = c.len() + i;
        assert(c1[n] == batch[i]);
        assert(c1[n].number == n);
    }
    lemma_linear_append_stale(c1, batch);
    assert(store_ok(s1));
    lemma_upsert_tracked(s1, k1);
    assert forall|k2: int| is_choice(s1, k2) implies k2 == k1 by {
        lemma_choice_index_unique(s1, k1, k2);
    }
}

} // verus!
