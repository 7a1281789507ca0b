use vstd::prelude::*;

use crate::header::{Header, HeaderView};
use crate::ident::fresh_hash;

verus! {

/// Parent hash carried by every genesis header.
pub const GENESIS_PARENT: &'static str = "0x00";

/// True when `h` is the header that comes right after `tip`.
pub open spec fn continues(tip: HeaderView, h: HeaderView) -> bool {
    h.number == tip.number + 1 && h.parent_hash == tip.hash
}

/// Strict linear ancestry: each header is numbered by its position and
/// names the previous header as its parent.
pub open spec fn is_linear(c: Seq<HeaderView>) -> bool {
    &&& c.len() > 0
    &&& forall|i: int| 0 <= i < c.len() ==> #[trigger] c[i].number == i
    &&& forall|i: int| 0 < i < c.len() ==> #[trigger] c[i].parent_hash == c[i - 1].hash
}

/// Length of the longest prefix of `batch` whose headers continue one another,
/// starting from the tip of `c`.
pub open spec fn linked_prefix_len(c: Seq<HeaderView>, batch: Seq<HeaderView>) -> nat
    decreases batch.len(),
{
    if batch.len() == 0 {
        0
    } else {
        let k = linked_prefix_len(c, batch.drop_last());
        if k == batch.len() - 1 && continues((c + batch.drop_last()).last(), batch.last()) {
            k + 1
        } else {
            k
        }
    }
}

/// Linear append of a batch: the longest prefix of the batch that links onto
/// the tip header by header is appended; the rest of the batch is dropped.
pub open spec fn linear_append(c: Seq<HeaderView>, batch: Seq<HeaderView>) -> Seq<HeaderView> {
    c + batch.take(linked_prefix_len(c, batch) as int)
}

pub open spec fn headers_view(hs: Seq<Header>) -> Seq<HeaderView> {
    hs.map_values(|h: Header| h@)
}

/// One candidate history: `headers[0]` is the genesis header.
#[derive(Debug)]
pub struct Chain {
    pub headers: Vec<Header>,
}

impl View for Chain {
    type V = Seq<HeaderView>;

    open spec fn view(&self) -> Seq<HeaderView> {
        headers_view(self.headers@)
    }
}

impl Clone for Chain {
    fn clone(&self) -> (r: Self)
        ensures
            r@ == self@,
    {
        let headers = self.headers.clone();
        assert(headers_view(headers@) =~= headers_view(self.headers@));
        Chain { headers }
    }
}

impl Chain {
    /// The chain that holds only a genesis header with the given hash.
    pub open spec fn new_view(genesis_hash: Seq<char>) -> Seq<HeaderView> {
        seq![HeaderView { parent_hash: GENESIS_PARENT@, hash: genesis_hash, number: 0 }]
    }

    /// A chain that holds only its genesis header.
    pub fn new(genesis_hash: String) -> (r: Chain)
        ensures
            r@ == Chain::new_view(genesis_hash@),
            is_linear(r@),
    {
        let genesis = Header { parent_hash: GENESIS_PARENT.to_owned(), hash: genesis_hash, number: 0 };
        let r = Chain { headers: vec![genesis] };
        assert(r@ =~= seq![HeaderView { parent_hash: GENESIS_PARENT@, hash: r.headers@[0].hash@, number: 0 }]);
        r
    }

    pub fn head(&self) -> (r: &Header)
        requires
            self@.len() > 0,
        ensures
            r@ == self@.last(),
    {
        &self.headers[self.headers.len() - 1]
    }

    pub fn height(&self) -> (r: u64)
        requires
            self@.len() > 0,
        ensures
            r == self@.last().number,
    {
        self.head().number
    }

    pub fn head_hash(&self) -> (r: String)
        requires
            self@.len() > 0,
        ensures
            r@ == self@.last().hash,
    {
        self.head().hash.clone()
    }

    /// Tells whether the chain is non-empty and strictly linear.
    pub fn check_linear(&self) -> (r: bool)
        ensures
            r == is_linear(self@),
    {
        if self.headers.len() == 0 {
            return false;
        }
        assert(self@[0] == self.headers@[0]@);
        if self.headers[0].number != 0 {
            assert(self@[0].number != 0);
            return false;
        }
        let mut i: usize = 1;
        while i < self.headers.len()
            invariant
                1 <= i <= self@.len(),
                forall|j: int| 0 <= j < i ==> #[trigger] self@[j].number == j,
                forall|j: int| 0 < j < i ==> #[trigger] self@[j].parent_hash == self@[j - 1].hash,
            decreases self@.len() - i,
        {
            let h = &self.headers[i];
            let prev = &self.headers[i - 1];
            assert(self@[i as int] == h@ && self@[i - 1] == prev@);
            assert(self@[i - 1].number == i - 1);
            if !(h.number > 0 && h.number - 1 == prev.number && h.parent_hash == prev.hash) {
                assert(self@[i as int].number != i || self@[i as int].parent_hash != self@[i - 1].hash);
                return false;
            }
            assert(self@[i as int].number == i);
            i = i + 1;
        }
        true
    }

    /// Appends the supplied headers while each continues the current tip;
    /// from the first one that does not, the rest of the batch is dropped.
    pub fn append_linear(&mut self, headers: Vec<Header>)
        requires
            old(self)@.len() > 0,
        ensures
            final(self)@ == linear_append(old(self)@, headers_view(headers@)),
    {
        let ghost start = self@;
        let ghost batch = headers_view(headers@);
        let mut i: usize = 0;
        assert(batch.take(0) =~= Seq::<HeaderView>::empty());
        assert(start + batch.take(0) =~= start);
        while i < headers.len()
            invariant
                0 <= i <= headers@.len(),
                batch == headers_view(headers@),
                start.len() > 0,
                start == old(self)@,
                self@ == start + batch.take(i as int),
                linked_prefix_len(start, batch.take(i as int)) == i,
            decreases headers@.len() - i,
        {
            let h = headers[i].clone();
            let tip = self.head();
            let keep = h.number > 0 && h.number - 1 == tip.number && h.parent_hash == tip.hash;
            proof {
                assert(batch.take(i + 1).drop_last() =~= batch.take(i as int));
                assert(batch.take(i + 1).last() == h@);
            }
            if !keep {
                proof {
                    assert(tip@ == (start + batch.take(i as int)).last());
                    assert(!continues((start + batch.take(i as int)).last(), h@));
                    assert(linked_prefix_len(start, batch.take(i + 1)) == i);
                    lemma_linked_prefix_settles(start, batch, i as int + 1, headers@.len() as int);
                    assert(batch.take(headers@.len() as int) =~= batch);
                    assert(linked_prefix_len(start, batch) == i);
                    assert(self@ == linear_append(start, batch));
                }
                return;
            }
            self.headers.push(h);
            assert(self@ =~= (start + batch.take(i as int)).push(h@));
            assert(start + batch.take(i + 1) =~= (start + batch.take(i as int)).push(h@));
            i = i + 1;
        }
        assert(batch.take(headers@.len() as int) =~= batch);
    }

    /// Appends the header that follows the tip, under the given hash.
    pub fn produce_header_with(&mut self, hash: String)
        requires
            old(self)@.len() > 0,
            old(self)@.last().number < u64::MAX,
        ensures
            final(self)@ == old(self)@.push(
                HeaderView {
                    parent_hash: old(self)@.last().hash,
                    hash: hash@,
                    number: (old(self)@.last().number + 1) as u64,
                },
            ),
    {
        let parent = self.head().clone();
        let h = Header { parent_hash: parent.hash, hash, number: parent.number + 1 };
        self.headers.push(h);
        assert(self@ =~= old(self)@.push(h@));
    }

    /// Appends the header that follows the tip, under a fresh random hash.
    pub fn produce_header(&mut self)
        requires
            old(self)@.len() > 0,
            old(self)@.last().number < u64::MAX,
        ensures
            final(self)@.len() == old(self)@.len() + 1,
            final(self)@.drop_last() == old(self)@,
            final(self)@.last().parent_hash == old(self)@.last().hash,
            final(self)@.last().number == old(self)@.last().number + 1,
    {
        let hash = fresh_hash();
        self.produce_header_with(hash);
        assert(self@.drop_last() =~= old(self)@);
    }
}

/// A header that continues the tip of a linear chain keeps it linear.
proof fn lemma_push_linear(c: Seq<HeaderView>, h: HeaderView)
    requires
        is_linear(c),
        continues(c.last(), h),
    ensures
        is_linear(c.push(h)),
{
    let next = c.push(h);
    assert(c[c.len() - 1].number == c.len() - 1);
    assert forall|i: int| 0 <= i < next.len() implies #[trigger] next[i].number == i by {
        if i < c.len() {
            assert(next[i] == c[i]);
        }
    }
    assert forall|i: int| 0 < i < next.len() implies #[trigger] next[i].parent_hash == next[i - 1].hash by {
        if i < c.len() {
            assert(next[i] == c[i] && next[i - 1] == c[i - 1]);
        }
    }
}

/// Linear append keeps the chain linear, keeps what it held as a prefix and
/// adds only headers of the batch.
pub proof fn lemma_linear_append_linear(c: Seq<HeaderView>, batch: Seq<HeaderView>)
    requires
        is_linear(c),
    ensures
        is_linear(linear_append(c, batch)),
        linear_append(c, batch).len() >= c.len(),
        linear_append(c, batch).subrange(0, c.len() as int) == c,
{
    let k = linked_prefix_len(c, batch) as int;
    lemma_linked_prefix(c, batch);
    lemma_prefix_linear(c, batch, k);
    assert((c + batch.take(k)).subrange(0, c.len() as int) =~= c);
}

proof fn lemma_prefix_linear(c: Seq<HeaderView>, batch: Seq<HeaderView>, j: int)
    requires
        is_linear(c),
        0 <= j <= linked_prefix_len(c, batch) <= batch.len(),
        forall|i: int|
            0 <= i < linked_prefix_len(c, batch) ==> #[trigger] continues(
                (c + batch.take(i)).last(),
                batch[i],
            ),
    ensures
        is_linear(c + batch.take(j)),
    decreases j,
{
    if j == 0 {
        assert(c + batch.take(0) =~= c);
    } else {
        lemma_prefix_linear(c, batch, j - 1);
        assert(continues((c + batch.take(j - 1)).last(), batch[j - 1]));
        lemma_push_linear(c + batch.take(j - 1), batch[j - 1]);
        assert((c + batch.take(j - 1)).push(batch[j - 1]) =~= c + batch.take(j));
    }
}

} // verus!

verus! {

proof fn lemma_linked_prefix(c: Seq<HeaderView>, batch: Seq<HeaderView>)
    requires
        c.len() > 0,
    ensures
        linked_prefix_len(c, batch) <= batch.len(),
        forall|j: int|
            0 <= j < linked_prefix_len(c, batch) ==> #[trigger] continues(
                (c + batch.take(j)).last(),
                batch[j],
            ),
        linked_prefix_len(c, batch) < batch.len() ==> !continues(
            (c + batch.take(linked_prefix_len(c, batch) as int)).last(),
            batch[linked_prefix_len(c, batch) as int],
        ),
    decreases batch.len(),
{
    if batch.len() > 0 {
        let b = batch.drop_last();
        lemma_linked_prefix(c, b);
        let k = linked_prefix_len(c, b);
        assert forall|j: int| 0 <= j <= b.len() implies #[trigger] batch.take(j) == b.take(j) by {
            assert(batch.take(j) =~= b.take(j));
        }
        assert(batch.take(b.len() as int) =~= b);
        assert forall|j: int| 0 <= j < linked_prefix_len(c, batch) implies #[trigger] continues(
            (c + batch.take(j)).last(),
            batch[j],
        ) by {
            if j < k {
                assert(continues((c + b.take(j)).last(), b[j]));
            }
        }
    }
}

/// Once a header fails to continue the tip, longer parts of the batch link no
/// further.
proof fn lemma_linked_prefix_settles(c: Seq<HeaderView>, batch: Seq<HeaderView>, j: int, n: int)
    requires
        0 < j <= n <= batch.len(),
        linked_prefix_len(c, batch.take(j)) < j,
    ensures
        linked_prefix_len(c, batch.take(n)) == linked_prefix_len(c, batch.take(j)),
    decreases n - j,
{
    if n > j {
        lemma_linked_prefix_settles(c, batch, j, n - 1);
        assert(batch.take(n).drop_last() =~= batch.take(n - 1));
    }
}

/// Linear append of a batch onto a chain keeps exactly the longest prefix of
/// the batch that links onto the tip header by header: every header of that
/// prefix continues the one before it, the header after it (if any) does not
/// continue its last header, and nothing after it is appended.
pub proof fn lemma_append_selectivity(c: Seq<HeaderView>, batch: Seq<HeaderView>)
    requires
        c.len() > 0,
    ensures
        ({
            let k = linked_prefix_len(c, batch) as int;
            &&& k <= batch.len()
            &&& linear_append(c, batch) == c + batch.take(k)
            &&& linear_append(c, batch).len() == c.len() + k
            &&& forall|j: int| 0 <= j < k ==> #[trigger] continues((c + batch.take(j)).last(), batch[j])
            &&& k < batch.len() ==> !continues((c + batch.take(k)).last(), batch[k])
        }),
{
    lemma_linked_prefix(c, batch);
}

/// A batch that extends the chain header by header is appended whole.
pub proof fn lemma_linear_append_extension(c: Seq<HeaderView>, batch: Seq<HeaderView>)
    requires
        c.len() > 0,
        is_linear(c + batch),
    ensures
        linked_prefix_len(c, batch) == batch.len(),
        linear_append(c, batch) == c + batch,
    decreases batch.len(),
{
    if batch.len() > 0 {
        let b = batch.drop_last();
        assert(is_linear(c + b)) by {
            let whole = c + batch;
            let part = c + b;
            assert forall|i: int| 0 <= i < part.len() implies #[trigger] part[i].number == i by {
                assert(part[i] == whole[i]);
            }
            assert forall|i: int| 0 < i < part.len() implies #[trigger] part[i].parent_hash == part[i - 1].hash by {
                assert(part[i] == whole[i] && part[i - 1] == whole[i - 1]);
            }
        }
        lemma_linear_append_extension(c, b);
        let n = (c + b).len() as int;
        assert((c + batch)[n] == batch.last());
        assert((c + batch)[n - 1] == (c + b).last());
        assert((c + batch)[n].number == n);
        assert((c + batch)[n - 1].number == n - 1);
    }
    assert(batch.take(batch.len() as int) =~= batch);
}

/// Headers numbered no higher than the tip of a chain all leave it unchanged.
pub proof fn lemma_linear_append_stale(c: Seq<HeaderView>, batch: Seq<HeaderView>)
    requires
        c.len() > 0,
        forall|i: int| 0 <= i < batch.len() ==> #[trigger] batch[i].number <= c.last().number,
    ensures
        linked_prefix_len(c, batch) == 0,
        linear_append(c, batch) == c,
    decreases batch.len(),
{
    if batch.len() > 0 {
        let b = batch.drop_last();
        assert forall|i: int| 0 <= i < b.len() implies #[trigger] b[i].number <= c.last().number by {
            assert(b[i] == batch[i]);
        }
        lemma_linear_append_stale(c, b);
        assert(batch.last() == batch[batch.len() - 1]);
        if b.len() == 0 {
            assert(c + b =~= c);
        }
    }
    assert(c + batch.take(0) =~= c);
}

} // verus!
