use vstd::prelude::*;
use vstd::utf8::encode_utf8;

use crate::chain::Chain;
use crate::header::HeaderView;

verus! {

/// Lexicographic order on byte strings, the order Rust gives `str`.
pub open spec fn bytes_le(a: Seq<u8>, b: Seq<u8>) -> bool
    decreases a.len(),
{
    if a.len() == 0 {
        true
    } else if b.len() == 0 {
        false
    } else if a[0] != b[0] {
        a[0] < b[0]
    } else {
        bytes_le(a.drop_first(), b.drop_first())
    }
}

/// Order of head hashes used to break ties: byte order of their UTF-8 text.
pub open spec fn hash_le(a: Seq<char>, b: Seq<char>) -> bool {
    bytes_le(encode_utf8(a), encode_utf8(b))
}

pub open spec fn chain_views(s: Seq<Chain>) -> Seq<Seq<HeaderView>> {
    s.map_values(|c: Chain| c@)
}

pub open spec fn all_nonempty(s: Seq<Seq<HeaderView>>) -> bool {
    forall|j: int| 0 <= j < s.len() ==> #[trigger] s[j].len() > 0
}

/// `s[i]` is what the longest-chain rule selects: no candidate is higher, and
/// among those of the same height none has a smaller head hash.
pub open spec fn is_choice(s: Seq<Seq<HeaderView>>, i: int) -> bool {
    &&& 0 <= i < s.len()
    &&& forall|j: int| 0 <= j < s.len() ==> #[trigger] s[j].last().number <= s[i].last().number
    &&& forall|j: int|
        0 <= j < s.len() && #[trigger] s[j].last().number == s[i].last().number ==> hash_le(
            s[i].last().hash,
            s[j].last().hash,
        )
}

/// Candidates that share a head hash are the same chain.
pub open spec fn distinct_heads(s: Seq<Seq<HeaderView>>) -> bool {
    forall|i: int, j: int|
        0 <= i < s.len() && 0 <= j < s.len() && #[trigger] s[i].last().hash == #[trigger] s[j].last().hash
            ==> s[i] == s[j]
}

/// How the canonical chain is chosen among candidates.
#[derive(Debug, Clone, Copy, PartialEq, Eq, Structural)]
pub enum ForkChoiceRule {
    LongestChain,
}

proof fn lemma_bytes_le_total(a: Seq<u8>, b: Seq<u8>)
    ensures
        bytes_le(a, b) || bytes_le(b, a),
    decreases a.len(),
{
    if a.len() > 0 && b.len() > 0 && a[0] == b[0] {
        lemma_bytes_le_total(a.drop_first(), b.drop_first());
    }
}

proof fn lemma_bytes_le_reflexive(a: Seq<u8>)
    ensures
        bytes_le(a, a),
    decreases a.len(),
{
    if a.len() > 0 {
        lemma_bytes_le_reflexive(a.drop_first());
    }
}

proof fn lemma_bytes_le_antisymmetric(a: Seq<u8>, b: Seq<u8>)
    requires
        bytes_le(a, b),
        bytes_le(b, a),
    ensures
        a == b,
    decreases a.len(),
{
    if a.len() > 0 {
        lemma_bytes_le_antisymmetric(a.drop_first(), b.drop_first());
        assert(a =~= seq![a[0]] + a.drop_first());
        assert(b =~= seq![b[0]] + b.drop_first());
    } else {
        assert(b.len() == 0);
        assert(a =~= b);
    }
}

proof fn lemma_bytes_le_transitive(a: Seq<u8>, b: Seq<u8>, c: Seq<u8>)
    requires
        bytes_le(a, b),
        bytes_le(b, c),
    ensures
        bytes_le(a, c),
    decreases a.len(),
{
    if a.len() > 0 && b.len() > 0 && c.len() > 0 && a[0] == b[0] && b[0] == c[0] {
        lemma_bytes_le_transitive(a.drop_first(), b.drop_first(), c.drop_first());
    }
}

/// Every head hash is in order with itself.
pub proof fn lemma_hash_le_reflexive(a: Seq<char>)
    ensures
        hash_le(a, a),
{
    lemma_bytes_le_reflexive(encode_utf8(a));
}

/// Head hashes in order both ways are equal.
pub proof fn lemma_hash_le_antisymmetric(a: Seq<char>, b: Seq<char>)
    requires
        hash_le(a, b),
        hash_le(b, a),
    ensures
        a == b,
{
    lemma_bytes_le_antisymmetric(encode_utf8(a), encode_utf8(b));
    vstd::utf8::encode_utf8_decode_utf8(a);
    vstd::utf8::encode_utf8_decode_utf8(b);
}

/// Compares two byte strings in lexicographic order.
fn bytes_le_exec(a: &[u8], b: &[u8]) -> (r: bool)
    ensures
        r == bytes_le(a@, b@),
{
    let mut i: usize = 0;
    assert(a@.subrange(0, a@.len() as int) =~= a@);
    assert(b@.subrange(0, b@.len() as int) =~= b@);
    while i < a.len() && i < b.len() && a[i] == b[i]
        invariant
            0 <= i <= a@.len(),
            i <= b@.len(),
            bytes_le(a@, b@) == bytes_le(a@.subrange(i as int, a@.len() as int), b@.subrange(i as int, b@.len() as int)),
        decreases a@.len() - i,
    {
        proof {
            let sa = a@.subrange(i as int, a@.len() as int);
            let sb = b@.subrange(i as int, b@.len() as int);
            assert(sa.drop_first() =~= a@.subrange(i + 1, a@.len() as int));
            assert(sb.drop_first() =~= b@.subrange(i + 1, b@.len() as int));
        }
        i = i + 1;
    }
    if i == a.len() {
        true
    } else if i == b.len() {
        false
    } else {
        a[i] < b[i]
    }
}

/// Position of the chain that the longest-chain rule selects, ties going to the
/// smallest head hash; `None` only for an empty slice.
pub fn best_index(candidates: &[Chain]) -> (r: Option<usize>)
    requires
        all_nonempty(chain_views(candidates@)),
    ensures
        r is None <==> candidates@.len() == 0,
        r matches Some(i) ==> is_choice(chain_views(candidates@), i as int),
{
    let ghost s = chain_views(candidates@);
    if candidates.len() == 0 {
        return None;
    }
    let mut best: usize = 0;
    let mut i: usize = 1;
    assert(s[0].len() > 0);
    proof {
        lemma_bytes_le_reflexive(encode_utf8(s[0].last().hash));
    }
    while i < candidates.len()
        invariant
            s == chain_views(candidates@),
            all_nonempty(s),
            0 <= best < i <= candidates@.len(),
            forall|j: int| 0 <= j < i ==> #[trigger] s[j].last().number <= s[best as int].last().number,
            forall|j: int|
                0 <= j < i && #[trigger] s[j].last().number == s[best as int].last().number ==> hash_le(
                    s[best as int].last().hash,
                    s[j].last().hash,
                ),
        decreases candidates@.len() - i,
    {
        assert(s[i as int].len() > 0 && s[best as int].len() > 0);
        let hi = candidates[i].height();
        let hb = candidates[best].height();
        proof {
            lemma_bytes_le_reflexive(encode_utf8(s[i as int].last().hash));
        }
        if hi > hb {
            best = i;
        } else if hi == hb {
            let a = candidates[i].head().hash.as_str().as_bytes();
            let b = candidates[best].head().hash.as_str().as_bytes();
            let keep = bytes_le_exec(b, a);
            if !keep {
                proof {
                    let ni = s[i as int].last().hash;
                    let nb = s[best as int].last().hash;
                    lemma_bytes_le_total(encode_utf8(nb), encode_utf8(ni));
                    assert forall|j: int|
                        0 <= j < i && #[trigger] s[j].last().number == s[i as int].last().number implies hash_le(
                        ni,
                        s[j].last().hash,
                    ) by {
                        lemma_bytes_le_transitive(
                            encode_utf8(ni),
                            encode_utf8(nb),
                            encode_utf8(s[j].last().hash),
                        );
                    }
                }
                best = i;
            }
        }
        i = i + 1;
    }
    Some(best)
}

/// Selects the canonical chain among the candidates under `rule`.
pub fn choose_chain<'a>(rule: &ForkChoiceRule, candidates: &'a [Chain]) -> (r: Option<&'a Chain>)
    requires
        all_nonempty(chain_views(candidates@)),
    ensures
        r is None <==> candidates@.len() == 0,
        r matches Some(c) ==> exists|i: int|
            is_choice(chain_views(candidates@), i) && #[trigger] candidates@[i] == *c,
{
    match rule {
        ForkChoiceRule::LongestChain => match best_index(candidates) {
            Some(i) => Some(&candidates[i]),
            None => None,
        },
    }
}

/// Fork choice depends only on which chains are candidates, not on the order
/// in which they are listed: when chains that share a head hash are the same
/// chain, any two listings of one set of chains select the same chain.
pub proof fn lemma_choice_deterministic(
    s1: Seq<Seq<HeaderView>>,
    s2: Seq<Seq<HeaderView>>,
    i1: int,
    i2: int,
)
    requires
        s1.to_set() == s2.to_set(),
        all_nonempty(s1),
        distinct_heads(s1),
        is_choice(s1, i1),
        is_choice(s2, i2),
    ensures
        s1[i1] == s2[i2],
{
    assert(s1.to_set().contains(s1[i1]));
    assert(s2.to_set().contains(s2[i2]));
    let j2 = s2.index_of(s1[i1]);
    let j1 = s1.index_of(s2[i2]);
    assert(s2[j2] == s1[i1]);
    assert(s1[j1] == s2[i2]);
    assert(s2[j2].last().number <= s2[i2].last().number);
    assert(s1[j1].last().number <= s1[i1].last().number);
    assert(hash_le(s1[i1].last().hash, s1[j1].last().hash));
    assert(hash_le(s2[i2].last().hash, s2[j2].last().hash));
    lemma_hash_le_antisymmetric(s1[i1].last().hash, s2[i2].last().hash);
}

/// When one candidate is strictly higher than every other, fork choice selects it.
pub proof fn lemma_choice_unique_max(s: Seq<Seq<HeaderView>>, i: int, k: int)
    requires
        0 <= k < s.len(),
        forall|j: int| 0 <= j < s.len() && j != k ==> #[trigger] s[j].last().number < s[k].last().number,
        is_choice(s, i),
    ensures
        i == k,
{
    assert(s[k].last().number <= s[i].last().number);
}

} // verus!
