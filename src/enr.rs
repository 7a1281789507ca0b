use vstd::prelude::*;

use crate::crypto::{
    ecdsa_accepts, ecdsa_signature, keccak256, keccak_of, sign_message, verify_signature, CryptoError,
    Keypair,
};

verus! {

#[verifier::external_type_specification]
#[verifier::external_body]
pub struct ExRlpStream(rlp::RlpStream);

/// RLP encodings of the items appended to a stream so far.
pub uninterp spec fn rlp_items(s: rlp::RlpStream) -> Seq<Seq<u8>>;

/// Number of items the list a stream was opened for holds.
pub uninterp spec fn rlp_capacity(s: rlp::RlpStream) -> nat;

/// RLP encoding of an unsigned integer.
pub uninterp spec fn rlp_of_u64(v: u64) -> Seq<u8>;

/// RLP encoding of a byte string.
pub uninterp spec fn rlp_of_bytes(b: Seq<u8>) -> Seq<u8>;

/// RLP encoding of a list, given the encodings of its items.
pub uninterp spec fn rlp_list(items: Seq<Seq<u8>>) -> Seq<u8>;

/// Relies on `rlp::RlpStream::new_list`: a stream for a list of `len` items,
/// none appended yet.
#[verifier::external_body]
fn rlp_new_list(len: usize) -> (r: rlp::RlpStream)
    ensures
        rlp_items(r) == Seq::<Seq<u8>>::empty(),
        rlp_capacity(r) == len,
{
    rlp::RlpStream::new_list(len)
}

/// Relies on `rlp::RlpStream::append` for `u64`: adds the integer's encoding
/// as the next item. Appending beyond the list's length panics.
#[verifier::external_body]
fn rlp_append_u64(s: &mut rlp::RlpStream, v: u64)
    requires
        rlp_items(*old(s)).len() < rlp_capacity(*old(s)),
    ensures
        rlp_items(*final(s)) == rlp_items(*old(s)).push(rlp_of_u64(v)),
        rlp_capacity(*final(s)) == rlp_capacity(*old(s)),
{
    s.append(&v);
}

/// Relies on `rlp::RlpStream::append` for `Vec<u8>`: adds the byte string's
/// encoding as the next item. Appending beyond the list's length panics.
#[verifier::external_body]
fn rlp_append_bytes(s: &mut rlp::RlpStream, b: &Vec<u8>)
    requires
        rlp_items(*old(s)).len() < rlp_capacity(*old(s)),
    ensures
        rlp_items(*final(s)) == rlp_items(*old(s)).push(rlp_of_bytes(b@)),
        rlp_capacity(*final(s)) == rlp_capacity(*old(s)),
{
    s.append(b);
}

/// Relies on `rlp::RlpStream::out`: the encoded list once all its items are
/// appended (it panics before that).
#[verifier::external_body]
fn rlp_out(s: rlp::RlpStream) -> (r: Vec<u8>)
    requires
        rlp_items(s).len() == rlp_capacity(s),
    ensures
        r@ == rlp_list(rlp_items(s)),
{
    s.out().to_vec()
}

/// RLP items of a record: the sequence number, then each key and its value.
pub open spec fn record_items(seq: u64, pairs: Seq<(Seq<u8>, Seq<u8>)>) -> Seq<Seq<u8>>
    decreases pairs.len(),
{
    if pairs.len() == 0 {
        seq![rlp_of_u64(seq)]
    } else {
        record_items(seq, pairs.drop_last()).push(rlp_of_bytes(pairs.last().0)).push(
            rlp_of_bytes(pairs.last().1),
        )
    }
}

/// The digest a record's signature covers.
pub open spec fn record_digest(seq: u64, pairs: Seq<(Seq<u8>, Seq<u8>)>) -> Seq<u8> {
    keccak_of(rlp_list(record_items(seq, pairs)))
}

proof fn lemma_record_items_len(seq: u64, pairs: Seq<(Seq<u8>, Seq<u8>)>)
    ensures
        record_items(seq, pairs).len() == 1 + 2 * pairs.len(),
    decreases pairs.len(),
{
    if pairs.len() > 0 {
        lemma_record_items_len(seq, pairs.drop_last());
    }
}

/// Keccak-256 of the RLP list of `seq` and the pairs.
fn digest_of(seq: u64, pairs: &Vec<(Vec<u8>, Vec<u8>)>) -> (r: [u8; 32])
    requires
        pairs@.len() < usize::MAX / 2,
    ensures
        r@ == record_digest(seq, pair_views(pairs@)),
{
    let ghost pv = pair_views(pairs@);
    let mut stream = rlp_new_list(1 + pairs.len() * 2);
    proof {
        lemma_record_items_len(seq, pv);
    }
    rlp_append_u64(&mut stream, seq);
    let mut i: usize = 0;
    assert(pv.take(0) =~= Seq::<(Seq<u8>, Seq<u8>)>::empty());
    while i < pairs.len()
        invariant
            0 <= i <= pairs@.len(),
            pairs@.len() < usize::MAX / 2,
            pv == pair_views(pairs@),
            rlp_capacity(stream) == 1 + 2 * pairs@.len(),
            rlp_items(stream) == record_items(seq, pv.take(i as int)),
        decreases pairs@.len() - i,
    {
        proof {
            lemma_record_items_len(seq, pv.take(i as int));
            assert(pv.take(i + 1).drop_last() =~= pv.take(i as int));
            assert(pv.take(i + 1).last() == (pairs@[i as int].0@, pairs@[i as int].1@));
        }
        rlp_append_bytes(&mut stream, &pairs[i].0);
        rlp_append_bytes(&mut stream, &pairs[i].1);
        i = i + 1;
    }
    proof {
        assert(pv.take(pairs@.len() as int) =~= pv);
        lemma_record_items_len(seq, pv);
    }
    let encoded = rlp_out(stream);
    keccak256(encoded.as_slice())
}

/// A signed identity record.
#[derive(Debug, Clone)]
pub struct EnrRecord {
    pub signature: Vec<u8>,
    pub seq: u64,
    pub pairs: Vec<(Vec<u8>, Vec<u8>)>,
}

impl EnrRecord {
    /// The digest the signature covers: Keccak-256 of the RLP list of the
    /// sequence number and the pairs.
    pub fn content_hash(&self) -> (r: [u8; 32])
        requires
            self.pairs@.len() < usize::MAX / 2,
        ensures
            r@ == record_digest(self.seq, pair_views(self.pairs@)),
    {
        digest_of(self.seq, &self.pairs)
    }

    /// Whether the record's signature is valid under `pubkey`.
    pub fn verify(&self, pubkey: &Vec<u8>) -> (r: bool)
        requires
            self.pairs@.len() < usize::MAX / 2,
        ensures
            r == ecdsa_accepts(pubkey@, record_digest(self.seq, pair_views(self.pairs@)), self.signature@),
    {
        let content_hash = self.content_hash();
        verify_signature(pubkey.as_slice(), &content_hash, self.signature.as_slice())
    }
}

pub open spec fn pair_views(s: Seq<(Vec<u8>, Vec<u8>)>) -> Seq<(Seq<u8>, Seq<u8>)> {
    s.map_values(|p: (Vec<u8>, Vec<u8>)| (p.0@, p.1@))
}

/// Why an identity record could not be made or checked.
#[derive(Debug, Clone, Copy, PartialEq, Eq)]
pub enum EnrError {
    RlpError,
    InvalidSignature,
    MissingField(&'static str),
}

/// Collects the sequence number and key/value pairs of an identity record.
#[derive(Debug, Clone)]
pub struct EnrBuilder {
    seq: u64,
    pairs: Vec<(Vec<u8>, Vec<u8>)>,
}

fn copy_bytes(src: &[u8]) -> (r: Vec<u8>)
    ensures
        r@ == src@,
{
    let mut out: Vec<u8> = Vec::new();
    let mut i: usize = 0;
    while i < src.len()
        invariant
            0 <= i <= src@.len(),
            out@ == src@.subrange(0, i as int),
        decreases src@.len() - i,
    {
        out.push(src[i]);
        i = i + 1;
        assert(out@ =~= src@.subrange(0, i as int));
    }
    assert(src@.subrange(0, src@.len() as int) =~= src@);
    out
}

impl EnrBuilder {
    pub closed spec fn seq_view(&self) -> u64 {
        self.seq
    }

    pub closed spec fn pairs_view(&self) -> Seq<(Seq<u8>, Seq<u8>)> {
        pair_views(self.pairs@)
    }

    /// A builder with sequence number 1 and no pairs.
    pub fn new() -> (r: EnrBuilder)
        ensures
            r.seq_view() == 1,
            r.pairs_view() == Seq::<(Seq<u8>, Seq<u8>)>::empty(),
    {
        let r = EnrBuilder { seq: 1, pairs: Vec::new() };
        assert(r.pairs_view() =~= Seq::<(Seq<u8>, Seq<u8>)>::empty());
        r
    }

    /// Sets the sequence number.
    pub fn seq(self, seq: u64) -> (r: EnrBuilder)
        ensures
            r.seq_view() == seq,
            r.pairs_view() == self.pairs_view(),
    {
        EnrBuilder { seq, pairs: self.pairs }
    }

    /// Appends a key/value pair.
    pub fn add(self, key: &[u8], value: &[u8]) -> (r: EnrBuilder)
        ensures
            r.seq_view() == self.seq_view(),
            r.pairs_view() == self.pairs_view().push((key@, value@)),
    {
        let mut pairs = self.pairs;
        let ghost before = pairs@;
        pairs.push((copy_bytes(key), copy_bytes(value)));
        let r = EnrBuilder { seq: self.seq, pairs };
        assert(r.pairs_view() =~= pair_views(before).push((key@, value@)));
        r
    }

    /// Signs the record's digest with `keypair` and returns the signed record.
    pub fn build(self, keypair: &Keypair) -> (r: Result<EnrRecord, CryptoError>)
        requires
            self.pairs_view().len() < usize::MAX / 2,
        ensures
            r matches Ok(rec) ==> {
                &&& rec.seq == self.seq_view()
                &&& pair_views(rec.pairs@) == self.pairs_view()
                &&& rec.signature@ == ecdsa_signature(
                    keypair.signing_key@,
                    record_digest(self.seq_view(), self.pairs_view()),
                )
            },
    {
        let hash = digest_of(self.seq, &self.pairs);
        match sign_message(keypair.signing_key.as_slice(), &hash) {
            Ok(signature) => Ok(EnrRecord { signature, seq: self.seq, pairs: self.pairs }),
            Err(e) => Err(e),
        }
    }
}

} // verus!
