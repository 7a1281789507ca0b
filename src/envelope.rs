use vstd::prelude::*;
use vstd::utf8::{decode_utf8, encode_utf8, valid_utf8};

verus! {

/// Big-endian bytes of a 32-bit length.
pub open spec fn be_bytes(n: u32) -> Seq<u8> {
    seq![(n >> 24u32) as u8, (n >> 16u32) as u8, (n >> 8u32) as u8, n as u8]
}

/// The 32-bit length held big-endian in the first four bytes of `b`.
pub open spec fn be_value(b: Seq<u8>) -> u32 {
    ((b[0] as u32) << 24u32) | ((b[1] as u32) << 16u32) | ((b[2] as u32) << 8u32) | (b[3] as u32)
}

/// Wire form of an envelope: the tag's UTF-8 length as four big-endian bytes,
/// the tag's UTF-8 bytes, then the payload.
pub open spec fn envelope_bytes(proto: Seq<char>, data: Seq<u8>) -> Seq<u8> {
    be_bytes(encode_utf8(proto).len() as u32) + encode_utf8(proto) + data
}

/// What an envelope's wire form holds: its tag and its payload, or nothing
/// when the bytes are too short for the announced tag or the tag is not UTF-8.
pub open spec fn parse_envelope(b: Seq<u8>) -> Option<(Seq<char>, Seq<u8>)> {
    if b.len() < 4 {
        None
    } else {
        let n = be_value(b) as int;
        if b.len() < 4 + n {
            None
        } else if !valid_utf8(b.subrange(4, 4 + n)) {
            None
        } else {
            Some((decode_utf8(b.subrange(4, 4 + n)), b.subrange(4 + n, b.len() as int)))
        }
    }
}

/// A frame: the payload's length as four big-endian bytes, then the payload.
pub open spec fn frame_bytes(payload: Seq<u8>) -> Seq<u8> {
    be_bytes(payload.len() as u32) + payload
}

/// The payload of a frame that holds exactly the length it announces.
pub open spec fn parse_frame(b: Seq<u8>) -> Option<Seq<u8>> {
    if b.len() >= 4 && be_value(b) == b.len() - 4 {
        Some(b.subrange(4, b.len() as int))
    } else {
        None
    }
}

/// A protocol tag and an opaque payload, so that several protocols share one
/// connection.
#[derive(Debug, Clone)]
pub struct Envelope {
    pub proto: String,
    pub data: Vec<u8>,
}

/// Relies on `String::from_utf8`: it succeeds exactly on valid UTF-8 and then
/// holds the characters those bytes encode.
#[verifier::external_body]
fn string_from_utf8(bytes: Vec<u8>) -> (r: Option<String>)
    ensures
        r is Some <==> valid_utf8(bytes@),
        r matches Some(s) ==> s@ == decode_utf8(bytes@),
{
    String::from_utf8(bytes).ok()
}

fn push_be(out: &mut Vec<u8>, n: u32)
    ensures
        final(out)@ == old(out)@ + be_bytes(n),
{
    out.push((n >> 24u32) as u8);
    out.push((n >> 16u32) as u8);
    out.push((n >> 8u32) as u8);
    out.push(n as u8);
    assert(final(out)@ =~= old(out)@ + be_bytes(n));
}

fn read_be(b: &[u8]) -> (r: u32)
    requires
        b@.len() >= 4,
    ensures
        r == be_value(b@),
{
    ((b[0] as u32) << 24u32) | ((b[1] as u32) << 16u32) | ((b[2] as u32) << 8u32) | (b[3] as u32)
}

fn push_all(out: &mut Vec<u8>, src: &[u8])
    ensures
        final(out)@ == old(out)@ + src@,
{
    let mut i: usize = 0;
    while i < src.len()
        invariant
            0 <= i <= src@.len(),
            out@ == old(out)@ + src@.subrange(0, i as int),
        decreases src@.len() - i,
    {
        out.push(src[i]);
        i = i + 1;
        assert(out@ =~= old(out)@ + src@.subrange(0, i as int));
    }
    assert(src@.subrange(0, src@.len() as int) =~= src@);
}

fn copy_range(src: &[u8], lo: usize, hi: usize) -> (r: Vec<u8>)
    requires
        lo <= hi <= src@.len(),
    ensures
        r@ == src@.subrange(lo as int, hi as int),
{
    let mut out: Vec<u8> = Vec::new();
    let mut i: usize = lo;
    while i < hi
        invariant
            lo <= i <= hi <= src@.len(),
            out@ == src@.subrange(lo as int, i as int),
        decreases hi - i,
    {
        out.push(src[i]);
        i = i + 1;
        assert(out@ =~= src@.subrange(lo as int, i as int));
    }
    out
}

impl Envelope {
    pub fn new(proto: String, data: Vec<u8>) -> (r: Envelope)
        ensures
            r.proto@ == proto@,
            r.data@ == data@,
    {
        Envelope { proto, data }
    }

    /// The envelope's wire form.
    pub fn to_bytes(&self) -> (r: Vec<u8>)
        requires
            encode_utf8(self.proto@).len() <= u32::MAX,
        ensures
            r@ == envelope_bytes(self.proto@, self.data@),
    {
        let tag = self.proto.as_str().as_bytes();
        let mut out: Vec<u8> = Vec::new();
        push_be(&mut out, tag.len() as u32);
        push_all(&mut out, tag);
        push_all(&mut out, self.data.as_slice());
        assert(out@ =~= envelope_bytes(self.proto@, self.data@));
        out
    }

    /// Reads an envelope from its wire form; malformed bytes give `None`.
    pub fn from_bytes(b: &[u8]) -> (r: Option<Envelope>)
        ensures
            r is Some <==> parse_envelope(b@) is Some,
            r matches Some(e) ==> parse_envelope(b@) == Some((e.proto@, e.data@)),
    {
        if b.len() < 4 {
            return None;
        }
        let n = read_be(b) as usize;
        if b.len() - 4 < n {
            return None;
        }
        let tag = copy_range(b, 4, 4 + n);
        let data = copy_range(b, 4 + n, b.len());
        match string_from_utf8(tag) {
            Some(proto) => Some(Envelope { proto, data }),
            None => None,
        }
    }
}

/// The frame that carries `env` on the wire.
pub fn encode(env: &Envelope) -> (r: Vec<u8>)
    requires
        encode_utf8(env.proto@).len() + 4 + env.data@.len() <= u32::MAX,
    ensures
        r@ == frame_bytes(envelope_bytes(env.proto@, env.data@)),
{
    let body = env.to_bytes();
    encode_frame(body.as_slice())
}

/// The envelope carried by a frame; malformed frames give `None`.
pub fn decode(frame: &[u8]) -> (r: Option<Envelope>)
    ensures
        r is Some <==> (parse_frame(frame@) matches Some(p) && parse_envelope(p) is Some),
        r matches Some(e) ==> (parse_frame(frame@) matches Some(p) && parse_envelope(p) == Some(
            (e.proto@, e.data@),
        )),
{
    match decode_frame(frame) {
        Some(body) => Envelope::from_bytes(body.as_slice()),
        None => None,
    }
}

/// Prefixes a payload with its length.
pub fn encode_frame(payload: &[u8]) -> (r: Vec<u8>)
    requires
        payload@.len() <= u32::MAX,
    ensures
        r@ == frame_bytes(payload@),
{
    let mut out: Vec<u8> = Vec::new();
    push_be(&mut out, payload.len() as u32);
    push_all(&mut out, payload);
    out
}

/// The payload of a frame, if the frame holds exactly the length it announces.
pub fn decode_frame(b: &[u8]) -> (r: Option<Vec<u8>>)
    ensures
        r is Some <==> parse_frame(b@) is Some,
        r matches Some(p) ==> parse_frame(b@) == Some(p@),
{
    if b.len() < 4 {
        return None;
    }
    let n = read_be(b);
    if n as u64 != (b.len() - 4) as u64 {
        return None;
    }
    Some(copy_range(b, 4, b.len()))
}

proof fn lemma_be_round_trip(n: u32)
    ensures
        be_value(be_bytes(n)) == n,
{
    let b = be_bytes(n);
    assert(b[0] == (n >> 24u32) as u8 && b[1] == (n >> 16u32) as u8 && b[2] == (n >> 8u32) as u8 && b[3] == n as u8);
    assert((((n >> 24u32) as u8 as u32) << 24u32) | (((n >> 16u32) as u8 as u32) << 16u32) | (((n >> 8u32) as u8 as u32) << 8u32) | (n as u8 as u32) == n) by (bit_vector);
}

/// Reading back an envelope's wire form gives its tag and payload.
pub proof fn lemma_envelope_round_trip(proto: Seq<char>, data: Seq<u8>)
    requires
        encode_utf8(proto).len() <= u32::MAX,
    ensures
        parse_envelope(envelope_bytes(proto, data)) == Some((proto, data)),
{
    let tag = encode_utf8(proto);
    let n = tag.len() as u32;
    let b = envelope_bytes(proto, data);
    lemma_be_round_trip(n);
    assert(b.subrange(0, 4) =~= be_bytes(n));
    assert(be_value(b) == be_value(b.subrange(0, 4)));
    assert(b.subrange(4, 4 + n as int) =~= tag);
    assert(b.subrange(4 + n as int, b.len() as int) =~= data);
    vstd::utf8::encode_utf8_valid_utf8(proto);
    vstd::utf8::encode_utf8_decode_utf8(proto);
}

/// Reading back a frame gives its payload.
pub proof fn lemma_frame_round_trip(payload: Seq<u8>)
    requires
        payload.len() <= u32::MAX,
    ensures
        parse_frame(frame_bytes(payload)) == Some(payload),
{
    let b = frame_bytes(payload);
    lemma_be_round_trip(payload.len() as u32);
    assert(b.subrange(0, 4) =~= be_bytes(payload.len() as u32));
    assert(be_value(b) == be_value(b.subrange(0, 4)));
    assert(b.subrange(4, b.len() as int) =~= payload);
}

/// Decoding the frame that carries an envelope gives back its tag and payload.
pub proof fn lemma_codec_round_trip(proto: Seq<char>, data: Seq<u8>)
    requires
        encode_utf8(proto).len() + 4 + data.len() <= u32::MAX,
    ensures
        parse_frame(frame_bytes(envelope_bytes(proto, data))) == Some(envelope_bytes(proto, data)),
        parse_envelope(envelope_bytes(proto, data)) == Some((proto, data)),
{
    lemma_frame_round_trip(envelope_bytes(proto, data));
    lemma_envelope_round_trip(proto, data);
}

} // verus!
