use vstd::prelude::*;

verus! {

/// Lowercase hexadecimal digit of a value below 16.
pub open spec fn hex_digit(d: int) -> char {
    seq!['0', '1', '2', '3', '4', '5', '6', '7', '8', '9', 'a', 'b', 'c', 'd', 'e', 'f'][d]
}

/// Two lowercase hexadecimal digits per byte, high nibble first.
pub open spec fn hex_of(b: Seq<u8>) -> Seq<char>
    decreases b.len(),
{
    if b.len() == 0 {
        Seq::empty()
    } else {
        hex_of(b.drop_last()) + seq![hex_digit(b.last() as int / 16), hex_digit(b.last() as int % 16)]
    }
}

/// Relies on `hex::encode`: each byte becomes two digits of
/// "0123456789abcdef", high nibble first.
#[verifier::external_body]
pub(crate) fn to_hex(bytes: &[u8]) -> (r: String)
    ensures
        r@ == hex_of(bytes@),
{
    hex::encode(bytes)
}

/// Relies on rand's thread-local generator (`RngCore::fill_bytes`): a buffer of
/// the given length, filled with bytes of which nothing is known.
#[verifier::external_body]
pub(crate) fn random_bytes(len: usize) -> (r: Vec<u8>)
    ensures
        r@.len() == len,
{
    let mut buf = vec![0u8; len];
    rand::RngCore::fill_bytes(&mut rand::thread_rng(), &mut buf);
    buf
}

/// Number of random bytes behind a produced header hash.
pub const HASH_BYTES: usize = 16;

/// A hash for a freshly produced header: "0x" and the hex digits of random bytes.
pub fn fresh_hash() -> (r: String)
    ensures
        exists|b: Seq<u8>| b.len() == HASH_BYTES && r@ == seq!['0', 'x'] + #[trigger] hex_of(b),
{
    let bytes = random_bytes(HASH_BYTES);
    let digits = to_hex(bytes.as_slice());
    let mut r = "0x".to_owned();
    r.append(digits.as_str());
    proof {
        reveal_strlit("0x");
        assert(r@ =~= seq!['0', 'x'] + hex_of(bytes@));
    }
    r
}

} // verus!
