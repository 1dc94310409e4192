//! Digests and the byte layout of withdrawal keys.

use vstd::prelude::*;

verus! {

/// A 256-bit digest.
pub type H256 = [u8; 32];

/// What Blake2b with a 32-byte output and no key yields on the given bytes.
pub uninterp spec fn blake2_256_of(data: Seq<u8>) -> Seq<u8>;

/// The `n` low-order bytes of `v`, least significant first.
pub open spec fn le_bytes(v: nat, n: nat) -> Seq<u8>
    decreases n,
{
    if n == 0 {
        Seq::empty()
    } else {
        seq![(v % 256) as u8] + le_bytes(v / 256, (n - 1) as nat)
    }
}

/// The SCALE encoding of the tuple `(nonce, account, quantity)`: its fields'
/// little-endian bytes, one after the other.
pub open spec fn withdraw_key_bytes(nonce: u32, account: u64, quantity: u64) -> Seq<u8> {
    le_bytes(nonce as nat, 4) + le_bytes(account as nat, 8) + le_bytes(quantity as nat, 8)
}

/// Relies on parity_codec's `Encode` for a tuple of `u32`, `u64`, `u64`: each
/// field is written in turn, as its little-endian bytes.
#[verifier::external_body]
fn encode_key_tuple(nonce: u32, account: u64, quantity: u64) -> (r: Vec<u8>)
    ensures
        r@ == withdraw_key_bytes(nonce, account, quantity),
{
    parity_codec::Encode::encode(&(nonce, account, quantity))
}

/// Relies on blake2_rfc::blake2b::blake2b with a 32-byte output and an empty
/// key: the digest depends on the bytes alone and has 32 bytes.
#[verifier::external_body]
fn blake2b_256(data: &[u8]) -> (r: H256)
    ensures
        r@ == blake2_256_of(data@),
{
    let digest = blake2_rfc::blake2b::blake2b(32, &[], data);
    let mut out = [0u8; 32];
    out.copy_from_slice(digest.as_bytes());
    out
}

/// The Blake2b-256 digest of `data`.
pub fn hash_of(data: &[u8]) -> (r: H256)
    ensures
        r@ == blake2_256_of(data@),
{
    blake2b_256(data)
}

/// The key of the withdrawal that `account` makes of `quantity` under `nonce`:
/// the digest of the encoded triple.
pub fn withdraw_key(nonce: u32, account: u64, quantity: u64) -> (r: H256)
    ensures
        r@ == blake2_256_of(withdraw_key_bytes(nonce, account, quantity)),
{
    let bytes = encode_key_tuple(nonce, account, quantity);
    blake2b_256(bytes.as_slice())
}

/// Whether two digests hold the same bytes.
pub fn same_hash(a: &H256, b: &H256) -> (r: bool)
    ensures
        r == (a@ == b@),
{
    let mut i: usize = 0;
    while i < 32
        invariant
            i <= 32,
            a@.len() == 32,
            b@.len() == 32,
            forall|j: int| 0 <= j < i ==> a@[j] == b@[j],
        decreases 32 - i,
    {
        if a[i] != b[i] {
            return false;
        }
        i = i + 1;
    }
    assert(a@ =~= b@);
    true
}

} // verus!
