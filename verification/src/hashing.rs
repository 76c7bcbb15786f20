use vstd::prelude::*;
use vstd::arithmetic::power2::pow2;
use parity_codec::Encode;

use crate::types::{AccountId, OrderId};

verus! {

/// The eight little-endian bytes of `x`, lowest first.
pub open spec fn le_bytes_u64(x: u64) -> Seq<u8> {
    Seq::new(8, |i: int| ((x as int / pow2((8 * i) as nat) as int) % 256) as u8)
}

/// The SCALE encoding of the tuple (seed, sender, nonce): the 32 seed bytes
/// as they stand, then the little-endian bytes of `sender` and of `nonce`.
pub open spec fn order_hash_input(seed: [u8; 32], sender: AccountId, nonce: u64) -> Seq<u8> {
    seed@ + le_bytes_u64(sender) + le_bytes_u64(nonce)
}

/// The 256-bit BLAKE2b digest (no key) of `data`.
pub uninterp spec fn blake2b_256(data: Seq<u8>) -> Seq<u8>;

/// The order id that the hash of (seed, sender, nonce) gives.
pub open spec fn order_id_for(seed: [u8; 32], sender: AccountId, nonce: u64) -> OrderId {
    choose|id: OrderId| id@ == blake2b_256(order_hash_input(seed, sender, nonce))
}

/// Calls `parity_codec::Encode::encode` on the tuple (seed, sender, nonce).
/// Claimed: the bytes are the SCALE encoding, that is the seed bytes in
/// order followed by the little-endian bytes of each `u64`.
#[verifier::external_body]
fn encode_hash_input(seed: [u8; 32], sender: AccountId, nonce: u64) -> (r: Vec<u8>)
    ensures
        r@ == order_hash_input(seed, sender, nonce),
{
    (seed, sender, nonce).encode()
}

/// Calls `blake2_rfc::blake2b::blake2b` with a 32-byte digest and an empty
/// key, and copies the digest out. Claimed: the result is the digest that
/// `blake2b_256` names for `data`; nothing is said of which bytes that is.
#[verifier::external_body]
fn blake2b_256_digest(data: &[u8]) -> (r: [u8; 32])
    ensures
        r@ == blake2b_256(data@),
{
    let digest = blake2_rfc::blake2b::blake2b(32, &[], data);
    let mut r = [0u8;32];
    r.copy_from_slice(digest.as_bytes());
    r
}

/// The id of an order placed by `sender` when the block's random seed is
/// `seed` and the module's nonce is `nonce`: the BLAKE2b-256 hash of their
/// SCALE encoding.
pub fn order_id(seed: [u8; 32], sender: AccountId, nonce: u64) -> (id: OrderId)
    ensures
        id == order_id_for(seed, sender, nonce),
        id@ == blake2b_256(order_hash_input(seed, sender, nonce)),
{
    let input = encode_hash_input(seed, sender, nonce);
    let id = blake2b_256_digest(input.as_slice());
    proof {
        broadcast use vstd::array::group_array_axioms;
        let chosen = order_id_for(seed, sender, nonce);
        assert(chosen@ == id@);
        assert(chosen =~= id) by {
            assert forall|i: int| 0 <= i < 32 implies chosen[i] == id[i] by {
                assert(chosen@[i] == id@[i]);
            }
        }
    }
    id
}

/// Whether two order ids are the same 32 bytes.
pub fn same_order_id(a: &OrderId, b: &OrderId) -> (r: bool)
    ensures
        r == (*a == *b),
{
    broadcast use vstd::array::group_array_axioms;
    let mut i: usize = 0;
    while i < 32
        invariant
            0 <= i <= 32,
            forall|j: int| 0 <= j < i ==> a[j] == b[j],
        decreases 32 - i,
    {
        if a[i] != b[i] {
            return false;
        }
        i = i + 1;
    }
    assert(*a =~= *b);
    true
}

} // verus!
