//! Hash-to-field: folding a byte string into a base-field element with the
//! curve's two-input Pedersen hash.
//!
//! Each input byte is taken as a single-byte field element; the first two
//! bytes are hashed pairwise and the remaining bytes are folded in from the
//! left.  The final accumulator is reinterpreted through its Montgomery
//! residue, matching the consumed field library's internal little-limb
//! representation, so that every conformant implementation produces the
//! same bits.

use vstd::prelude::*;
use crate::curve::{limbs_to_fe};
use crate::field::{Felt};

verus! {

/// What the outside library's two-input Pedersen hash returns: a function
/// of the two field elements alone.
pub uninterp spec fn pedersen_of(a: nat, b: nat) -> nat;

/// The Montgomery residue of a base-field element in the outside field
/// library: a bijective function of the element alone.
pub uninterp spec fn mont_of(x: nat) -> nat;

/// The Pedersen fold of a byte string of length at least two:
/// `h0 = H(b0, b1)`, then `h = H(h, b)` for each later byte `b`.
pub open spec fn pedersen_chain(msg: Seq<u8>) -> nat
    recommends
        msg.len() >= 2,
    decreases msg.len(),
{
    if msg.len() <= 2 {
        pedersen_of(msg[0] as nat, msg[1] as nat)
    } else {
        pedersen_of(pedersen_chain(msg.drop_last()), msg.last() as nat)
    }
}

/// The full hash-to-field map: the Pedersen fold, reinterpreted via its
/// Montgomery residue.
pub open spec fn hash_to_field_of(msg: Seq<u8>) -> nat {
    mont_of(pedersen_chain(msg))
}

/// Relies on starknet-crypto `pedersen_hash`: a base-field element
/// depending on the two inputs alone.
#[verifier::external_body]
pub fn pedersen(a: &Felt, b: &Felt) -> (r: Felt)
    requires
        a.wf(),
        b.wf(),
    ensures
        r.wf(),
        r@ == pedersen_of(a@, b@),
{
    let h = starknet_crypto::pedersen_hash(&limbs_to_fe(&a.limbs), &limbs_to_fe(&b.limbs));
    Felt { limbs: crate::curve::fe_to_limbs(&h) }
}

/// Relies on starknet-ff `FieldElement::into_mont`: the canonical
/// Montgomery residue of the element, itself reduced below the modulus.
#[verifier::external_body]
pub fn felt_mont(a: &Felt) -> (r: Felt)
    requires
        a.wf(),
    ensures
        r.wf(),
        r@ == mont_of(a@),
{
    Felt { limbs: limbs_to_fe(&a.limbs).into_mont() }
}

/// A hash-to-field capability: one deterministic map from byte strings of
/// length at least two into the base field.
pub trait HashToField: Sized {
    /// The mathematical map this hasher computes.
    spec fn hash_spec(msg: Seq<u8>) -> nat;

    fn new() -> (r: Self);

    /// Hashes the message; a message shorter than two bytes is rejected.
    fn hash(&self, msg: &[u8]) -> (r: Option<Felt>)
        ensures
            r is Some <==> msg@.len() >= 2,
            r matches Some(h) ==> h.wf() && h@ == Self::hash_spec(msg@),
    ;
}

/// The Pedersen-chain hash-to-field map.
pub struct PedersenHash;

impl HashToField for PedersenHash {
    open spec fn hash_spec(msg: Seq<u8>) -> nat {
        hash_to_field_of(msg)
    }

    fn new() -> (r: Self) {
        PedersenHash
    }

    fn hash(&self, msg: &[u8]) -> (r: Option<Felt>)
        ensures
            r is Some <==> msg@.len() >= 2,
            r matches Some(h) ==> h.wf() && h@ == hash_to_field_of(msg@),
    {
        pedersen_hash_str(msg)
    }
}

/// The Pedersen fold of a byte string, or `None` on fewer than two bytes.
pub fn pedersen_hash_str(message: &[u8]) -> (r: Option<Felt>)
    ensures
        r is Some <==> message@.len() >= 2,
        r matches Some(h) ==> h.wf() && h@ == hash_to_field_of(message@),
{
    let n = message.len();
    if n < 2 {
        return None;
    }
    let mut h = pedersen(&Felt::from_byte(message[0]), &Felt::from_byte(message[1]));
    let mut i: usize = 2;
    while i < n
        invariant
            2 <= i <= n,
            n == message@.len(),
            h.wf(),
            h@ == pedersen_chain(message@.take(i as int)),
        decreases n - i,
    {
        h = pedersen(&h, &Felt::from_byte(message[i]));
        proof {
            let pre = message@.take(i as int);
            let post = message@.take(i + 1);
            assert(post.drop_last() =~= pre);
            assert(post.last() == message@[i as int]);
        }
        i = i + 1;
    }
    proof {
        assert(message@.take(n as int) =~= message@);
    }
    Some(felt_mont(&h))
}

} // verus!
