//! The challenge that binds a proof to its own elements.
use crate::algebra::le_value;
use crate::groups::{Groups, Scalar, G1, G2};
use crate::pairing::Pairing;
use blake2::{Blake2b512, Digest};
use vstd::prelude::*;

verus! {

/// The Blake2b hash, of 64 bytes, of a message.
pub uninterp spec fn blake2b512(message: Seq<u8>) -> Seq<u8>;

/// Calls `Digest::digest` of `blake2::Blake2b512`, which hashes the whole message
/// in one go. The digest is a function of the message alone, named `blake2b512`,
/// and has 64 bytes.
#[verifier::external_body]
fn hash(message: &[u8]) -> (digest: Vec<u8>)
    ensures
        digest@ == blake2b512(message@),
        digest@.len() == 64,
{
    Blake2b512::digest(message).to_vec()
}

/// The scalar that the hash of the compressed elements `a`, `b` and `delta_prime`
/// spells, the least significant byte first.
pub open spec fn challenge<E: Groups>(a: int, b: int, delta_prime: int) -> int {
    le_value(
        blake2b512(E::g1_compressed(a) + E::g2_compressed(b) + E::g2_compressed(delta_prime)),
    ) % E::modulus()
}

/// The challenge for the elements `a`, `b` and `delta_prime` of a proof.
pub fn fiat_shamir_challenge<E: Pairing>(a: &G1<E>, b: &G2<E>, delta_prime: &G2<E>) -> (m: Scalar<
    E,
>)
    ensures
        m@ == challenge::<E>(a@, b@, delta_prime@),
        m@ == le_value(
            blake2b512(
                E::g1_compressed(a@) + E::g2_compressed(b@) + E::g2_compressed(delta_prime@),
            ),
        ) % E::modulus(),
{
    let mut message = E::g1_compress(a);
    let mut bytes = E::g2_compress(b);
    message.append(&mut bytes);
    bytes = E::g2_compress(delta_prime);
    message.append(&mut bytes);
    E::scalar_from_le_bytes_mod_order(hash(message.as_slice()).as_slice())
}

} // verus!
