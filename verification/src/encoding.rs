//! Elements as bytes.
use crate::algebra::le_value;
use crate::groups::{Scalar, G1, G2};
use crate::pairing::Pairing;
use vstd::prelude::*;

verus! {

impl<E: Pairing> Scalar<E> {
    /// The number that the bytes spell, the least significant one first, reduced.
    pub fn from_le_bytes_mod_order(bytes: &[u8]) -> (s: Self)
        ensures
            s@ == le_value(bytes@) % E::modulus(),
    {
        E::scalar_from_le_bytes_mod_order(bytes)
    }
}

impl<E: Pairing> G1<E> {
    /// The compressed encoding of the element.
    pub fn to_bytes(&self) -> (bytes: Vec<u8>)
        ensures
            bytes@ == E::g1_compressed(self@),
    {
        E::g1_compress(self)
    }

    /// The element whose compressed encoding the bytes are or start with, if there
    /// is one: what [`G1::to_bytes`] gives is read back.
    pub fn from_bytes(bytes: &[u8]) -> (p: Option<Self>)
        ensures
            match p {
                Some(q) => E::g1_compressed(q@).is_prefix_of(bytes@),
                None => forall|k: int|
                    0 <= k < E::modulus() ==> !(#[trigger] E::g1_compressed(k)).is_prefix_of(
                        bytes@,
                    ),
            },
            forall|k: int|
                0 <= k < E::modulus() && bytes@ == #[trigger] E::g1_compressed(k) ==> (
                p matches Some(q) && q@ == k),
    {
        let p = E::g1_decompress(bytes);
        proof {
            if p is Some {
                p->0.view_bound();
            }
            assert forall|k: int|
                0 <= k < E::modulus() && bytes@ == #[trigger] E::g1_compressed(k) implies (
            p matches Some(q) && q@ == k) by {
                assert(E::g1_compressed(k).is_prefix_of(bytes@));
            }
        }
        p
    }
}

impl<E: Pairing> G2<E> {
    /// The compressed encoding of the element.
    pub fn to_bytes(&self) -> (bytes: Vec<u8>)
        ensures
            bytes@ == E::g2_compressed(self@),
    {
        E::g2_compress(self)
    }

    /// The element whose compressed encoding the bytes are or start with, if there
    /// is one: what [`G2::to_bytes`] gives is read back.
    pub fn from_bytes(bytes: &[u8]) -> (p: Option<Self>)
        ensures
            match p {
                Some(q) => E::g2_compressed(q@).is_prefix_of(bytes@),
                None => forall|k: int|
                    0 <= k < E::modulus() ==> !(#[trigger] E::g2_compressed(k)).is_prefix_of(
                        bytes@,
                    ),
            },
            forall|k: int|
                0 <= k < E::modulus() && bytes@ == #[trigger] E::g2_compressed(k) ==> (
                p matches Some(q) && q@ == k),
    {
        let p = E::g2_decompress(bytes);
        proof {
            if p is Some {
                p->0.view_bound();
            }
            assert forall|k: int|
                0 <= k < E::modulus() && bytes@ == #[trigger] E::g2_compressed(k) implies (
            p matches Some(q) && q@ == k) by {
                assert(E::g2_compressed(k).is_prefix_of(bytes@));
            }
        }
        p
    }
}

} // verus!
