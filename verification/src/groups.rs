//! The algebra that the proof system stands on: a prime field of scalars, two
//! groups of prime order with a pairing into a third, and the types that hold
//! their elements.
use core::marker::PhantomData;
use vstd::arithmetic::div_mod::{lemma_mod_bound, lemma_small_mod};
use vstd::prelude::*;

verus! {

/// What a pairing-friendly curve is, as mathematics.
///
/// Each of the three groups is cyclic of order `modulus()` and has a fixed
/// generator. An element is known by the multiple of the generator that it is: a
/// number `k` with `0 <= k < modulus()`.
pub trait Groups: Sized {
    /// The prime order of the groups, which is the modulus of the scalar field.
    spec fn modulus() -> int;

    /// The generator of the multiplicative group of the scalar field.
    spec fn generator() -> int;

    /// The size of the smallest available evaluation domain with `n` points.
    spec fn domain_size(n: int) -> Option<int>;

    /// The uncompressed encoding of `k` times the generator of the first group.
    spec fn g1_encoding(k: int) -> Seq<u8>;

    /// The uncompressed encoding of `k` times the generator of the second group.
    spec fn g2_encoding(k: int) -> Seq<u8>;

    /// The encoding of the `k`-th power of the pairing of the two generators.
    spec fn gt_encoding(k: int) -> Seq<u8>;

    /// The compressed encoding of `k` times the generator of the first group.
    spec fn g1_compressed(k: int) -> Seq<u8>;

    /// The compressed encoding of `k` times the generator of the second group.
    spec fn g2_compressed(k: int) -> Seq<u8>;

    /// The modulus needs more than one word of 64 bits.
    proof fn modulus_bound()
        ensures
            0x1_0000_0000_0000_0000 < Self::modulus(),
    ;

    /// A domain is large enough and no larger than it need be for its own size,
    /// which divides the order of the multiplicative group properly.
    proof fn domain_size_bound(n: int)
        requires
            0 <= n,
        ensures
            Self::domain_size(n) matches Some(size) ==> {
                &&& n <= size <= 2 * n + 1
                &&& 0 < size
                &&& 2 * size <= Self::modulus() - 1
                &&& (Self::modulus() - 1) % size == 0
                &&& Self::domain_size(size) == Some(size)
            },
    ;
}

// ---------------------------------------------------------------------------
// Scalars
// ---------------------------------------------------------------------------

/// The number that four limbs of 64 bits spell, the least significant one first.
pub open spec fn limbs_value(limbs: Seq<u64>) -> int {
    limbs[0] + limbs[1] * 0x1_0000_0000_0000_0000 + limbs[2]
        * 0x1_0000_0000_0000_0000_0000_0000_0000_0000int + limbs[3]
        * 0x1_0000_0000_0000_0000_0000_0000_0000_0000_0000_0000_0000_0000int
}

/// An element of the scalar field. Its view is the number it stands for, which
/// lies below the modulus.
pub struct Scalar<E: Groups> {
    pub(crate) limbs: [u64; 4],
    pub(crate) marker: PhantomData<E>,
}

impl<E: Groups> View for Scalar<E> {
    type V = int;

    closed spec fn view(&self) -> int {
        limbs_value(self.limbs@) % E::modulus()
    }
}

impl<E: Groups> Scalar<E> {
    #[verifier::type_invariant]
    pub(crate) closed spec fn is_reduced(&self) -> bool {
        limbs_value(self.limbs@) < E::modulus()
    }

    /// The view of a scalar lies below the modulus.
    pub proof fn view_bound(self)
        ensures
            0 <= self@ < E::modulus(),
    {
        E::modulus_bound();
        lemma_mod_bound(limbs_value(self.limbs@), E::modulus());
    }

    /// The scalar that stands for `x`.
    pub fn from_u64(x: u64) -> (s: Self)
        ensures
            s@ == x,
    {
        let limbs: [u64; 4] = [x, 0, 0, 0];
        proof {
            E::modulus_bound();
            assert(limbs_value(limbs@) == x);
            lemma_small_mod(x as nat, E::modulus() as nat);
        }
        Scalar { limbs, marker: PhantomData }
    }

    pub fn zero() -> (s: Self)
        ensures
            s@ == 0,
    {
        Self::from_u64(0)
    }

    pub fn one() -> (s: Self)
        ensures
            s@ == 1,
    {
        Self::from_u64(1)
    }

    pub fn is_zero(&self) -> (b: bool)
        ensures
            b == (self@ == 0),
    {
        self.is_word(0)
    }

    pub fn is_one(&self) -> (b: bool)
        ensures
            b == (self@ == 1),
    {
        self.is_word(1)
    }

    fn is_word(&self, x: u64) -> (b: bool)
        ensures
            b == (self@ == x),
    {
        proof {
            use_type_invariant(self);
            lemma_small_mod(limbs_value(self.limbs@) as nat, E::modulus() as nat);
        }
        self.limbs[0] == x && self.limbs[1] == 0 && self.limbs[2] == 0 && self.limbs[3] == 0
    }

    /// The four limbs of the number that the scalar stands for, the least
    /// significant one first.
    pub fn to_limbs(&self) -> (limbs: [u64; 4])
        ensures
            limbs_value(limbs@) == self@,
    {
        proof {
            use_type_invariant(self);
            lemma_small_mod(limbs_value(self.limbs@) as nat, E::modulus() as nat);
        }
        self.limbs
    }
}

impl<E: Groups> Clone for Scalar<E> {
    fn clone(&self) -> (s: Self)
        ensures
            s == *self,
    {
        *self
    }
}

impl<E: Groups> Copy for Scalar<E> {

}

// ---------------------------------------------------------------------------
// Points
// ---------------------------------------------------------------------------

/// An element of the first group. Its view is the multiple of the generator that
/// it is.
pub struct G1<E: Groups> {
    pub(crate) bytes: Vec<u8>,
    pub(crate) marker: PhantomData<E>,
}

impl<E: Groups> View for G1<E> {
    type V = int;

    closed spec fn view(&self) -> int {
        (choose|k: int| 0 <= k < E::modulus() && self.bytes@ == #[trigger] E::g1_encoding(k))
            % E::modulus()
    }
}

impl<E: Groups> G1<E> {
    #[verifier::type_invariant]
    pub(crate) closed spec fn is_element(&self) -> bool {
        exists|k: int| 0 <= k < E::modulus() && self.bytes@ == #[trigger] E::g1_encoding(k)
    }

    /// The view of an element lies below the order of the group.
    pub proof fn view_bound(self)
        ensures
            0 <= self@ < E::modulus(),
    {
        E::modulus_bound();
        let k = choose|k: int| 0 <= k < E::modulus() && self.bytes@ == #[trigger] E::g1_encoding(k);
        lemma_mod_bound(k, E::modulus());
    }
}

impl<E: Groups> Clone for G1<E> {
    fn clone(&self) -> (p: Self)
        ensures
            p@ == self@,
    {
        proof {
            use_type_invariant(self);
        }
        let bytes = self.bytes.clone();
        assert(bytes@ =~= self.bytes@);
        G1 { bytes, marker: PhantomData }
    }
}

/// An element of the second group. Its view is the multiple of the generator that
/// it is.
pub struct G2<E: Groups> {
    pub(crate) bytes: Vec<u8>,
    pub(crate) marker: PhantomData<E>,
}

impl<E: Groups> View for G2<E> {
    type V = int;

    closed spec fn view(&self) -> int {
        (choose|k: int| 0 <= k < E::modulus() && self.bytes@ == #[trigger] E::g2_encoding(k))
            % E::modulus()
    }
}

impl<E: Groups> G2<E> {
    #[verifier::type_invariant]
    pub(crate) closed spec fn is_element(&self) -> bool {
        exists|k: int| 0 <= k < E::modulus() && self.bytes@ == #[trigger] E::g2_encoding(k)
    }

    /// The view of an element lies below the order of the group.
    pub proof fn view_bound(self)
        ensures
            0 <= self@ < E::modulus(),
    {
        E::modulus_bound();
        let k = choose|k: int| 0 <= k < E::modulus() && self.bytes@ == #[trigger] E::g2_encoding(k);
        lemma_mod_bound(k, E::modulus());
    }
}

impl<E: Groups> Clone for G2<E> {
    fn clone(&self) -> (p: Self)
        ensures
            p@ == self@,
    {
        proof {
            use_type_invariant(self);
        }
        let bytes = self.bytes.clone();
        assert(bytes@ =~= self.bytes@);
        G2 { bytes, marker: PhantomData }
    }
}

/// An element of the field that hosts the target group, as it is encoded. Its
/// view is the encoding: two elements are equal where their encodings are.
pub struct Gt<E: Groups> {
    pub(crate) bytes: Vec<u8>,
    pub(crate) marker: PhantomData<E>,
}

impl<E: Groups> View for Gt<E> {
    type V = Seq<u8>;

    closed spec fn view(&self) -> Seq<u8> {
        self.bytes@
    }
}

impl<E: Groups> Gt<E> {
    pub fn from_bytes(bytes: Vec<u8>) -> (x: Self)
        ensures
            x@ == bytes@,
    {
        Gt { bytes, marker: PhantomData }
    }

    pub fn to_bytes(&self) -> (bytes: Vec<u8>)
        ensures
            bytes@ == self@,
    {
        let bytes = self.bytes.clone();
        assert(bytes@ =~= self.bytes@);
        bytes
    }

    /// Whether two elements are equal.
    pub fn equals(&self, other: &Self) -> (b: bool)
        ensures
            b == (self@ == other@),
    {
        if self.bytes.len() != other.bytes.len() {
            return false;
        }
        let mut i: usize = 0;
        while i < self.bytes.len()
            invariant
                i <= self.bytes@.len(),
                self.bytes@.len() == other.bytes@.len(),
                forall|j: int| 0 <= j < i ==> self.bytes@[j] == other.bytes@[j],
            decreases self.bytes@.len() - i,
        {
            if self.bytes[i] != other.bytes[i] {
                assert(self.bytes@[i as int] != other.bytes@[i as int]);
                return false;
            }
            i = i + 1;
        }
        assert(self.bytes@ =~= other.bytes@);
        true
    }
}

impl<E: Groups> Clone for Gt<E> {
    fn clone(&self) -> (x: Self)
        ensures
            x@ == self@,
    {
        Gt { bytes: self.to_bytes(), marker: PhantomData }
    }
}

} // verus!
