//! Keys and proofs.
use crate::algebra::views;
use crate::groups::{Groups, Gt, G1, G2};
use vstd::prelude::*;

verus! {

// ---------------------------------------------------------------------------
// Proofs
// ---------------------------------------------------------------------------

/// The model of a proof: the multiples of the generators that its elements are.
pub struct ProofModel {
    pub a: int,
    pub b: int,
    pub c: int,
    pub delta_prime: int,
}

/// A proof.
pub struct Proof<E: Groups> {
    /// The `A` element, in the first group.
    pub a: G1<E>,
    /// The `B` element, in the second group.
    pub b: G2<E>,
    /// The `C` element, in the first group.
    pub c: G1<E>,
    /// The multiple of `delta` that the prover chose, in the second group.
    pub delta_prime: G2<E>,
}

impl<E: Groups> View for Proof<E> {
    type V = ProofModel;

    open spec fn view(&self) -> ProofModel {
        ProofModel { a: self.a@, b: self.b@, c: self.c@, delta_prime: self.delta_prime@ }
    }
}

// ---------------------------------------------------------------------------
// Keys
// ---------------------------------------------------------------------------

/// The model of a verifying key.
#[verifier::ext_equal]
pub struct VerifyingKeyModel {
    pub alpha_g1: int,
    pub beta_g2: int,
    pub gamma_g2: int,
    pub delta_g2: int,
    pub gamma_abc_g1: Seq<int>,
    pub alpha_g1_beta_g2: Seq<u8>,
}

/// A key to verify proofs with.
pub struct VerifyingKey<E: Groups> {
    /// `alpha`, in the first group.
    pub alpha_g1: G1<E>,
    /// `beta`, in the second group.
    pub beta_g2: G2<E>,
    /// `gamma`, in the second group.
    pub gamma_g2: G2<E>,
    /// `delta`, in the second group.
    pub delta_g2: G2<E>,
    /// `(beta a_i + alpha b_i + c_i) / gamma` for the variables of the instance.
    pub gamma_abc_g1: Vec<G1<E>>,
    /// The pairing of `alpha` with `beta`.
    pub alpha_g1_beta_g2: Gt<E>,
}

impl<E: Groups> View for VerifyingKey<E> {
    type V = VerifyingKeyModel;

    open spec fn view(&self) -> VerifyingKeyModel {
        VerifyingKeyModel {
            alpha_g1: self.alpha_g1@,
            beta_g2: self.beta_g2@,
            gamma_g2: self.gamma_g2@,
            delta_g2: self.delta_g2@,
            gamma_abc_g1: views(self.gamma_abc_g1@),
            alpha_g1_beta_g2: self.alpha_g1_beta_g2@,
        }
    }
}

impl<E: Groups> Clone for VerifyingKey<E> {
    fn clone(&self) -> (res: Self)
        ensures
            res@ == self@,
    {
        let mut gamma_abc_g1: Vec<G1<E>> = Vec::new();
        let mut i: usize = 0;
        while i < self.gamma_abc_g1.len()
            invariant
                i <= self.gamma_abc_g1@.len(),
                gamma_abc_g1@.len() == i,
                forall|j: int|
                    0 <= j < i ==> (#[trigger] gamma_abc_g1@[j])@ == self.gamma_abc_g1@[j]@,
            decreases self.gamma_abc_g1@.len() - i,
        {
            gamma_abc_g1.push(self.gamma_abc_g1[i].clone());
            i = i + 1;
        }
        assert(views(gamma_abc_g1@) =~= views(self.gamma_abc_g1@));
        VerifyingKey {
            alpha_g1: self.alpha_g1.clone(),
            beta_g2: self.beta_g2.clone(),
            gamma_g2: self.gamma_g2.clone(),
            delta_g2: self.delta_g2.clone(),
            gamma_abc_g1,
            alpha_g1_beta_g2: self.alpha_g1_beta_g2.clone(),
        }
    }
}

/// A verifying key with what can be computed ahead of the proofs.
pub struct PreparedVerifyingKey<E: Groups> {
    /// The verifying key itself.
    pub vk: VerifyingKey<E>,
    /// `-gamma`, in the second group.
    pub gamma_g2_neg_pc: G2<E>,
}

/// The model of a proving key.
#[verifier::ext_equal]
pub struct ProvingKeyModel {
    pub vk: VerifyingKeyModel,
    pub beta_g1: int,
    pub delta_g1: int,
    pub a_query: Seq<int>,
    pub b_g1_query: Seq<int>,
    pub b_g2_query: Seq<int>,
    pub h_query: Seq<int>,
    pub l_query: Seq<int>,
}

/// A key to create proofs with.
pub struct ProvingKey<E: Groups> {
    /// The verifying key that belongs to it.
    pub vk: VerifyingKey<E>,
    /// `beta`, in the first group.
    pub beta_g1: G1<E>,
    /// `delta`, in the first group.
    pub delta_g1: G1<E>,
    /// `a_i` for all variables, in the first group.
    pub a_query: Vec<G1<E>>,
    /// `b_i` for all variables, in the first group.
    pub b_g1_query: Vec<G1<E>>,
    /// `b_i` for all variables, in the second group.
    pub b_g2_query: Vec<G2<E>>,
    /// The powers of the secret point, times the value of the vanishing polynomial
    /// there, over `delta`.
    pub h_query: Vec<G1<E>>,
    /// `(beta a_i + alpha b_i + c_i) / delta` for the variables of the witness.
    pub l_query: Vec<G1<E>>,
}

impl<E: Groups> View for ProvingKey<E> {
    type V = ProvingKeyModel;

    open spec fn view(&self) -> ProvingKeyModel {
        ProvingKeyModel {
            vk: self.vk@,
            beta_g1: self.beta_g1@,
            delta_g1: self.delta_g1@,
            a_query: views(self.a_query@),
            b_g1_query: views(self.b_g1_query@),
            b_g2_query: views(self.b_g2_query@),
            h_query: views(self.h_query@),
            l_query: views(self.l_query@),
        }
    }
}

} // verus!
