//! Evaluation domains: the points at which polynomials over the scalar field are
//! evaluated and interpolated.
use crate::algebra::{cong, dot};
use crate::groups::{Groups, Scalar};
use crate::pairing::Pairing;
use crate::polynomial::eval;
use crate::units::root_of_unity;
use vstd::arithmetic::power::pow;
use vstd::prelude::*;

verus! {

/// The `i`-th point of the domain of `size` points that starts at `offset`.
pub open spec fn domain_point<E: Groups>(size: int, offset: int, i: int) -> int {
    offset * pow(root_of_unity(E::generator(), E::modulus(), size), i as nat)
}

/// `values` are the values of the polynomial `p` on the domain.
pub open spec fn interpolates<E: Groups>(
    p: Seq<int>,
    size: int,
    offset: int,
    values: Seq<int>,
) -> bool {
    &&& p.len() == size
    &&& values.len() == size
    &&& forall|i: int|
        0 <= i < size ==> cong(
            eval(p, #[trigger] domain_point::<E>(size, offset, i)),
            values[i],
            E::modulus(),
        )
}

/// The values of the polynomial `p` on the domain.
pub open spec fn values_on_domain<E: Groups>(p: Seq<int>, size: int, offset: int) -> Seq<int> {
    Seq::new(size as nat, |i: int| eval(p, domain_point::<E>(size, offset, i)))
}

/// `u` are the Lagrange coefficients of the domain at `t`: with them, the value
/// at `t` of any polynomial of degree below `size` is the inner product with its
/// values on the domain.
pub open spec fn is_lagrange<E: Groups>(u: Seq<int>, size: int, offset: int, t: int) -> bool {
    &&& u.len() == size
    &&& forall|p: Seq<int>|
        p.len() <= size ==> cong(
            #[trigger] eval(p, t),
            dot(u, values_on_domain::<E>(p, size, offset)),
            E::modulus(),
        )
}

/// A domain of roots of unity, or a coset of one.
pub struct Domain<E: Groups> {
    pub(crate) size: usize,
    pub(crate) offset: Scalar<E>,
}

impl<E: Groups> Domain<E> {
    #[verifier::type_invariant]
    pub(crate) closed spec fn is_available(&self) -> bool {
        &&& E::domain_size(self.size as int) == Some(self.size as int)
        &&& self.offset@ != 0
    }

    pub closed spec fn spec_size(&self) -> int {
        self.size as int
    }

    pub closed spec fn spec_offset(&self) -> int {
        self.offset@
    }

    pub fn size(&self) -> (size: usize)
        ensures
            size == self.spec_size(),
            E::domain_size(size as int) == Some(size as int),
    {
        proof {
            use_type_invariant(self);
        }
        self.size
    }

    /// The coset of the domain that starts at `offset`, which must differ from
    /// zero.
    pub fn get_coset(&self, offset: Scalar<E>) -> (coset: Option<Self>)
        ensures
            coset is None <==> offset@ == 0,
            coset matches Some(d) ==> d.spec_size() == self.spec_size() && d.spec_offset()
                == offset@,
    {
        proof {
            use_type_invariant(self);
        }
        if offset.is_zero() {
            None
        } else {
            Some(Domain { size: self.size, offset })
        }
    }
}

impl<E: Pairing> Domain<E> {
    /// The smallest available domain with at least `num_coeffs` points.
    pub fn new(num_coeffs: usize) -> (domain: Option<Self>)
        requires
            4 * num_coeffs <= usize::MAX,
        ensures
            match E::domain_size(num_coeffs as int) {
                Some(size) => domain matches Some(d) && d.spec_size() == size && d.spec_offset()
                    == 1,
                None => domain is None,
            },
    {
        proof {
            E::domain_size_bound(num_coeffs as int);
        }
        match E::size_of_domain(num_coeffs) {
            Some(size) => Some(Domain { size, offset: Scalar::one() }),
            None => None,
        }
    }
}

} // verus!
