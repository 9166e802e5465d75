//! Sources of random scalars.
use crate::groups::Scalar;
use crate::pairing::Pairing;
use ark_std::rand::rngs::StdRng;
use vstd::prelude::*;

pub use crate::recorded::Recorded;

verus! {

/// A random number generator of the `rand` crate. Nothing is known of its state
/// or of what it draws.
#[verifier::external_type_specification]
#[verifier::external_body]
pub struct ExStdRng(ark_std::rand::rngs::StdRng);

/// Something that random scalars can be drawn from. Nothing is asked of the
/// scalars: what uses a source is right for all that it may give.
pub trait ScalarSource<E: Pairing> {
    fn next_scalar(&mut self) -> (s: Scalar<E>);
}

impl<E: Pairing> ScalarSource<E> for StdRng {
    /// The scalar is the one that the curve draws from the generator, which is left
    /// in the state after that draw.
    fn next_scalar(&mut self) -> (s: Scalar<E>)
        ensures
            exists|rng: &mut StdRng|
                *rng == *old(self) && *final(rng) == *final(self) && #[trigger] call_ensures(
                    E::scalar_rand,
                    (rng,),
                    s,
                ),
    {
        E::scalar_rand(self)
    }
}

/// From `before` on, scalars were drawn up to `after`, until one was `wanted`: that
/// is the last one, which was `found`.
pub open spec fn is_search(
    before: Seq<int>,
    after: Seq<int>,
    wanted: spec_fn(int) -> bool,
    found: int,
) -> bool {
    &&& before.is_prefix_of(after)
    &&& before.len() < after.len()
    &&& after.last() == found
    &&& wanted(found)
    &&& forall|i: int| before.len() <= i < after.len() - 1 ==> !wanted(#[trigger] after[i])
}

/// The first scalar from the source that is not zero. Each zero before it leaves a
/// mark, which takes no room: a vector has no limit but that the number of marks
/// fits in a `usize`.
pub(crate) fn draw_nonzero<E: Pairing, R: ScalarSource<E>>(rng: &mut Recorded<R>) -> (x: Scalar<E>)
    ensures
        is_search(old(rng).drawn(), final(rng).drawn(), |x: int| x != 0, x@),
        0 < x@ < E::modulus(),
{
    let ghost before = rng.drawn();
    let mut zeros: Vec<()> = Vec::new();
    loop
        invariant
            before == old(rng).drawn(),
            before.is_prefix_of(rng.drawn()),
            forall|i: int|
                before.len() <= i < rng.drawn().len() ==> #[trigger] rng.drawn()[i] == 0,
        decreases usize::MAX - zeros.len(),
    {
        let x: Scalar<E> = rng.draw();
        if !x.is_zero() {
            proof {
                x.view_bound();
            }
            return x;
        }
        zeros.push(());
    }
}

} // verus!
