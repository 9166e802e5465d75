//! The record of what is drawn from a source. Its fields are private to this module,
//! so that nothing gets on record but what the source gave.
use crate::groups::Scalar;
use crate::pairing::Pairing;
use crate::random::ScalarSource;
use vstd::prelude::*;

verus! {

/// A source in use, with a record of the scalars that were drawn from it.
pub struct Recorded<R> {
    source: R,
    drawn: Ghost<Seq<int>>,
}

impl<R> Recorded<R> {
    /// The scalars that were drawn so far, in their order.
    pub closed spec fn drawn(&self) -> Seq<int> {
        self.drawn@
    }

    /// The source, in its present state.
    pub closed spec fn source(&self) -> R {
        self.source
    }

    /// A source with nothing on record yet.
    pub fn new(source: R) -> (recorded: Self)
        ensures
            recorded.drawn() == Seq::<int>::empty(),
            recorded.source() == source,
    {
        Recorded { source, drawn: Ghost(Seq::empty()) }
    }

    /// Draws the next scalar of the source: the one that its `next_scalar` gives,
    /// which leaves it in the state after that draw.
    pub fn draw<E: Pairing>(&mut self) -> (s: Scalar<E>) where R: ScalarSource<E>
        ensures
            final(self).drawn() == old(self).drawn().push(s@),
            exists|source: &mut R|
                *source == old(self).source() && *final(source) == final(self).source()
                    && #[trigger] call_ensures(R::next_scalar, (source,), s),
    {
        let s: Scalar<E> = self.source.next_scalar();
        self.drawn = Ghost(self.drawn@.push(s@));
        s
    }
}

} // verus!
