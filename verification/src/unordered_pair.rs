//! A pair whose two elements are not told apart by their order.
use vstd::prelude::*;
use vstd::std_specs::cmp::{PartialEqSpec, PartialOrdIs, PartialOrdSpec};

verus! {

/// Two values; two pairs are equal when they hold the same two values, in
/// either order.
#[derive(Clone, Debug, Eq, PartialOrd, Ord, Hash)]
pub struct UnorderedPair<T>(pub T, pub T);

impl<T: Ord> UnorderedPair<T> {
    /// The pair of the two values, the smaller first.
    pub fn new(a: T, b: T) -> (res: Self)
        ensures
            res == UnorderedPair(a, b) || res == UnorderedPair(b, a),
            T::obeys_partial_cmp_spec() ==> res == (if a.is_lt(&b) {
                UnorderedPair(a, b)
            } else {
                UnorderedPair(b, a)
            }),
    {
        if a < b {
            UnorderedPair(a, b)
        } else {
            UnorderedPair(b, a)
        }
    }
}

impl<T: PartialEq> PartialEq for UnorderedPair<T> {
    fn eq(&self, rhs: &Self) -> (res: bool) {
        (self.0 == rhs.0 && self.1 == rhs.1) || (self.0 == rhs.1 && self.1 == rhs.0)
    }
}

impl<T: PartialEq> vstd::std_specs::cmp::PartialEqSpecImpl for UnorderedPair<T> {
    open spec fn obeys_eq_spec() -> bool {
        T::obeys_eq_spec()
    }

    open spec fn eq_spec(&self, rhs: &Self) -> bool {
        (self.0.eq_spec(&rhs.0) && self.1.eq_spec(&rhs.1)) || (self.0.eq_spec(&rhs.1)
            && self.1.eq_spec(&rhs.0))
    }
}

/// Swapping the two values of a pair does not change what it equals.
pub proof fn lemma_order_does_not_matter<T: PartialEq>(a: T, b: T, other: UnorderedPair<T>)
    ensures
        UnorderedPair(a, b).eq_spec(&other) == UnorderedPair(b, a).eq_spec(&other),
{
}

} // verus!
