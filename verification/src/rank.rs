//! The rank of a card within its suit.

use vstd::prelude::*;

verus! {

/// The rank of a standard card: ace is 1, the number cards follow, and jack,
/// queen and king are 11, 12 and 13.
#[derive(Debug, PartialEq, Eq, Structural, Clone, Copy)]
pub struct NumericalRank(u8);

impl NumericalRank {
    /// Every rank lies between ace and king.
    #[verifier::type_invariant]
    pub closed spec fn in_range(self) -> bool {
        1 <= self.0 <= 13
    }

    /// The number that the rank stands for.
    pub closed spec fn value(self) -> int {
        self.0 as int
    }

    /// The rank for `number`, if there is one.
    pub fn new(number: u8) -> (rank: Option<Self>)
        ensures
            rank.is_some() <==> 1 <= number <= 13,
            rank matches Some(r) ==> r.value() == number && r.in_range(),
    {
        if 1 <= number && number <= 13 {
            Some(NumericalRank(number))
        } else {
            None
        }
    }

    /// The value of a rank in range is between 1 and 13.
    pub proof fn lemma_value_bounds(self)
        requires
            self.in_range(),
        ensures
            1 <= self.value() <= 13,
    {
    }

    /// Two ranks with the same value are the same rank.
    pub proof fn lemma_value_injective(self, other: NumericalRank)
        requires
            self.value() == other.value(),
        ensures
            self == other,
    {
    }
}

impl From<NumericalRank> for u8 {
    fn from(rank: NumericalRank) -> (number: u8) {
        rank.0
    }
}

impl vstd::std_specs::convert::FromSpecImpl<NumericalRank> for u8 {
    open spec fn obeys_from_spec() -> bool {
        true
    }

    open spec fn from_spec(rank: NumericalRank) -> u8 {
        rank.value() as u8
    }
}

} // verus!
