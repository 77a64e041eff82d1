//! The ten roles that a hand can have.

use vstd::prelude::*;

verus! {

/// The role of a five-card hand, listed from the weakest to the strongest.
#[derive(Debug, Clone, Copy, PartialEq, Eq, Structural)]
pub enum Role {
    NoPair,
    OnePair,
    TwoPair,
    ThreeCard,
    FourCard,
    FullHouse,
    Flush,
    Straight,
    StraightFlush,
    RoyalStraightFlush,
}

/// Number of roles, and so the length of a table of counters.
pub const ROLE_COUNT: usize = 10;

impl Role {
    /// Where this role stands in the order of strength: the slot of its counter.
    pub open spec fn index(self) -> int {
        match self {
            Role::NoPair => 0,
            Role::OnePair => 1,
            Role::TwoPair => 2,
            Role::ThreeCard => 3,
            Role::FourCard => 4,
            Role::FullHouse => 5,
            Role::Flush => 6,
            Role::Straight => 7,
            Role::StraightFlush => 8,
            Role::RoyalStraightFlush => 9,
        }
    }

    /// The slot of this role's counter.
    pub fn slot(&self) -> (slot: usize)
        ensures
            slot == self.index(),
            slot < ROLE_COUNT,
    {
        match self {
            Role::NoPair => 0,
            Role::OnePair => 1,
            Role::TwoPair => 2,
            Role::ThreeCard => 3,
            Role::FourCard => 4,
            Role::FullHouse => 5,
            Role::Flush => 6,
            Role::Straight => 7,
            Role::StraightFlush => 8,
            Role::RoyalStraightFlush => 9,
        }
    }
}

} // verus!
