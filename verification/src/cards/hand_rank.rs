use vstd::prelude::*;

verus! {

/// Opaque hand strength value. Higher is stronger, and values compare directly.
///
/// The upper four bits hold the category (0 to 8), the lower 28 the tiebreakers.
#[derive(Clone, Copy, PartialEq, Eq, PartialOrd, Ord, Hash, Debug, Structural)]
pub struct HandRank(pub u32);

#[derive(Clone, Copy, PartialEq, Eq, PartialOrd, Ord, Debug, Structural)]
pub enum HandCategory {
    HighCard,
    OnePair,
    TwoPair,
    ThreeOfAKind,
    Straight,
    Flush,
    FullHouse,
    FourOfAKind,
    StraightFlush,
}

/// What one step of category weighs against all tiebreakers together.
pub const CATEGORY_UNIT: u32 = 0x1000_0000;

impl HandCategory {
    /// Position of the category, from a high card (0) up to a straight flush (8).
    pub open spec fn value(self) -> int {
        match self {
            HandCategory::HighCard => 0,
            HandCategory::OnePair => 1,
            HandCategory::TwoPair => 2,
            HandCategory::ThreeOfAKind => 3,
            HandCategory::Straight => 4,
            HandCategory::Flush => 5,
            HandCategory::FullHouse => 6,
            HandCategory::FourOfAKind => 7,
            HandCategory::StraightFlush => 8,
        }
    }

    /// The category at position `v`; positions above 8 count as a straight flush.
    pub open spec fn at(v: int) -> HandCategory {
        if v == 0 {
            HandCategory::HighCard
        } else if v == 1 {
            HandCategory::OnePair
        } else if v == 2 {
            HandCategory::TwoPair
        } else if v == 3 {
            HandCategory::ThreeOfAKind
        } else if v == 4 {
            HandCategory::Straight
        } else if v == 5 {
            HandCategory::Flush
        } else if v == 6 {
            HandCategory::FullHouse
        } else if v == 7 {
            HandCategory::FourOfAKind
        } else {
            HandCategory::StraightFlush
        }
    }

    /// Position of the category, from a high card (0) up to a straight flush (8).
    pub fn to_u8(self) -> (v: u8)
        ensures
            v == self.value(),
    {
        match self {
            HandCategory::HighCard => 0,
            HandCategory::OnePair => 1,
            HandCategory::TwoPair => 2,
            HandCategory::ThreeOfAKind => 3,
            HandCategory::Straight => 4,
            HandCategory::Flush => 5,
            HandCategory::FullHouse => 6,
            HandCategory::FourOfAKind => 7,
            HandCategory::StraightFlush => 8,
        }
    }
}

impl HandRank {
    /// The category that the upper four bits name.
    pub open spec fn spec_category(self) -> HandCategory {
        HandCategory::at(self.0 as int / 0x1000_0000)
    }

    pub fn category(self) -> (c: HandCategory)
        ensures
            c == self.spec_category(),
    {
        let v: u32 = self.0 / CATEGORY_UNIT;
        match v {
            0 => HandCategory::HighCard,
            1 => HandCategory::OnePair,
            2 => HandCategory::TwoPair,
            3 => HandCategory::ThreeOfAKind,
            4 => HandCategory::Straight,
            5 => HandCategory::Flush,
            6 => HandCategory::FullHouse,
            7 => HandCategory::FourOfAKind,
            _ => HandCategory::StraightFlush,
        }
    }
}

/// A hand of a higher category beats every hand of a lower one, whatever the
/// tiebreakers are.
pub proof fn higher_category_wins(a: HandRank, b: HandRank)
    requires
        a.spec_category().value() > b.spec_category().value(),
    ensures
        a.0 > b.0,
{
}

} // verus!
