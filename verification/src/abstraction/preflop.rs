use vstd::prelude::*;

use crate::cards::{Card, Rank};

verus! {

/// A canonical (suit-isomorphic) preflop hand class.
///
/// Every starting hand maps to exactly one of `COUNT` classes: 13 pocket pairs,
/// 78 suited non-pairs, and 78 offsuit non-pairs. The first rank of a non-pair is
/// the higher one.
#[derive(Clone, Copy, PartialEq, Eq, Debug, Hash, Structural)]
pub enum PreflopClass {
    Pair(Rank),
    Suited(Rank, Rank),
    Offsuit(Rank, Rank),
}

/// The class of two hole cards.
pub open spec fn class_of(a: Card, b: Card) -> PreflopClass {
    let (high, low) = if a.spec_rank().value() >= b.spec_rank().value() {
        (a, b)
    } else {
        (b, a)
    };
    if high.spec_rank() == low.spec_rank() {
        PreflopClass::Pair(high.spec_rank())
    } else if high.spec_suit() == low.spec_suit() {
        PreflopClass::Suited(high.spec_rank(), low.spec_rank())
    } else {
        PreflopClass::Offsuit(high.spec_rank(), low.spec_rank())
    }
}

/// How many non-pairs come before the one of ranks `high` and `low`, when they are
/// listed by descending high rank, then by descending low rank.
pub open spec fn non_pairs_before(high: int, low: int) -> int {
    78 - high * (high + 1) / 2 + (high - 1 - low)
}

impl PreflopClass {
    /// Total number of distinct preflop classes.
    pub const COUNT: u16 = 169;

    /// The first rank of a non-pair is higher than the second.
    pub open spec fn ordered(self) -> bool {
        match self {
            PreflopClass::Pair(_) => true,
            PreflopClass::Suited(h, l) => h.value() > l.value(),
            PreflopClass::Offsuit(h, l) => h.value() > l.value(),
        }
    }

    /// The class's bucket: pairs from aces down, then suited non-pairs from AK
    /// down, then offsuit non-pairs in the same order.
    pub open spec fn number(self) -> int {
        match self {
            PreflopClass::Pair(r) => 12 - r.value(),
            PreflopClass::Suited(h, l) => 13 + non_pairs_before(h.value(), l.value()),
            PreflopClass::Offsuit(h, l) => 91 + non_pairs_before(h.value(), l.value()),
        }
    }

    /// Canonicalize two hole cards into their suit-isomorphic class.
    pub fn from_hole(hole: [Card; 2]) -> (class: PreflopClass)
        ensures
            class == class_of(hole@[0], hole@[1]),
            class.ordered(),
    {
        let (high, low) = if hole[0].rank().to_u8() >= hole[1].rank().to_u8() {
            (hole[0], hole[1])
        } else {
            (hole[1], hole[0])
        };
        proof {
            same_value_same_rank(high.spec_rank(), low.spec_rank());
        }
        if high.rank() == low.rank() {
            PreflopClass::Pair(high.rank())
        } else if high.suit() == low.suit() {
            PreflopClass::Suited(high.rank(), low.rank())
        } else {
            PreflopClass::Offsuit(high.rank(), low.rank())
        }
    }

    /// Stable bucket index in `0..COUNT`.
    ///
    /// Layout: pairs first (AA=0, KK=1, …, 22=12), then suited non-pairs in
    /// descending high/low order (AKs=13, AQs=14, …, 32s=90), then offsuit
    /// non-pairs in the same order (AKo=91, …, 32o=168).
    pub fn index(self) -> (i: u16)
        requires
            self.ordered(),
        ensures
            i == self.number(),
            i < PreflopClass::COUNT,
    {
        match self {
            PreflopClass::Pair(r) => 12 - r.to_u8() as u16,
            PreflopClass::Suited(h, l) => 13 + non_pair_offset(h, l),
            PreflopClass::Offsuit(h, l) => 91 + non_pair_offset(h, l),
        }
    }
}

fn non_pair_offset(high: Rank, low: Rank) -> (i: u16)
    requires
        high.value() > low.value(),
    ensures
        i == non_pairs_before(high.value(), low.value()),
        i < 78,
{
    let h: u16 = high.to_u8() as u16;
    let l: u16 = low.to_u8() as u16;
    proof {
        rows_fit(h as int, l as int);
        assert(h * (h + 1) <= 156) by (nonlinear_arith)
            requires
                h <= 12,
        ;
    }
    // Rows are listed by high rank, from the top. The rows above that of `h` hold
    // one entry for each pair of higher ranks.
    let row_start: u16 = 78 - h * (h + 1) / 2;
    row_start + (h - 1 - l)
}

proof fn same_value_same_rank(a: Rank, b: Rank)
    ensures
        a == b <==> a.value() == b.value(),
{
}

/// The row of the non-pairs whose higher rank is `h`, by its number of rows.
proof fn row_values(h: int)
    requires
        0 <= h <= 12,
    ensures
        h * (h + 1) == (if h == 0 { 0int } else if h == 1 { 2 } else if h == 2 { 6 } else if h == 3 { 12 } else if h
            == 4 { 20 } else if h == 5 { 30 } else if h == 6 { 42 } else if h == 7 { 56 } else if h == 8 { 72 } else if h
            == 9 { 90 } else if h == 10 { 110 } else if h == 11 { 132 } else { 156 }),
{
}

proof fn rows_fit(h: int, l: int)
    requires
        0 <= l < h <= 12,
    ensures
        0 <= non_pairs_before(h, l) < 78,
        78 - h * (h + 1) / 2 >= 0,
{
    row_values(h);
}

/// Which of the two hole cards comes first does not matter.
pub proof fn order_of_hole_is_irrelevant(a: Card, b: Card)
    ensures
        class_of(a, b) == class_of(b, a),
{
    same_value_same_rank(a.spec_rank(), b.spec_rank());
}

/// Hands that differ only in which suits they name are in the same class.
pub proof fn suits_are_interchangeable(a: Card, b: Card, c: Card, d: Card)
    requires
        a.spec_rank() == c.spec_rank(),
        b.spec_rank() == d.spec_rank(),
        a.spec_suit() == b.spec_suit() <==> c.spec_suit() == d.spec_suit(),
    ensures
        class_of(a, b) == class_of(c, d),
{
}

/// Two different classes never share a bucket.
pub proof fn buckets_are_unique(a: PreflopClass, b: PreflopClass)
    requires
        a.ordered(),
        b.ordered(),
        a.number() == b.number(),
    ensures
        a == b,
{
    match a {
        PreflopClass::Pair(r) => {},
        PreflopClass::Suited(h, l) => rows_fit(h.value(), l.value()),
        PreflopClass::Offsuit(h, l) => rows_fit(h.value(), l.value()),
    }
    match b {
        PreflopClass::Pair(r) => {},
        PreflopClass::Suited(h, l) => rows_fit(h.value(), l.value()),
        PreflopClass::Offsuit(h, l) => rows_fit(h.value(), l.value()),
    }
    match (a, b) {
        (PreflopClass::Pair(r), PreflopClass::Pair(s)) => same_value_same_rank(r, s),
        (PreflopClass::Suited(h, l), PreflopClass::Suited(i, m)) => same_place_same_ranks(h, l, i, m),
        (PreflopClass::Offsuit(h, l), PreflopClass::Offsuit(i, m)) => same_place_same_ranks(h, l, i, m),
        _ => {},
    }
}

proof fn same_place_same_ranks(h: Rank, l: Rank, i: Rank, m: Rank)
    requires
        h.value() > l.value(),
        i.value() > m.value(),
        non_pairs_before(h.value(), l.value()) == non_pairs_before(i.value(), m.value()),
    ensures
        h == i,
        l == m,
{
    row_values(h.value());
    row_values(i.value());
    same_value_same_rank(h, i);
    same_value_same_rank(l, m);
}

/// Every bucket below `COUNT` is that of some class.
pub proof fn buckets_are_dense(i: int) -> (class: PreflopClass)
    requires
        0 <= i < PreflopClass::COUNT,
    ensures
        class.ordered(),
        class.number() == i,
{
    if i < 13 {
        PreflopClass::Pair(Rank::at(12 - i))
    } else if i < 91 {
        let (h, l) = ranks_at(i - 13, 12);
        PreflopClass::Suited(h, l)
    } else {
        let (h, l) = ranks_at(i - 91, 12);
        PreflopClass::Offsuit(h, l)
    }
}

/// The ranks of the non-pair at place `k`, looked for from the row of `h` down.
proof fn ranks_at(k: int, h: int) -> (ranks: (Rank, Rank))
    requires
        1 <= h <= 12,
        non_pairs_before(h, h - 1) <= k < 78,
    ensures
        ranks.0.value() > ranks.1.value(),
        non_pairs_before(ranks.0.value(), ranks.1.value()) == k,
    decreases h,
{
    row_values(h);
    if k - non_pairs_before(h, h - 1) < h {
        (Rank::at(h), Rank::at(h - 1 - (k - non_pairs_before(h, h - 1))))
    } else {
        row_values(h - 1);
        ranks_at(k, h - 1)
    }
}

/// Place of the kind of a class in the list.
pub open spec fn kind_order(class: PreflopClass) -> int {
    match class {
        PreflopClass::Pair(_) => 0,
        PreflopClass::Suited(_, _) => 1,
        PreflopClass::Offsuit(_, _) => 2,
    }
}

/// The two ranks of a class, the higher one first.
pub open spec fn ranks_of(class: PreflopClass) -> (int, int) {
    match class {
        PreflopClass::Pair(r) => (r.value(), r.value()),
        PreflopClass::Suited(h, l) => (h.value(), l.value()),
        PreflopClass::Offsuit(h, l) => (h.value(), l.value()),
    }
}

/// The list of classes is in order: pairs, then suited, then offsuit hands, and among each
/// of these the higher first rank first, then the higher second rank.
pub proof fn classes_are_listed_in_order(a: PreflopClass, b: PreflopClass)
    requires
        a.ordered(),
        b.ordered(),
        kind_order(a) < kind_order(b) || (kind_order(a) == kind_order(b) && (ranks_of(a).0
            > ranks_of(b).0 || (ranks_of(a).0 == ranks_of(b).0 && ranks_of(a).1 > ranks_of(
            b,
        ).1))),
    ensures
        a.number() < b.number(),
{
    row_values(ranks_of(a).0);
    row_values(ranks_of(b).0);
    if !(a is Pair) {
        rows_fit(ranks_of(a).0, ranks_of(a).1);
    }
    if !(b is Pair) {
        rows_fit(ranks_of(b).0, ranks_of(b).1);
    }
}

/// A class names the two ranks of the cards, and whether they are of one suit.
pub proof fn classes_name_the_cards(a: Card, b: Card)
    ensures
        ({
            let c = class_of(a, b);
            let (x, y) = (a.spec_rank().value(), b.spec_rank().value());
            &&& c is Pair <==> x == y
            &&& c is Suited <==> x != y && a.spec_suit() == b.spec_suit()
            &&& ranks_of(c) == (x, y) || ranks_of(c) == (y, x)
            &&& ranks_of(c).0 >= ranks_of(c).1
        }),
{
    same_value_same_rank(a.spec_rank(), b.spec_rank());
}

} // verus!
