//! Which of two poker hands is better.

use vstd::prelude::*;

use super::evaluator;
use super::hand_rank::{HandCategory, HandRank};
use super::Card;

verus! {

proof fn highest_is(counts: Seq<u8>, n: int, top: int, v: int)
    requires
        0 <= v <= top < counts.len(),
        counts[v] == n,
        forall|w: int| v < w <= top ==> #[trigger] counts[w] != n,
    ensures
        evaluator::highest_with(counts, n, top) == Some(v as u8),
    decreases top - v,
{
    if v < top {
        assert(counts[top] != n);
        highest_is(counts, n, top - 1, v);
    }
}

proof fn highest_is_none(counts: Seq<u8>, n: int, top: int)
    requires
        -1 <= top < counts.len(),
        forall|w: int| 0 <= w <= top ==> #[trigger] counts[w] != n,
    ensures
        evaluator::highest_with(counts, n, top) is None,
    decreases top + 1,
{
    if top >= 0 {
        assert(counts[top] != n);
        highest_is_none(counts, n, top - 1);
    }
}

proof fn kickers_of_five(d: Seq<u8>, a: u8, b: u8)
    requires
        d.len() == 5,
    ensures
        evaluator::kickers(d, a, b) == one(d[0], a, b) + one(d[1], a, b) + one(d[2], a, b) + one(
            d[3],
            a,
            b,
        ) + one(d[4], a, b),
{
    reveal_with_fuel(evaluator::kickers, 6);
    let d4 = d.drop_last();
    let d3 = d4.drop_last();
    let d2 = d3.drop_last();
    let d1 = d2.drop_last();
    assert(d1.drop_last() =~= Seq::<u8>::empty());
    assert(evaluator::kickers(d1, a, b) =~= one(d[0], a, b));
    assert(evaluator::kickers(d2, a, b) =~= one(d[0], a, b) + one(d[1], a, b));
    assert(evaluator::kickers(d3, a, b) =~= one(d[0], a, b) + one(d[1], a, b) + one(d[2], a, b));
    assert(evaluator::kickers(d4, a, b) =~= one(d[0], a, b) + one(d[1], a, b) + one(d[2], a, b)
        + one(d[3], a, b));
    assert(evaluator::kickers(d, a, b) =~= one(d[0], a, b) + one(d[1], a, b) + one(d[2], a, b)
        + one(d[3], a, b) + one(d[4], a, b));
}

spec fn one(x: u8, a: u8, b: u8) -> Seq<u8> {
    if x != a && x != b {
        seq![x]
    } else {
        Seq::empty()
    }
}

/// Five ranks from the highest to the lowest, not all equal.
pub open spec fn falling(d: Seq<u8>) -> bool {
    &&& d.len() == 5
    &&& 12 >= d[0] >= d[1] >= d[2] >= d[3] >= d[4]
    &&& d[0] != d[4]
}

/// Each rank is one below the one before it, or an ace stands above five, four, three and
/// two.
pub open spec fn is_straight(d: Seq<u8>) -> bool {
    ||| d[0] == d[1] + 1 && d[1] == d[2] + 1 && d[2] == d[3] + 1 && d[3] == d[4] + 1
    ||| d[0] == 12 && d[1] == 3 && d[2] == 2 && d[3] == 1 && d[4] == 0
}

/// The highest rank of a straight: an ace that counts low is not the highest.
pub open spec fn top_of_straight(d: Seq<u8>) -> u8 {
    if d[0] == 12 && d[1] == 3 {
        3
    } else {
        d[0]
    }
}

/// What five falling ranks make, of one suit or not, by which neighbours are equal: the
/// category, and the ranks by which hands of that category are compared, most telling
/// first. The ranks that make the hand come first, then the others from the top.
pub open spec fn made(d: Seq<u8>, flush: bool) -> (HandCategory, Seq<u8>) {
    let (a, b, c, e) = (d[0] == d[1], d[1] == d[2], d[2] == d[3], d[3] == d[4]);
    if flush && is_straight(d) {
        (HandCategory::StraightFlush, seq![top_of_straight(d)])
    } else if a && b && c {
        (HandCategory::FourOfAKind, seq![d[0], d[4]])
    } else if b && c && e {
        (HandCategory::FourOfAKind, seq![d[1], d[0]])
    } else if a && b && e {
        (HandCategory::FullHouse, seq![d[0], d[3]])
    } else if a && c && e {
        (HandCategory::FullHouse, seq![d[2], d[0]])
    } else if flush {
        (HandCategory::Flush, d)
    } else if is_straight(d) {
        (HandCategory::Straight, seq![top_of_straight(d)])
    } else if a && b {
        (HandCategory::ThreeOfAKind, seq![d[0], d[3], d[4]])
    } else if b && c {
        (HandCategory::ThreeOfAKind, seq![d[1], d[0], d[4]])
    } else if c && e {
        (HandCategory::ThreeOfAKind, seq![d[2], d[0], d[1]])
    } else if a && c {
        (HandCategory::TwoPair, seq![d[0], d[2], d[4]])
    } else if a && e {
        (HandCategory::TwoPair, seq![d[0], d[3], d[2]])
    } else if b && e {
        (HandCategory::TwoPair, seq![d[1], d[3], d[0]])
    } else if a {
        (HandCategory::OnePair, seq![d[0], d[2], d[3], d[4]])
    } else if b {
        (HandCategory::OnePair, seq![d[1], d[0], d[3], d[4]])
    } else if c {
        (HandCategory::OnePair, seq![d[2], d[0], d[1], d[4]])
    } else if e {
        (HandCategory::OnePair, seq![d[3], d[0], d[1], d[2]])
    } else {
        (HandCategory::HighCard, d)
    }
}

/// Who is counted how often.
proof fn counts_of_falling(d: Seq<u8>)
    requires
        falling(d),
    ensures
        evaluator::tally(d).len() == 13,
        forall|v: int|
            0 <= v < 13 ==> (#[trigger] evaluator::tally(d)[v]) as int == evaluator::copies(d, v),
{
}

#[verifier::rlimit(80)]
#[verifier::spinoff_prover]
proof fn fours_and_threes(d: Seq<u8>)
    requires
        falling(d),
    ensures
        ({
            let counts = evaluator::tally(d);
            let (a, b, c, e) = (d[0] == d[1], d[1] == d[2], d[2] == d[3], d[3] == d[4]);
            &&& evaluator::highest_with(counts, 4, 12) == (if a && b && c {
                Some(d[0])
            } else if b && c && e {
                Some(d[1])
            } else {
                None
            })
            &&& evaluator::highest_with(counts, 3, 12) == (if a && b && !c {
                Some(d[0])
            } else if b && c && !a && !e {
                Some(d[1])
            } else if c && e && !b {
                Some(d[2])
            } else {
                None
            })
        }),
{
    let counts = evaluator::tally(d);
    let (a, b, c, e) = (d[0] == d[1], d[1] == d[2], d[2] == d[3], d[3] == d[4]);
    counts_of_falling(d);
    if a && b && c {
        highest_is(counts, 4, 12, d[0] as int);
    } else if b && c && e {
        highest_is(counts, 4, 12, d[1] as int);
    } else {
        highest_is_none(counts, 4, 12);
    }
    if a && b && !c {
        highest_is(counts, 3, 12, d[0] as int);
    } else if b && c && !a && !e {
        highest_is(counts, 3, 12, d[1] as int);
    } else if c && e && !b {
        highest_is(counts, 3, 12, d[2] as int);
    } else {
        highest_is_none(counts, 3, 12);
    }
}

#[verifier::rlimit(80)]
#[verifier::spinoff_prover]
proof fn pairs_of_falling(d: Seq<u8>)
    requires
        falling(d),
    ensures
        ({
            let counts = evaluator::tally(d);
            let (a, b, c, e) = (d[0] == d[1], d[1] == d[2], d[2] == d[3], d[3] == d[4]);
            let pair = evaluator::highest_with(counts, 2, 12);
            &&& pair == (if a && !b {
                Some(d[0])
            } else if b && !a && !c {
                Some(d[1])
            } else if c && !b && !e {
                Some(d[2])
            } else if e && !c {
                Some(d[3])
            } else {
                None
            })
            &&& pair is Some ==> evaluator::highest_with(counts, 2, pair->0 as int - 1) == (if a
                && !b && c && !e {
                Some(d[2])
            } else if a && !b && e && !c {
                Some(d[3])
            } else if b && !a && !c && e {
                Some(d[3])
            } else {
                None
            })
        }),
{
    let counts = evaluator::tally(d);
    let (a, b, c, e) = (d[0] == d[1], d[1] == d[2], d[2] == d[3], d[3] == d[4]);
    counts_of_falling(d);
    if a && !b {
        highest_is(counts, 2, 12, d[0] as int);
        if c && !e {
            highest_is(counts, 2, d[0] - 1, d[2] as int);
        } else if e && !c {
            highest_is(counts, 2, d[0] - 1, d[3] as int);
        } else {
            highest_is_none(counts, 2, d[0] - 1);
        }
    } else if b && !a && !c {
        highest_is(counts, 2, 12, d[1] as int);
        if e {
            highest_is(counts, 2, d[1] - 1, d[3] as int);
        } else {
            highest_is_none(counts, 2, d[1] - 1);
        }
    } else if c && !b && !e {
        highest_is(counts, 2, 12, d[2] as int);
        highest_is_none(counts, 2, d[2] - 1);
    } else if e && !c {
        highest_is(counts, 2, 12, d[3] as int);
        highest_is_none(counts, 2, d[3] - 1);
    } else {
        highest_is_none(counts, 2, 12);
    }
}

/// Five falling ranks are classified as what they make.
#[verifier::rlimit(80)]
#[verifier::spinoff_prover]
proof fn falling_ranks_make_hands(d: Seq<u8>, flush: bool)
    requires
        falling(d),
    ensures
        evaluator::classified(d, flush).0 == made(d, flush).0.value(),
        evaluator::classified(d, flush).1 == made(d, flush).1,
{
    fours_and_threes(d);
    pairs_of_falling(d);
    kickers_of_five(d, d[0], d[0]);
    kickers_of_five(d, d[1], d[1]);
    kickers_of_five(d, d[2], d[2]);
    kickers_of_five(d, d[3], d[3]);
    kickers_of_five(d, d[0], d[2]);
    kickers_of_five(d, d[0], d[3]);
    kickers_of_five(d, d[1], d[3]);
    let (a, b, c, e) = (d[0] == d[1], d[1] == d[2], d[2] == d[3], d[3] == d[4]);
    assert(is_straight(d) == (evaluator::in_a_row(d) || evaluator::wheel(d)));
    assert(evaluator::classified(d, flush).1 =~= made(d, flush).1);
}

/// Ranks that are compared digit by digit: the first difference decides.
proof fn first_difference_decides(x: Seq<u8>, y: Seq<u8>, k: int)
    requires
        x.len() == y.len(),
        0 <= k < x.len(),
        forall|i: int| 0 <= i < k ==> x[i] == y[i],
        x[k] > y[k],
        forall|i: int| 0 <= i < x.len() ==> x[i] < 16 && y[i] < 16,
    ensures
        evaluator::digits(x) > evaluator::digits(y),
    decreases x.len(),
{
    if k == x.len() - 1 {
        assert(x.drop_last() =~= y.drop_last());
    } else {
        first_difference_decides(x.drop_last(), y.drop_last(), k);
    }
}

/// The ranks of `cards`, from the highest to the lowest.
pub open spec fn ranks_fall(cards: Seq<Card>, d: Seq<u8>) -> bool {
    &&& falling(d)
    &&& d.to_multiset() == Seq::new(
        cards.len(),
        |i: int| cards[i].spec_rank().value() as u8,
    ).to_multiset()
}

/// What five cards are worth to the counting evaluator: the category is the one that they
/// make, straight flush over four of a kind, full house, flush, straight, three of a kind,
/// two pair, one pair and high card.
pub proof fn cards_make_hands(cards: Seq<Card>, d: Seq<u8>)
    requires
        cards.len() == 5,
        ranks_fall(cards, d),
    ensures
        HandRank(evaluator::counted_strength(cards)).spec_category() == made(
            d,
            evaluator::one_suit(cards),
        ).0,
{
    cards_are_classified(cards, d);
    evaluator::value_names_its_category(cards);
    same_value_same_category(
        HandRank(evaluator::counted_strength(cards)).spec_category(),
        made(d, evaluator::one_suit(cards)).0,
    );
}

proof fn same_value_same_category(a: HandCategory, b: HandCategory)
    ensures
        a.value() == b.value() ==> a == b,
{
}

proof fn cards_are_classified(cards: Seq<Card>, d: Seq<u8>)
    requires
        cards.len() == 5,
        ranks_fall(cards, d),
    ensures
        ({
            let m = made(d, evaluator::one_suit(cards));
            &&& evaluator::five_card_value(cards) == m.0.value() * 0x1000_0000 + evaluator::digits(
                m.1,
            )
            &&& evaluator::classified(
                evaluator::descending(evaluator::ranks_of(cards)),
                evaluator::one_suit(cards),
            ) == (m.0.value(), m.1)
        }),
{
    let ranks = evaluator::ranks_of(cards);
    assert(ranks =~= Seq::new(cards.len(), |i: int| cards[i].spec_rank().value() as u8));
    let leq = |a: u8, b: u8| a >= b;
    ranks.lemma_sort_by_ensures(leq);
    assert(vstd::relations::sorted_by(d, leq));
    vstd::seq_lib::lemma_sorted_unique(d, evaluator::descending(ranks), leq);
    falling_ranks_make_hands(d, evaluator::one_suit(cards));
}

/// Which of two hands wins: the higher category; within a category the first difference in
/// the telling ranks; and with none the hands are worth the same.
pub proof fn better_hands_are_worth_more(
    x: Seq<Card>,
    dx: Seq<u8>,
    y: Seq<Card>,
    dy: Seq<u8>,
    k: int,
)
    requires
        x.len() == 5,
        y.len() == 5,
        ranks_fall(x, dx),
        ranks_fall(y, dy),
    ensures
        ({
            let (cx, tx) = made(dx, evaluator::one_suit(x));
            let (cy, ty) = made(dy, evaluator::one_suit(y));
            let (vx, vy) = (evaluator::counted_strength(x), evaluator::counted_strength(y));
            &&& cx.value() > cy.value() ==> vx > vy
            &&& cx == cy ==> tx.len() == ty.len()
            &&& cx == cy && tx == ty ==> vx == vy
            &&& cx == cy && 0 <= k < tx.len() && (forall|i: int|
                0 <= i < k ==> #[trigger] tx[i] == ty[i]) && tx[k] > ty[k] ==> vx > vy
        }),
{
    let (mx, my) = (made(dx, evaluator::one_suit(x)), made(dy, evaluator::one_suit(y)));
    worth(x, dx);
    worth(y, dy);
    telling_ranks(dx, evaluator::one_suit(x));
    telling_ranks(dy, evaluator::one_suit(y));
    worths_compare(
        evaluator::counted_strength(x) as int,
        mx,
        evaluator::counted_strength(y) as int,
        my,
        k,
    );
}

/// How many ranks tell hands of a category apart.
spec fn how_many_tell(c: HandCategory) -> nat {
    match c {
        HandCategory::StraightFlush => 1,
        HandCategory::FourOfAKind => 2,
        HandCategory::FullHouse => 2,
        HandCategory::Flush => 5,
        HandCategory::Straight => 1,
        HandCategory::ThreeOfAKind => 3,
        HandCategory::TwoPair => 3,
        HandCategory::OnePair => 4,
        HandCategory::HighCard => 5,
    }
}

proof fn telling_ranks(d: Seq<u8>, flush: bool)
    requires
        falling(d),
    ensures
        made(d, flush).1.len() == how_many_tell(made(d, flush).0),
        forall|i: int|
            0 <= i < made(d, flush).1.len() ==> (#[trigger] made(d, flush).1[i]) <= 12,
{
}

proof fn worth(cards: Seq<Card>, d: Seq<u8>)
    requires
        cards.len() == 5,
        ranks_fall(cards, d),
    ensures
        ({
            let m = made(d, evaluator::one_suit(cards));
            &&& evaluator::counted_strength(cards) == m.0.value() * 0x1000_0000
                + evaluator::digits(m.1)
            &&& 0 <= evaluator::digits(m.1) < 0x1000_0000
        }),
{
    cards_are_classified(cards, d);
    evaluator::value_names_its_category(cards);
}

proof fn worths_compare(
    vx: int,
    mx: (HandCategory, Seq<u8>),
    vy: int,
    my: (HandCategory, Seq<u8>),
    k: int,
)
    requires
        vx == mx.0.value() * 0x1000_0000 + evaluator::digits(mx.1),
        vy == my.0.value() * 0x1000_0000 + evaluator::digits(my.1),
        0 <= evaluator::digits(mx.1) < 0x1000_0000,
        0 <= evaluator::digits(my.1) < 0x1000_0000,
        mx.1.len() == how_many_tell(mx.0),
        my.1.len() == how_many_tell(my.0),
        forall|i: int| 0 <= i < mx.1.len() ==> (#[trigger] mx.1[i]) <= 12,
        forall|i: int| 0 <= i < my.1.len() ==> (#[trigger] my.1[i]) <= 12,
    ensures
        mx.0.value() > my.0.value() ==> vx > vy,
        mx.0 == my.0 ==> mx.1.len() == my.1.len(),
        mx == my ==> vx == vy,
        mx.0 == my.0 && 0 <= k < mx.1.len() && (forall|i: int|
            0 <= i < k ==> #[trigger] mx.1[i] == my.1[i]) && mx.1[k] > my.1[k] ==> vx > vy,
{
    if mx.0 == my.0 && 0 <= k < mx.1.len() && (forall|i: int|
        0 <= i < k ==> #[trigger] mx.1[i] == my.1[i]) && mx.1[k] > my.1[k] {
        first_difference_decides(mx.1, my.1, k);
    }
}

} // verus!
