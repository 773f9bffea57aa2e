use vstd::prelude::*;

use super::card;
use super::card::{Card, Suit};
use super::hand_rank::{HandRank, CATEGORY_UNIT};

verus! {

/// Hand strength evaluation. Implementations are swapped without touching game
/// logic.
pub trait HandEvaluator: Send + Sync {
    /// How strong the evaluator finds `cards`. Higher is stronger.
    spec fn strength(&self, cards: Seq<Card>) -> u32;

    /// The hands that the evaluator can rank.
    spec fn accepts(&self, cards: Seq<Card>) -> bool;

    /// Whatever else an evaluator accepts, it ranks five or seven different cards.
    proof fn accepts_different_cards(&self, cards: Seq<Card>)
        requires
            cards.len() == 5 || cards.len() == 7,
            cards.no_duplicates(),
            all_cards(cards),
        ensures
            self.accepts(cards),
    ;

    fn rank_7(&self, cards: [Card; 7]) -> (rank: HandRank)
        requires
            self.accepts(cards@),
        ensures
            rank.0 == self.strength(cards@),
    ;

    fn rank_5(&self, cards: [Card; 5]) -> (rank: HandRank)
        requires
            self.accepts(cards@),
        ensures
            rank.0 == self.strength(cards@),
    ;
}

/// Every entry of `cards` is numbered like a card.
pub open spec fn all_cards(cards: Seq<Card>) -> bool {
    forall|i: int| 0 <= i < cards.len() ==> 0 <= (#[trigger] cards[i]).id() < 52
}

// ---------------------------------------------------------------------------
// The counting evaluator
// ---------------------------------------------------------------------------

/// The positions of the cards' ranks, card by card.
pub open spec fn ranks_of(cards: Seq<Card>) -> Seq<u8> {
    Seq::new(cards.len(), |i: int| cards[i].spec_rank().value() as u8)
}

/// All cards have one suit.
pub open spec fn one_suit(cards: Seq<Card>) -> bool {
    forall|i: int, j: int|
        0 <= i < cards.len() && 0 <= j < cards.len() ==> (#[trigger] cards[i]).spec_suit() == (
        #[trigger] cards[j]).spec_suit()
}

/// `ranks` from the highest to the lowest.
pub open spec fn descending(ranks: Seq<u8>) -> Seq<u8> {
    ranks.sort_by(|a: u8, b: u8| a >= b)
}

/// How often `v` occurs among five ranks.
pub open spec fn copies(d: Seq<u8>, v: int) -> int {
    (if d[0] == v { 1int } else { 0 }) + (if d[1] == v { 1int } else { 0 }) + (if d[2] == v {
        1int
    } else {
        0
    }) + (if d[3] == v { 1int } else { 0 }) + (if d[4] == v { 1int } else { 0 })
}

/// For each rank, how often it occurs among five.
pub open spec fn tally(d: Seq<u8>) -> Seq<u8> {
    Seq::new(13, |v: int| copies(d, v) as u8)
}

/// The highest rank not above `top` that is counted exactly `n` times.
pub open spec fn highest_with(counts: Seq<u8>, n: int, top: int) -> Option<u8>
    decreases top + 1,
{
    if top < 0 {
        None
    } else if counts[top] == n {
        Some(top as u8)
    } else {
        highest_with(counts, n, top - 1)
    }
}

/// `d` without the ranks `a` and `b`.
pub open spec fn kickers(d: Seq<u8>, a: u8, b: u8) -> Seq<u8>
    decreases d.len(),
{
    if d.len() == 0 {
        d
    } else {
        let head = kickers(d.drop_last(), a, b);
        if d.last() != a && d.last() != b {
            head.push(d.last())
        } else {
            head
        }
    }
}

/// The first kicker, or the deuce where there is none.
pub open spec fn kicker(d: Seq<u8>, a: u8, b: u8) -> u8 {
    let ks = kickers(d, a, b);
    if ks.len() > 0 {
        ks[0]
    } else {
        0
    }
}

/// The ranks written as the digits of a number in base 16, the first one highest.
pub open spec fn digits(s: Seq<u8>) -> int
    decreases s.len(),
{
    if s.len() == 0 {
        0
    } else {
        16 * digits(s.drop_last()) + s.last()
    }
}

/// Five different ranks in a row, from the highest down.
pub open spec fn in_a_row(d: Seq<u8>) -> bool {
    &&& d[0] == d[4] + 4
    &&& d[0] != d[1]
    &&& d[1] != d[2]
    &&& d[2] != d[3]
    &&& d[3] != d[4]
}

/// Ace, five, four, three, two: a straight in which the ace counts low.
pub open spec fn wheel(d: Seq<u8>) -> bool {
    d[0] == 12 && d[1] == 3 && d[2] == 2 && d[3] == 1 && d[4] == 0
}

/// The rank by which a straight is compared.
pub open spec fn straight_high(d: Seq<u8>) -> u8 {
    if wheel(d) {
        3
    } else {
        d[0]
    }
}

/// The category and the tiebreakers, most telling first, of five ranks that fall
/// from the first to the last.
pub open spec fn classified(d: Seq<u8>, flush: bool) -> (int, Seq<u8>) {
    let straight = in_a_row(d) || wheel(d);
    let counts = tally(d);
    let four = highest_with(counts, 4, 12);
    let three = highest_with(counts, 3, 12);
    let pair = highest_with(counts, 2, 12);
    let second = match pair {
        Some(p) => highest_with(counts, 2, p as int - 1),
        None => None,
    };
    if flush && straight {
        (8, seq![straight_high(d)])
    } else if four is Some {
        (7, seq![four->0, kicker(d, four->0, four->0)])
    } else if three is Some && pair is Some {
        (6, seq![three->0, pair->0])
    } else if flush {
        (5, d)
    } else if straight {
        (4, seq![straight_high(d)])
    } else if three is Some {
        (3, seq![three->0] + kickers(d, three->0, three->0))
    } else if second is Some {
        (2, seq![pair->0, second->0, kicker(d, pair->0, second->0)])
    } else if pair is Some {
        (1, seq![pair->0] + kickers(d, pair->0, pair->0))
    } else {
        (0, d)
    }
}

/// How strong the counting evaluator finds five cards.
pub open spec fn five_card_value(cards: Seq<Card>) -> int {
    let (category, tiebreakers) = classified(descending(ranks_of(cards)), one_suit(cards));
    category * 0x1000_0000 + digits(tiebreakers)
}

/// `cards` without the entries at `i` and `j`, where `i` comes first.
pub open spec fn leaving_out(cards: Seq<Card>, i: int, j: int) -> Seq<Card> {
    cards.remove(j).remove(i)
}

/// `v` is the value of the best five cards among seven.
pub open spec fn is_best_five(cards: Seq<Card>, v: u32) -> bool {
    &&& exists|i: int, j: int|
        0 <= i < j < 7 && five_card_value(#[trigger] leaving_out(cards, i, j)) == v
    &&& forall|i: int, j: int|
        0 <= i < j < 7 ==> five_card_value(#[trigger] leaving_out(cards, i, j)) <= v
}

/// The counting evaluator's strength for five or seven cards.
pub open spec fn counted_strength(cards: Seq<Card>) -> u32 {
    if cards.len() == 7 {
        choose|v: u32| is_best_five(cards, v)
    } else {
        five_card_value(cards) as u32
    }
}

/// Counts ranks: plain and not fast. Serves to cross-check the fast evaluator and
/// for tests that need no speed.
pub struct NaiveEvaluator;

impl HandEvaluator for NaiveEvaluator {
    open spec fn strength(&self, cards: Seq<Card>) -> u32 {
        counted_strength(cards)
    }

    open spec fn accepts(&self, cards: Seq<Card>) -> bool {
        true
    }

    proof fn accepts_different_cards(&self, cards: Seq<Card>) {
    }

    fn rank_7(&self, cards: [Card; 7]) -> (rank: HandRank) {
        best_of_7(&cards)
    }

    fn rank_5(&self, cards: [Card; 5]) -> (rank: HandRank) {
        rank_5_naive(cards)
    }
}

/// A sequence of ranks that falls, with the same ranks as `ranks`, is their
/// descending order.
proof fn falling_is_descending(ranks: Seq<u8>, d: Seq<u8>)
    requires
        d.to_multiset() == ranks.to_multiset(),
        forall|i: int, j: int| 0 <= i < j < d.len() ==> d[i] >= d[j],
    ensures
        d == descending(ranks),
{
    let leq = |a: u8, b: u8| a >= b;
    ranks.lemma_sort_by_ensures(leq);
    vstd::seq_lib::lemma_sorted_unique(d, descending(ranks), leq);
}

/// Sorts five ranks from the highest to the lowest.
fn sort_descending(ranks: [u8; 5]) -> (d: [u8; 5])
    ensures
        d@ == descending(ranks@),
        forall|i: int, j: int| 0 <= i < j < 5 ==> d@[i] >= d@[j],
        d@.to_multiset() == ranks@.to_multiset(),
{
    broadcast use {vstd::seq_lib::group_to_multiset_ensures, vstd::multiset::group_multiset_axioms};

    let mut d = ranks;
    let mut i: usize = 1;
    while i < 5
        invariant
            1 <= i <= 5,
            d@.len() == 5,
            d@.to_multiset() == ranks@.to_multiset(),
            forall|a: int, b: int| 0 <= a < b < i ==> d@[a] >= d@[b],
        decreases 5 - i,
    {
        let mut k: usize = i;
        while k > 0 && d[k - 1] < d[k]
            invariant
                0 <= k <= i < 5,
                d@.len() == 5,
                d@.to_multiset() == ranks@.to_multiset(),
                forall|a: int, b: int|
                    0 <= a < b <= i && b != k ==> d@[a] >= d@[b] || a == k,
                forall|b: int| k < b <= i ==> d@[k as int] >= d@[b],
            decreases k,
        {
            let ghost before = d@;
            let upper = d[k - 1];
            d[k - 1] = d[k];
            d[k] = upper;
            proof {
                let mid = before.update(k - 1, before[k as int]);
                assert(d@ =~= mid.update(k as int, before[k - 1]));
                vstd::seq_lib::to_multiset_update(before, k - 1, before[k as int]);
                vstd::seq_lib::to_multiset_update(mid, k as int, before[k - 1]);
                vstd::seq_lib::to_multiset_contains(before, before[k - 1]);
                vstd::seq_lib::to_multiset_contains(before, before[k as int]);
                vstd::seq_lib::to_multiset_contains(mid, before[k as int]);
                assert(before.contains(before[k - 1]) && mid.contains(mid[k as int]));
                assert(d@.to_multiset() =~= before.to_multiset());
            }
            k = k - 1;
        }
        i = i + 1;
    }
    proof {
        falling_is_descending(ranks@, d@);
    }
    d
}

/// The rank of five cards, by counting.
#[verifier::rlimit(60)]
#[verifier::spinoff_prover]
pub fn rank_5_naive(cards: [Card; 5]) -> (rank: HandRank)
    ensures
        rank.0 == five_card_value(cards@),
{
    let unsorted: [u8; 5] = [
        cards[0].rank().to_u8(),
        cards[1].rank().to_u8(),
        cards[2].rank().to_u8(),
        cards[3].rank().to_u8(),
        cards[4].rank().to_u8(),
    ];
    assert(unsorted@ =~= ranks_of(cards@));
    let ranks = sort_descending(unsorted);
    proof {
        ranks_stay_below(unsorted@, ranks@);
    }
    let is_flush = all_one_suit(&cards);
    let is_straight = is_straight_ranks(&ranks);
    // Wheel (A-2-3-4-5): the ace counts low.
    let is_wheel = ranks[0] == 12 && ranks[1] == 3 && ranks[2] == 2 && ranks[3] == 1 && ranks[4]
        == 0;
    let high: u8 = if is_wheel {
        3
    } else {
        ranks[0]
    };
    if is_flush && (is_straight || is_wheel) {
        proof {
            digits_of_one(high);
        }
        return HandRank(0x8000_0000 + high as u32);
    }
    let counts = rank_counts(&ranks);
    if let Some(r) = four_of_a_kind(&counts) {
        let ks = other_ranks(&ranks, r, r);
        let k: u8 = if ks.len() > 0 {
            ks[0]
        } else {
            0
        };
        proof {
            digits_of_two(r, k);
        }
        return HandRank(0x7000_0000 + (r as u32) * 16 + k as u32);
    }
    if let Some((three, pair)) = full_house(&counts) {
        proof {
            digits_of_two(three, pair);
        }
        return HandRank(0x6000_0000 + (three as u32) * 16 + pair as u32);
    }
    if is_flush {
        let tiebreak = tiebreak_kickers(&ranks);
        return HandRank(0x5000_0000 + tiebreak);
    }
    if is_straight || is_wheel {
        proof {
            digits_of_one(high);
        }
        return HandRank(0x4000_0000 + high as u32);
    }
    if let Some(r) = three_of_a_kind(&counts) {
        proof {
            kickers_len(ranks@, r, r);
        }
        let ks = other_ranks(&ranks, r, r);
        proof {
            digits_of_three(r, ks@[0], ks@[1]);
            assert(seq![r] + ks@ =~= seq![r, ks@[0], ks@[1]]);
        }
        return HandRank(0x3000_0000 + (r as u32) * 256 + (ks[0] as u32) * 16 + ks[1] as u32);
    }
    if let Some((hi, lo)) = two_pair(&counts) {
        let ks = other_ranks(&ranks, hi, lo);
        let k: u8 = if ks.len() > 0 {
            ks[0]
        } else {
            0
        };
        proof {
            digits_of_three(hi, lo, k);
        }
        return HandRank(0x2000_0000 + (hi as u32) * 256 + (lo as u32) * 16 + k as u32);
    }
    if let Some(r) = one_pair(&counts) {
        proof {
            kickers_len(ranks@, r, r);
        }
        let ks = other_ranks(&ranks, r, r);
        proof {
            digits_of_four(r, ks@[0], ks@[1], ks@[2]);
            assert(seq![r] + ks@ =~= seq![r, ks@[0], ks@[1], ks@[2]]);
        }
        return HandRank(
            0x1000_0000 + (r as u32) * 4096 + (ks[0] as u32) * 256 + (ks[1] as u32) * 16
                + ks[2] as u32,
        );
    }
    HandRank(tiebreak_kickers(&ranks))
}


/// Sorting ranks keeps each of them a rank.
proof fn ranks_stay_below(ranks: Seq<u8>, d: Seq<u8>)
    requires
        d.to_multiset() == ranks.to_multiset(),
        forall|i: int| 0 <= i < ranks.len() ==> ranks[i] <= 12,
    ensures
        forall|i: int| 0 <= i < d.len() ==> d[i] <= 12,
{
    assert forall|i: int| 0 <= i < d.len() implies d[i] <= 12 by {
        assert(d.contains(d[i]));
        vstd::seq_lib::to_multiset_contains(d, d[i]);
        vstd::seq_lib::to_multiset_contains(ranks, d[i]);
        assert(ranks.contains(d[i]));
    }
}

proof fn digits_of_one(a: u8)
    ensures
        digits(seq![a]) == a,
{
    reveal_with_fuel(digits, 2);
    assert(seq![a].drop_last() =~= Seq::<u8>::empty());
}

proof fn digits_of_two(a: u8, b: u8)
    ensures
        digits(seq![a, b]) == 16 * a + b,
{
    digits_of_one(a);
    assert(seq![a, b].drop_last() =~= seq![a]);
}

proof fn digits_of_three(a: u8, b: u8, c: u8)
    ensures
        digits(seq![a, b, c]) == 256 * a + 16 * b + c,
{
    digits_of_two(a, b);
    assert(seq![a, b, c].drop_last() =~= seq![a, b]);
}

proof fn digits_of_four(a: u8, b: u8, c: u8, d: u8)
    ensures
        digits(seq![a, b, c, d]) == 4096 * a + 256 * b + 16 * c + d,
{
    digits_of_three(a, b, c);
    assert(seq![a, b, c, d].drop_last() =~= seq![a, b, c]);
}

/// What remains of five ranks without those equal to `a` or `b`, counted.
proof fn kickers_len(d: Seq<u8>, a: u8, b: u8)
    requires
        d.len() == 5,
    ensures
        kickers(d, a, b).len() == 5 - copies(d, a as int) - (if a == b {
            0
        } else {
            copies(d, b as int)
        }),
{
    reveal_with_fuel(kickers, 6);
    let d4 = d.drop_last();
    let d3 = d4.drop_last();
    let d2 = d3.drop_last();
    let d1 = d2.drop_last();
    assert(d1.drop_last().len() == 0);
    assert(d4.last() == d[3] && d3.last() == d[2] && d2.last() == d[1] && d1.last() == d[0]);
}

/// Every kicker is one of the ranks.
proof fn kickers_are_ranks(d: Seq<u8>, a: u8, b: u8)
    ensures
        forall|i: int| 0 <= i < kickers(d, a, b).len() ==> d.contains(#[trigger] kickers(d, a, b)[i]),
    decreases d.len(),
{
    if d.len() > 0 {
        let head = d.drop_last();
        kickers_are_ranks(head, a, b);
        assert forall|i: int| 0 <= i < kickers(d, a, b).len() implies d.contains(
            #[trigger] kickers(d, a, b)[i],
        ) by {
            let k = kickers(d, a, b)[i];
            if i < kickers(head, a, b).len() {
                assert(head.contains(kickers(head, a, b)[i]));
                let x = choose|x: int| 0 <= x < head.len() && head[x] == k;
                assert(d[x] == k);
            } else {
                assert(d[d.len() - 1] == k);
            }
        }
    }
}

fn all_one_suit(cards: &[Card; 5]) -> (r: bool)
    ensures
        r == one_suit(cards@),
{
    let first = cards[0].suit();
    let r = cards[1].suit() == first && cards[2].suit() == first && cards[3].suit() == first
        && cards[4].suit() == first;
    proof {
        if !r {
            assert(cards@[0].spec_suit() == first);
            assert(cards@[1].spec_suit() != first || cards@[2].spec_suit() != first
                || cards@[3].spec_suit() != first || cards@[4].spec_suit() != first);
        } else {
            assert forall|i: int| 0 <= i < 5 implies (#[trigger] cards@[i]).spec_suit() == first by {
                assert(i == 0 || i == 1 || i == 2 || i == 3 || i == 4);
            }
        }
    }
    r
}

fn is_straight_ranks(ranks: &[u8; 5]) -> (r: bool)
    requires
        ranks@[4] <= 12,
    ensures
        r == in_a_row(ranks@),
{
    ranks[0] == ranks[4] + 4 && ranks[0] != ranks[1] && ranks[1] != ranks[2] && ranks[2] != ranks[3]
        && ranks[3] != ranks[4]
}

fn rank_counts(ranks: &[u8; 5]) -> (counts: [u8; 13])
    requires
        forall|i: int| 0 <= i < 5 ==> ranks@[i] <= 12,
    ensures
        counts@ == tally(ranks@),
{
    let mut counts: [u8; 13] = [0; 13];
    let r0 = ranks[0] as usize;
    counts[r0] = counts[r0] + 1;
    let r1 = ranks[1] as usize;
    counts[r1] = counts[r1] + 1;
    let r2 = ranks[2] as usize;
    counts[r2] = counts[r2] + 1;
    let r3 = ranks[3] as usize;
    counts[r3] = counts[r3] + 1;
    let r4 = ranks[4] as usize;
    counts[r4] = counts[r4] + 1;
    assert(counts@ =~= tally(ranks@));
    counts
}

/// The highest rank below `limit` that is counted exactly `n` times.
fn last_with(counts: &[u8; 13], n: u8, limit: usize) -> (r: Option<u8>)
    requires
        limit <= 13,
    ensures
        r == highest_with(counts@, n as int, limit - 1),
        r matches Some(v) ==> v < limit && counts@[v as int] == n,
{
    let mut top: usize = limit;
    while top > 0
        invariant
            top <= limit <= 13,
            highest_with(counts@, n as int, limit - 1) == highest_with(counts@, n as int, top - 1),
        decreases top,
    {
        top = top - 1;
        if counts[top] == n {
            return Some(top as u8);
        }
    }
    None
}

fn four_of_a_kind(counts: &[u8; 13]) -> (r: Option<u8>)
    ensures
        r == highest_with(counts@, 4, 12),
        r matches Some(v) ==> v < 13 && counts@[v as int] == 4,
{
    last_with(counts, 4, 13)
}

fn full_house(counts: &[u8; 13]) -> (r: Option<(u8, u8)>)
    ensures
        r is Some <==> highest_with(counts@, 3, 12) is Some && highest_with(counts@, 2, 12) is Some,
        r matches Some((three, pair)) ==> highest_with(counts@, 3, 12) == Some(three)
            && highest_with(counts@, 2, 12) == Some(pair) && three < 13 && pair < 13,
{
    match (last_with(counts, 3, 13), last_with(counts, 2, 13)) {
        (Some(three), Some(pair)) => Some((three, pair)),
        _ => None,
    }
}

fn three_of_a_kind(counts: &[u8; 13]) -> (r: Option<u8>)
    ensures
        r == highest_with(counts@, 3, 12),
        r matches Some(v) ==> v < 13 && counts@[v as int] == 3,
{
    last_with(counts, 3, 13)
}

fn two_pair(counts: &[u8; 13]) -> (r: Option<(u8, u8)>)
    ensures
        ({
            let pair = highest_with(counts@, 2, 12);
            match pair {
                None => r is None,
                Some(p) => match highest_with(counts@, 2, p - 1) {
                    None => r is None,
                    Some(q) => r == Some((p, q)) && q < p < 13,
                },
            }
        }),
{
    match last_with(counts, 2, 13) {
        None => None,
        Some(p) => match last_with(counts, 2, p as usize) {
            None => None,
            Some(q) => Some((p, q)),
        },
    }
}

fn one_pair(counts: &[u8; 13]) -> (r: Option<u8>)
    ensures
        r == highest_with(counts@, 2, 12),
        r matches Some(v) ==> v < 13 && counts@[v as int] == 2,
{
    last_with(counts, 2, 13)
}

/// The ranks that equal neither `a` nor `b`, in their order.
fn other_ranks(ranks: &[u8; 5], a: u8, b: u8) -> (ks: Vec<u8>)
    requires
        forall|i: int| 0 <= i < 5 ==> ranks@[i] <= 12,
    ensures
        ks@ == kickers(ranks@, a, b),
        forall|i: int| 0 <= i < ks@.len() ==> ks@[i] <= 12,
{
    let mut ks: Vec<u8> = Vec::new();
    let mut i: usize = 0;
    while i < 5
        invariant
            i <= 5,
            ks@ == kickers(ranks@.take(i as int), a, b),
        decreases 5 - i,
    {
        assert(ranks@.take(i + 1).drop_last() =~= ranks@.take(i as int));
        if ranks[i] != a && ranks[i] != b {
            ks.push(ranks[i]);
        }
        i = i + 1;
    }
    assert(ranks@.take(5) =~= ranks@);
    proof {
        kickers_are_ranks(ranks@, a, b);
        assert forall|i: int| 0 <= i < ks@.len() implies ks@[i] <= 12 by {
            assert(ranks@.contains(kickers(ranks@, a, b)[i]));
        }
    }
    ks
}

/// All five ranks as tiebreakers.
fn tiebreak_kickers(ranks: &[u8; 5]) -> (tiebreak: u32)
    requires
        forall|i: int| 0 <= i < 5 ==> ranks@[i] <= 12,
    ensures
        tiebreak == digits(ranks@),
        tiebreak < 0x10_0000,
{
    let mut tiebreak: u32 = 0;
    proof {
        digits_of_four(ranks@[0], ranks@[1], ranks@[2], ranks@[3]);
        assert(ranks@.drop_last() =~= seq![ranks@[0], ranks@[1], ranks@[2], ranks@[3]]);
    }
    tiebreak = ranks[0] as u32;
    tiebreak = tiebreak * 16 + ranks[1] as u32;
    tiebreak = tiebreak * 16 + ranks[2] as u32;
    tiebreak = tiebreak * 16 + ranks[3] as u32;
    tiebreak * 16 + ranks[4] as u32
}

/// The strongest five of seven cards: some five of them are worth as much, and none
/// more.
pub fn best_of_7(cards: &[Card; 7]) -> (best: HandRank)
    ensures
        is_best_five(cards@, best.0),
        best.0 == counted_strength(cards@),
{
    let mut best = rank_5_naive(five_without(cards, 0, 1));
    let ghost mut at: (int, int) = (0, 1);
    // Try all C(7,5) = 21 five-card combinations.
    let mut i: usize = 0;
    while i < 7
        invariant
            i <= 7,
            0 <= at.0 < at.1 < 7,
            five_card_value(leaving_out(cards@, at.0, at.1)) == best.0,
            forall|a: int, b: int|
                0 <= a < i && a < b < 7 ==> five_card_value(#[trigger] leaving_out(cards@, a, b))
                    <= best.0,
        decreases 7 - i,
    {
        let mut j: usize = i + 1;
        while j < 7
            invariant
                i < j <= 7,
                i < 7,
                0 <= at.0 < at.1 < 7,
                five_card_value(leaving_out(cards@, at.0, at.1)) == best.0,
                forall|a: int, b: int|
                    0 <= a < b < 7 && (a < i || (a == i && b < j)) ==> five_card_value(
                        #[trigger] leaving_out(cards@, a, b),
                    ) <= best.0,
            decreases 7 - j,
        {
            let rank = rank_5_naive(five_without(cards, i, j));
            if rank.0 > best.0 {
                best = rank;
                proof {
                    at = (i as int, j as int);
                }
            }
            j = j + 1;
        }
        i = i + 1;
    }
    proof {
        assert(is_best_five(cards@, best.0));
        best_five_is_unique(cards@, best.0, counted_strength(cards@));
    }
    best
}

proof fn best_five_is_unique(cards: Seq<Card>, v: u32, w: u32)
    requires
        is_best_five(cards, v),
        is_best_five(cards, w),
    ensures
        v == w,
{
    let (i, j) = choose|i: int, j: int|
        0 <= i < j < 7 && five_card_value(#[trigger] leaving_out(cards, i, j)) == v;
    let (k, l) = choose|i: int, j: int|
        0 <= i < j < 7 && five_card_value(#[trigger] leaving_out(cards, i, j)) == w;
    assert(five_card_value(leaving_out(cards, i, j)) <= w);
    assert(five_card_value(leaving_out(cards, k, l)) <= v);
}

/// The five cards that are left without positions `i` and `j`.
fn five_without(cards: &[Card; 7], i: usize, j: usize) -> (five: [Card; 5])
    requires
        i < j < 7,
    ensures
        five@ == leaving_out(cards@, i as int, j as int),
{
    let mut five: [Card; 5] = [cards[0]; 5];
    let mut k: usize = 0;
    while k < 5
        invariant
            k <= 5,
            i < j < 7,
            forall|m: int|
                0 <= m < k ==> five@[m] == leaving_out(cards@, i as int, j as int)[m],
        decreases 5 - k,
    {
        let from: usize = if k < i {
            k
        } else if k + 1 < j {
            k + 1
        } else {
            k + 2
        };
        five[k] = cards[from];
        k = k + 1;
    }
    assert(five@ =~= leaving_out(cards@, i as int, j as int));
    five
}


// ---------------------------------------------------------------------------
// The evaluator of the `rs_poker` crate
// ---------------------------------------------------------------------------

type RsCard = rs_poker::core::Card;
type RsSuit = rs_poker::core::Suit;
type RsValue = rs_poker::core::Value;
type Rs = rs_poker::core::Rank;

/// A rank as `rs_poker` states it: the category, and a number that orders hands
/// within the category.
#[derive(Clone, Copy, PartialEq, Eq, Debug, Structural)]
pub enum RsRank {
    HighCard(u32),
    OnePair(u32),
    TwoPair(u32),
    ThreeOfAKind(u32),
    Straight(u32),
    Flush(u32),
    FullHouse(u32),
    FourOfAKind(u32),
    StraightFlush(u32),
}

/// What `rs_poker` makes of a hand given as pairs of value and suit numbers.
pub uninterp spec fn rs_poker_rank(cards: Seq<(u8, u8)>) -> RsRank;

/// No value occurs more than four times.
pub open spec fn at_most_four_of_a_value(cards: Seq<(u8, u8)>) -> bool {
    forall|a: int, b: int, c: int, d: int, e: int|
        0 <= a < b < c < d < e < cards.len() ==> !((#[trigger] cards[a]).0 == (
        #[trigger] cards[b]).0 && cards[b].0 == (#[trigger] cards[c]).0 && cards[c].0 == (
        #[trigger] cards[d]).0 && cards[d].0 == (#[trigger] cards[e]).0)
}

/// Hands of five or seven in the numbers of `rs_poker`: values 0 (deuce) to 12
/// (ace), suits 0 to 3, and no value more than four times.
pub open spec fn rs_hand(cards: Seq<(u8, u8)>) -> bool {
    &&& cards.len() == 5 || cards.len() == 7
    &&& forall|i: int| 0 <= i < cards.len() ==> (#[trigger] cards[i]).0 <= 12 && cards[i].1 <= 3
    &&& at_most_four_of_a_value(cards)
}

/// The suit that `rs_poker` numbers `code`.
pub open spec fn suit_of_code(code: u8) -> Suit {
    if code == 0 {
        Suit::Spades
    } else if code == 1 {
        Suit::Clubs
    } else if code == 2 {
        Suit::Hearts
    } else {
        Suit::Diamonds
    }
}

/// The cards that `rs_poker` numbers this way.
pub open spec fn cards_of_codes(codes: Seq<(u8, u8)>) -> Seq<Card> {
    Seq::new(
        codes.len(),
        |i: int| Card::numbered(4 * codes[i].0 + suit_of_code(codes[i].1).value()),
    )
}

/// The place of a hand among all hands, as the counting evaluator numbers it.
pub open spec fn place(codes: Seq<(u8, u8)>) -> u32 {
    counted_strength(cards_of_codes(codes))
}

/// Calls `rs_poker::core::Rankable::rank` on cards made by `Card::new`,
/// `Value::from_u8` and `Suit::from_u8`. The rank is a function of the cards. It is
/// the rank of the best five of them: of different cards it names the category, and
/// by category and number it lies below or above the rank of another hand exactly
/// where the one hand loses to or beats the other. (The number has at most 26 bits,
/// so both fit into one number of 32.) A fifth card of one value would leave the
/// crate's table of counts, so such hands are excluded.
#[verifier::external_body]
fn rs_rank(cards: &[(u8, u8)]) -> (rank: RsRank)
    requires
        rs_hand(cards@),
    ensures
        rank == rs_poker_rank(cards@),
        cards@.no_duplicates() ==> rank.category() == HandRank(
            place(cards@),
        ).spec_category().value(),
        cards@.no_duplicates() ==> rank.in_place(cards@),
{
    let hand: Vec<RsCard> =
        cards.iter().map(|c| RsCard::new(RsValue::from_u8(c.0), RsSuit::from_u8(c.1))).collect();
    match rs_poker::core::Rankable::rank(&hand) {
        Rs::HighCard(v) => RsRank::HighCard(v),
        Rs::OnePair(v) => RsRank::OnePair(v),
        Rs::TwoPair(v) => RsRank::TwoPair(v),
        Rs::ThreeOfAKind(v) => RsRank::ThreeOfAKind(v),
        Rs::Straight(v) => RsRank::Straight(v),
        Rs::Flush(v) => RsRank::Flush(v),
        Rs::FullHouse(v) => RsRank::FullHouse(v),
        Rs::FourOfAKind(v) => RsRank::FourOfAKind(v),
        Rs::StraightFlush(v) => RsRank::StraightFlush(v),
    }
}

/// The suit's number in `rs_poker`: spades, clubs, hearts, diamonds from 0 up.
pub open spec fn rs_suit(suit: Suit) -> u8 {
    match suit {
        Suit::Spades => 0,
        Suit::Clubs => 1,
        Suit::Hearts => 2,
        Suit::Diamonds => 3,
    }
}

/// The card's value and suit in the numbers of `rs_poker`.
pub open spec fn rs_card(card: Card) -> (u8, u8) {
    (card.spec_rank().value() as u8, rs_suit(card.spec_suit()))
}

/// The cards in the numbers of `rs_poker`.
pub open spec fn rs_cards(cards: Seq<Card>) -> Seq<(u8, u8)> {
    Seq::new(cards.len(), |i: int| rs_card(cards[i]))
}

impl RsRank {
    /// Position of the category, from a high card (0) up to a straight flush (8).
    pub open spec fn category(self) -> int {
        match self {
            RsRank::HighCard(_) => 0,
            RsRank::OnePair(_) => 1,
            RsRank::TwoPair(_) => 2,
            RsRank::ThreeOfAKind(_) => 3,
            RsRank::Straight(_) => 4,
            RsRank::Flush(_) => 5,
            RsRank::FullHouse(_) => 6,
            RsRank::FourOfAKind(_) => 7,
            RsRank::StraightFlush(_) => 8,
        }
    }

    /// The number that orders hands within the category.
    pub open spec fn tiebreaker(self) -> u32 {
        match self {
            RsRank::HighCard(v) => v,
            RsRank::OnePair(v) => v,
            RsRank::TwoPair(v) => v,
            RsRank::ThreeOfAKind(v) => v,
            RsRank::Straight(v) => v,
            RsRank::Flush(v) => v,
            RsRank::FullHouse(v) => v,
            RsRank::FourOfAKind(v) => v,
            RsRank::StraightFlush(v) => v,
        }
    }

    /// The rank as one number: the category above the low 28 bits of the tiebreaker.
    pub open spec fn encoded(self) -> int {
        self.category() * 0x1000_0000 + self.tiebreaker() % 0x1000_0000
    }

    /// The rank lies below or above the ranks of the other hands of different cards
    /// exactly where `codes` do.
    pub open spec fn in_place(self, codes: Seq<(u8, u8)>) -> bool {
        forall|other: Seq<(u8, u8)>|
            rs_hand(other) && other.no_duplicates() ==> {
                let r = #[trigger] rs_poker_rank(other);
                &&& self.encoded() < r.encoded() <==> place(codes) < place(other)
                &&& r.encoded() < self.encoded() <==> place(other) < place(codes)
            }
    }
}

/// Five or seven different cards.
pub open spec fn proper_hand(cards: Seq<Card>) -> bool {
    &&& cards.len() == 5 || cards.len() == 7
    &&& all_cards(cards)
    &&& cards.no_duplicates()
}

/// `rank` names the category of `cards`, and places them among all hands that
/// [`RsPokerEvaluator`] ranks where [`NaiveEvaluator`] places them.
pub open spec fn placed_alike(rank: HandRank, cards: Seq<Card>) -> bool {
    &&& rank.spec_category() == HandRank(counted_strength(cards)).spec_category()
    &&& forall|other: Seq<Card>| #[trigger]
        proper_hand(other) ==> {
            let r = rs_poker_rank(rs_cards(other)).encoded();
            &&& rank.0 < r <==> counted_strength(cards) < counted_strength(other)
            &&& r < rank.0 <==> counted_strength(other) < counted_strength(cards)
        }
}

/// Fast evaluator of the `rs_poker` crate. Default choice for bulk simulation. It
/// orders hands as [`NaiveEvaluator`] does, by other numbers.
#[derive(Clone, Copy)]
pub struct RsPokerEvaluator;

impl Default for RsPokerEvaluator {
    fn default() -> (e: Self)
        ensures
            e == RsPokerEvaluator,
    {
        RsPokerEvaluator
    }
}

impl HandEvaluator for RsPokerEvaluator {
    open spec fn strength(&self, cards: Seq<Card>) -> u32 {
        rs_poker_rank(rs_cards(cards)).encoded() as u32
    }

    open spec fn accepts(&self, cards: Seq<Card>) -> bool {
        at_most_four_of_a_value(rs_cards(cards))
    }

    proof fn accepts_different_cards(&self, cards: Seq<Card>) {
        let codes = rs_cards(cards);
        assert forall|a: int, b: int, c: int, d: int, e: int|
            0 <= a < b < c < d < e < codes.len() implies !((#[trigger] codes[a]).0 == (
        #[trigger] codes[b]).0 && codes[b].0 == (#[trigger] codes[c]).0 && codes[c].0 == (
        #[trigger] codes[d]).0 && codes[d].0 == (#[trigger] codes[e]).0) by {
            different_cards_differ_in_code(cards[a], cards[b]);
            different_cards_differ_in_code(cards[a], cards[c]);
            different_cards_differ_in_code(cards[a], cards[d]);
            different_cards_differ_in_code(cards[a], cards[e]);
            different_cards_differ_in_code(cards[b], cards[c]);
            different_cards_differ_in_code(cards[b], cards[d]);
            different_cards_differ_in_code(cards[b], cards[e]);
            different_cards_differ_in_code(cards[c], cards[d]);
            different_cards_differ_in_code(cards[c], cards[e]);
            different_cards_differ_in_code(cards[d], cards[e]);
        }
    }

    fn rank_7(&self, cards: [Card; 7]) -> (rank: HandRank)
        ensures
            proper_hand(cards@) ==> placed_alike(rank, cards@),
    {
        let hand: [(u8, u8); 7] = [
            to_rs_card(cards[0]),
            to_rs_card(cards[1]),
            to_rs_card(cards[2]),
            to_rs_card(cards[3]),
            to_rs_card(cards[4]),
            to_rs_card(cards[5]),
            to_rs_card(cards[6]),
        ];
        assert(hand@ =~= rs_cards(cards@));
        let rank = rs_rank(hand.as_slice());
        assert(proper_hand(cards@) ==> placed_alike(HandRank(rank.encoded() as u32), cards@)) by {
            if proper_hand(cards@) {
                codes_read_back(cards@);
                ranks_are_placed_alike(rank, cards@);
            }
        }
        encode_rs_rank(rank)
    }

    fn rank_5(&self, cards: [Card; 5]) -> (rank: HandRank)
        ensures
            proper_hand(cards@) ==> placed_alike(rank, cards@),
    {
        let hand: [(u8, u8); 5] = [
            to_rs_card(cards[0]),
            to_rs_card(cards[1]),
            to_rs_card(cards[2]),
            to_rs_card(cards[3]),
            to_rs_card(cards[4]),
        ];
        assert(hand@ =~= rs_cards(cards@));
        let rank = rs_rank(hand.as_slice());
        assert(proper_hand(cards@) ==> placed_alike(HandRank(rank.encoded() as u32), cards@)) by {
            if proper_hand(cards@) {
                codes_read_back(cards@);
                ranks_are_placed_alike(rank, cards@);
            }
        }
        encode_rs_rank(rank)
    }
}

/// The codes of a proper hand give its cards back, and are a hand of `rs_poker`.
proof fn codes_read_back(cards: Seq<Card>)
    requires
        proper_hand(cards),
    ensures
        cards_of_codes(rs_cards(cards)) == cards,
        rs_hand(rs_cards(cards)),
        rs_cards(cards).no_duplicates(),
{
    let codes = rs_cards(cards);
    RsPokerEvaluator.accepts_different_cards(cards);
    assert forall|i: int| 0 <= i < cards.len() implies cards_of_codes(codes)[i] == cards[i] by {
        let c = cards[i];
        assert(c.id() == 4 * (c.id() / 4) + c.id() % 4);
        card::numbered_has_id(c.id());
        card::card_is_its_number(Card::numbered(c.id()), c);
    }
    assert(cards_of_codes(codes) =~= cards);
    assert forall|i: int, j: int| 0 <= i < codes.len() && 0 <= j < codes.len() && i
        != j implies codes[i] != codes[j] by {
        different_cards_differ_in_code(cards[i], cards[j]);
    }
}

/// What holds of the ranks of `rs_poker` holds of their numbers.
proof fn ranks_are_placed_alike(rank: RsRank, cards: Seq<Card>)
    requires
        proper_hand(cards),
        rank.category() == HandRank(place(rs_cards(cards))).spec_category().value(),
        rank.in_place(rs_cards(cards)),
    ensures
        placed_alike(HandRank(rank.encoded() as u32), cards),
{
    codes_read_back(cards);
    encoding_keeps_category(rank);
    assert forall|other: Seq<Card>| #[trigger] proper_hand(other) implies {
        let r = rs_poker_rank(rs_cards(other)).encoded();
        &&& rank.encoded() < r <==> counted_strength(cards) < counted_strength(other)
        &&& r < rank.encoded() <==> counted_strength(other) < counted_strength(cards)
    } by {
        codes_read_back(other);
    }
}

proof fn different_cards_differ_in_code(a: Card, b: Card)
    requires
        0 <= a.id() < 52,
        0 <= b.id() < 52,
        a != b,
    ensures
        rs_card(a) != rs_card(b),
{
    if a.id() == b.id() {
        card::card_is_its_number(a, b);
    }
}

/// The card in the numbers of `rs_poker`. Ranks are numbered alike; suits are not.
fn to_rs_card(card: Card) -> (code: (u8, u8))
    ensures
        code == rs_card(card),
        code.0 <= 12,
        code.1 <= 3,
{
    let suit: u8 = match card.suit() {
        Suit::Spades => 0,
        Suit::Clubs => 1,
        Suit::Hearts => 2,
        Suit::Diamonds => 3,
    };
    (card.rank().to_u8(), suit)
}

/// One comparable number for a rank of `rs_poker`. Categories are numbered in the
/// order in which they beat one another, so the order between categories is kept.
pub fn encode_rs_rank(rank: RsRank) -> (r: HandRank)
    ensures
        r.0 == rank.encoded(),
{
    let (category, tiebreaker): (u32, u32) = match rank {
        RsRank::HighCard(v) => (0, v),
        RsRank::OnePair(v) => (1, v),
        RsRank::TwoPair(v) => (2, v),
        RsRank::ThreeOfAKind(v) => (3, v),
        RsRank::Straight(v) => (4, v),
        RsRank::Flush(v) => (5, v),
        RsRank::FullHouse(v) => (6, v),
        RsRank::FourOfAKind(v) => (7, v),
        RsRank::StraightFlush(v) => (8, v),
    };
    HandRank(category * CATEGORY_UNIT + tiebreaker % CATEGORY_UNIT)
}

// ---------------------------------------------------------------------------
// Laws
// ---------------------------------------------------------------------------

/// The category of an encoded rank is the one that `rs_poker` named.
pub proof fn encoding_keeps_category(rank: RsRank)
    ensures
        HandRank(rank.encoded() as u32).spec_category().value() == rank.category(),
{
}

/// Between two ranks whose tiebreakers fit in 28 bits, the encoding orders first by
/// category, then by tiebreaker.
pub proof fn encoding_keeps_order(a: RsRank, b: RsRank)
    requires
        a.tiebreaker() < 0x1000_0000,
        b.tiebreaker() < 0x1000_0000,
    ensures
        a.encoded() < b.encoded() <==> (a.category() < b.category() || (a.category()
            == b.category() && a.tiebreaker() < b.tiebreaker())),
{
}

/// The digits of at most six ranks stay below the unit of categories.
proof fn digits_bounded(s: Seq<u8>)
    requires
        s.len() <= 6,
        forall|i: int| 0 <= i < s.len() ==> s[i] <= 12,
    ensures
        0 <= digits(s),
        s.len() == 0 ==> digits(s) == 0,
        s.len() <= 1 ==> digits(s) < 0x10,
        s.len() <= 2 ==> digits(s) < 0x100,
        s.len() <= 3 ==> digits(s) < 0x1000,
        s.len() <= 4 ==> digits(s) < 0x1_0000,
        s.len() <= 5 ==> digits(s) < 0x10_0000,
        digits(s) < 0x100_0000,
    decreases s.len(),
{
    if s.len() > 0 {
        digits_bounded(s.drop_last());
    }
}

proof fn highest_with_is_a_rank(counts: Seq<u8>, n: int, top: int)
    requires
        top <= 12,
    ensures
        highest_with(counts, n, top) matches Some(v) ==> v <= 12,
    decreases top + 1,
{
    if 0 <= top && counts[top] != n {
        highest_with_is_a_rank(counts, n, top - 1);
    }
}

proof fn kickers_no_longer(d: Seq<u8>, a: u8, b: u8)
    ensures
        kickers(d, a, b).len() <= d.len(),
    decreases d.len(),
{
    if d.len() > 0 {
        kickers_no_longer(d.drop_last(), a, b);
    }
}

/// The category that the counting evaluator's number names is the category of the
/// hand, and its tiebreakers never spill into it.
pub proof fn value_names_its_category(cards: Seq<Card>)
    requires
        cards.len() == 5,
    ensures
        ({
            let (category, tiebreakers) = classified(
                descending(ranks_of(cards)),
                one_suit(cards),
            );
            &&& 0 <= category <= 8
            &&& 0 <= digits(tiebreakers) < 0x1000_0000
            &&& HandRank(five_card_value(cards) as u32).spec_category().value() == category
        }),
{
    let d = descending(ranks_of(cards));
    let leq = |x: u8, y: u8| x >= y;
    ranks_of(cards).lemma_sort_by_ensures(leq);
    vstd::seq_lib::to_multiset_len(ranks_of(cards));
    vstd::seq_lib::to_multiset_len(d);
    ranks_stay_below(ranks_of(cards), d);
    let counts = tally(d);
    highest_with_is_a_rank(counts, 4, 12);
    highest_with_is_a_rank(counts, 3, 12);
    highest_with_is_a_rank(counts, 2, 12);
    let pair = highest_with(counts, 2, 12);
    if pair is Some {
        highest_with_is_a_rank(counts, 2, pair->0 as int - 1);
    }
    assert forall|a: u8, b: u8|
        kickers(d, a, b).len() <= 5 && (forall|i: int|
            0 <= i < kickers(d, a, b).len() ==> (#[trigger] kickers(d, a, b)[i]) <= 12) by {
        kickers_no_longer(d, a, b);
        kickers_are_ranks(d, a, b);
        assert forall|i: int| 0 <= i < kickers(d, a, b).len() implies (#[trigger] kickers(
            d,
            a,
            b,
        )[i]) <= 12 by {
            assert(d.contains(kickers(d, a, b)[i]));
        }
    }
    let (category, tiebreakers) = classified(d, one_suit(cards));
    assert(tiebreakers.len() <= 6);
    assert(forall|i: int| 0 <= i < tiebreakers.len() ==> tiebreakers[i] <= 12);
    digits_bounded(tiebreakers);
}

/// The counting evaluator does not see the order of the cards.
pub proof fn order_of_cards_is_irrelevant(a: Seq<Card>, b: Seq<Card>)
    requires
        a.to_multiset() == b.to_multiset(),
    ensures
        five_card_value(a) == five_card_value(b),
{
    same_cards_same_ranks(a, b);
    let leq = |x: u8, y: u8| x >= y;
    ranks_of(a).lemma_sort_by_ensures(leq);
    ranks_of(b).lemma_sort_by_ensures(leq);
    vstd::seq_lib::lemma_sorted_unique(descending(ranks_of(a)), descending(ranks_of(b)), leq);
    if one_suit(a) {
        same_cards_same_suits(a, b);
    }
    if one_suit(b) {
        same_cards_same_suits(b, a);
    }
}

proof fn same_cards_same_suits(a: Seq<Card>, b: Seq<Card>)
    requires
        a.to_multiset() == b.to_multiset(),
        one_suit(a),
    ensures
        one_suit(b),
{
    assert forall|i: int, j: int| 0 <= i < b.len() && 0 <= j < b.len() implies (
    #[trigger] b[i]).spec_suit() == (#[trigger] b[j]).spec_suit() by {
        vstd::seq_lib::to_multiset_contains(a, b[i]);
        vstd::seq_lib::to_multiset_contains(a, b[j]);
        vstd::seq_lib::to_multiset_contains(b, b[i]);
        vstd::seq_lib::to_multiset_contains(b, b[j]);
        assert(b.contains(b[i]) && b.contains(b[j]));
        let x = choose|x: int| 0 <= x < a.len() && a[x] == b[i];
        let y = choose|y: int| 0 <= y < a.len() && a[y] == b[j];
        assert(a[x].spec_suit() == a[y].spec_suit());
    }
}

/// Removing one card removes its rank.
proof fn ranks_of_remove(a: Seq<Card>, i: int)
    requires
        0 <= i < a.len(),
    ensures
        ranks_of(a).to_multiset() =~= ranks_of(a.remove(i)).to_multiset().insert(
            a[i].spec_rank().value() as u8,
        ),
{
    assert(ranks_of(a).remove(i) =~= ranks_of(a.remove(i)));
    vstd::seq_lib::to_multiset_remove(ranks_of(a), i);
    vstd::seq_lib::to_multiset_contains(ranks_of(a), ranks_of(a)[i]);
    assert(ranks_of(a).contains(ranks_of(a)[i]));
}

proof fn same_cards_same_ranks(a: Seq<Card>, b: Seq<Card>)
    requires
        a.to_multiset() == b.to_multiset(),
    ensures
        ranks_of(a).to_multiset() == ranks_of(b).to_multiset(),
    decreases a.len(),
{
    vstd::seq_lib::to_multiset_len(a);
    vstd::seq_lib::to_multiset_len(b);
    if a.len() == 0 {
        assert(a =~= b);
    } else {
        let c = a.last();
        vstd::seq_lib::to_multiset_contains(a, c);
        vstd::seq_lib::to_multiset_contains(b, c);
        assert(a[a.len() - 1] == c);
        let k = choose|k: int| 0 <= k < b.len() && b[k] == c;
        vstd::seq_lib::to_multiset_remove(a, a.len() - 1);
        vstd::seq_lib::to_multiset_remove(b, k);
        same_cards_same_ranks(a.remove(a.len() - 1), b.remove(k));
        ranks_of_remove(a, a.len() - 1);
        ranks_of_remove(b, k);
    }
}

/// Leaving two cards out of the same seven cards in another order.
proof fn leaving_out_elsewhere(a: Seq<Card>, b: Seq<Card>, i: int, j: int) -> (at: (int, int))
    requires
        a.len() == 7,
        a.to_multiset() == b.to_multiset(),
        0 <= i < j < 7,
    ensures
        0 <= at.0 < at.1 < 7,
        leaving_out(b, at.0, at.1).to_multiset() == leaving_out(a, i, j).to_multiset(),
{
    vstd::seq_lib::to_multiset_len(a);
    vstd::seq_lib::to_multiset_len(b);
    let x = a[j];
    vstd::seq_lib::to_multiset_contains(a, x);
    vstd::seq_lib::to_multiset_contains(b, x);
    assert(a.contains(x));
    let k = choose|k: int| 0 <= k < b.len() && b[k] == x;
    vstd::seq_lib::to_multiset_remove(a, j);
    vstd::seq_lib::to_multiset_remove(b, k);
    let a1 = a.remove(j);
    let b1 = b.remove(k);
    assert(a1.to_multiset() =~= b1.to_multiset());
    let y = a1[i];
    vstd::seq_lib::to_multiset_contains(a1, y);
    vstd::seq_lib::to_multiset_contains(b1, y);
    assert(a1.contains(y));
    let m = choose|m: int| 0 <= m < b1.len() && b1[m] == y;
    vstd::seq_lib::to_multiset_remove(a1, i);
    vstd::seq_lib::to_multiset_remove(b1, m);
    assert(a1.remove(i).to_multiset() =~= b1.remove(m).to_multiset());
    if m < k {
        (m, k)
    } else {
        assert(b.remove(m + 1).remove(k) =~= b1.remove(m));
        (k, m + 1)
    }
}

/// Among the ways to leave two of seven cards out that come before `n`, one is best.
proof fn best_before(cards: Seq<Card>, n: int) -> (at: (int, int))
    requires
        cards.len() == 7,
        0 <= n <= 49,
    ensures
        0 <= at.0 < at.1 < 7,
        forall|i: int, j: int|
            0 <= i < j < 7 && 7 * i + j < n ==> five_card_value(#[trigger] leaving_out(cards, i, j))
                <= five_card_value(leaving_out(cards, at.0, at.1)),
    decreases n,
{
    if n == 0 {
        (0, 1)
    } else {
        let at = best_before(cards, n - 1);
        let i = (n - 1) / 7;
        let j = (n - 1) % 7;
        if i < j && five_card_value(leaving_out(cards, i, j)) > five_card_value(
            leaving_out(cards, at.0, at.1),
        ) {
            assert forall|x: int, y: int| 0 <= x < y < 7 && 7 * x + y < n implies five_card_value(
                #[trigger] leaving_out(cards, x, y),
            ) <= five_card_value(leaving_out(cards, i, j)) by {
                if 7 * x + y == n - 1 {
                    assert(x == i && y == j);
                }
            }
            (i, j)
        } else {
            assert forall|x: int, y: int| 0 <= x < y < 7 && 7 * x + y < n implies five_card_value(
                #[trigger] leaving_out(cards, x, y),
            ) <= five_card_value(leaving_out(cards, at.0, at.1)) by {
                if 7 * x + y == n - 1 {
                    assert(x == i && y == j);
                }
            }
            at
        }
    }
}

/// Seven cards have a best five, and that is what the counting evaluator finds.
pub proof fn best_five_exists(cards: Seq<Card>)
    requires
        cards.len() == 7,
    ensures
        is_best_five(cards, counted_strength(cards)),
{
    let at = best_before(cards, 49);
    let five = leaving_out(cards, at.0, at.1);
    value_names_its_category(five);
    let v = five_card_value(five) as u32;
    assert(five_card_value(five) == v);
    assert(is_best_five(cards, v));
}

/// The counting evaluator does not see the order of seven cards either.
pub proof fn order_of_seven_is_irrelevant(a: Seq<Card>, b: Seq<Card>)
    requires
        a.len() == 7,
        a.to_multiset() == b.to_multiset(),
    ensures
        counted_strength(a) == counted_strength(b),
{
    vstd::seq_lib::to_multiset_len(a);
    vstd::seq_lib::to_multiset_len(b);
    best_five_exists(a);
    best_five_exists(b);
    best_is_no_worse(a, b);
    best_is_no_worse(b, a);
}

proof fn best_is_no_worse(a: Seq<Card>, b: Seq<Card>)
    requires
        a.len() == 7,
        a.to_multiset() == b.to_multiset(),
        is_best_five(a, counted_strength(a)),
        is_best_five(b, counted_strength(b)),
    ensures
        counted_strength(a) <= counted_strength(b),
{
    let v = counted_strength(a);
    let (i, j) = choose|i: int, j: int|
        0 <= i < j < 7 && five_card_value(#[trigger] leaving_out(a, i, j)) == v;
    let at = leaving_out_elsewhere(a, b, i, j);
    order_of_cards_is_irrelevant(leaving_out(a, i, j), leaving_out(b, at.0, at.1));
    assert(five_card_value(leaving_out(b, at.0, at.1)) <= counted_strength(b));
}

} // verus!
