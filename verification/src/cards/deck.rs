use rand::rngs::SmallRng;
use vstd::prelude::*;

use super::card;
use super::card::{Card, Rank, Suit};
use crate::random;

verus! {

/// The 52 cards in the order of their numbers.
pub open spec fn fresh_order() -> Seq<Card> {
    Seq::new(52, |i: int| Card::numbered(i))
}

/// `order` with the entries at `i` and `j` exchanged.
pub open spec fn exchanged(order: Seq<Card>, i: int, j: int) -> Seq<Card> {
    order.update(i, order[j]).update(j, order[i])
}

/// Fisher-Yates from position `i` down to position 1: each position is exchanged
/// with one that the generator draws among those not above it.
pub open spec fn fisher_yates(order: Seq<Card>, rng: SmallRng, i: int) -> Seq<Card>
    decreases i,
{
    if i <= 0 {
        order
    } else {
        let drawn = random::small_rng_index(rng, i as usize);
        fisher_yates(exchanged(order, i, drawn.0 as int), drawn.1, i - 1)
    }
}

/// The order into which `seed` shuffles the deck. Nothing else enters it.
pub open spec fn shuffled(seed: u64) -> Seq<Card> {
    fisher_yates(fresh_order(), random::small_rng_seeded(seed, usize::BITS), 51)
}

/// `order` holds each of the 52 cards exactly once.
pub open spec fn full_deck(order: Seq<Card>) -> bool {
    &&& order.len() == 52
    &&& order.no_duplicates()
    &&& forall|i: int| 0 <= i < 52 ==> 0 <= (#[trigger] order[i]).id() < 52
}

/// A full 52-card deck with Fisher-Yates shuffle, driven by a seeded `SmallRng`:
/// fast, and not meant for cryptography.
pub struct Deck {
    cards: [Card; 52],
    cursor: usize,
    seed: u64,
}

impl Deck {
    #[verifier::type_invariant]
    spec fn cursor_in_range(self) -> bool {
        self.cursor <= 52
    }

    /// The cards in dealing order, those already dealt included.
    pub closed spec fn order(self) -> Seq<Card> {
        self.cards@
    }

    /// How many cards have been dealt.
    pub closed spec fn dealt(self) -> int {
        self.cursor as int
    }

    /// The seed that the deck was made from.
    pub closed spec fn spec_seed(self) -> u64 {
        self.seed
    }

    /// The cards still to come, next one first.
    pub open spec fn rest(self) -> Seq<Card> {
        self.order().skip(self.dealt())
    }

    /// A shuffled deck. The seed alone fixes the order.
    pub fn new(seed: u64) -> (deck: Deck)
        ensures
            deck.order() == shuffled(seed),
            deck.dealt() == 0,
            deck.spec_seed() == seed,
            full_deck(deck.order()),
    {
        let first = match Card::from_index(0) {
            Some(card) => card,
            None => Card::new(Rank::Two, Suit::Clubs),
        };
        let mut cards: [Card; 52] = [first; 52];
        let mut i: usize = 0;
        while i < 52
            invariant
                i <= 52,
                forall|k: int| 0 <= k < i ==> cards@[k] == Card::numbered(k),
            decreases 52 - i,
        {
            if let Some(card) = Card::from_index(i as u8) {
                cards[i] = card;
            }
            i = i + 1;
        }
        assert(cards@ =~= fresh_order());
        proof {
            assert forall|a: int, b: int| 0 <= a < 52 && 0 <= b < 52 && a != b implies cards@[a]
                != cards@[b] by {
                card::numbered_has_id(a);
                card::numbered_has_id(b);
            }
            assert forall|a: int| 0 <= a < 52 implies 0 <= (#[trigger] cards@[a]).id() < 52 by {
                card::numbered_has_id(a);
            }
        }
        let mut deck = Deck { cards, cursor: 0, seed };
        deck.shuffle();
        deck
    }

    pub fn seed(&self) -> (seed: u64)
        ensures
            seed == self.spec_seed(),
    {
        self.seed
    }

    /// Deal the next card.
    pub fn deal(&mut self) -> (card: Card)
        requires
            old(self).dealt() < 52,
        ensures
            card == old(self).order()[old(self).dealt()],
            0 <= card.id() < 52,
            final(self).dealt() == old(self).dealt() + 1,
            final(self).order() == old(self).order(),
            final(self).spec_seed() == old(self).spec_seed(),
    {
        let card = self.cards[self.cursor];
        self.cursor = self.cursor + 1;
        let _ = card.index();
        card
    }

    /// How many cards are left to deal.
    pub fn remaining(&self) -> (n: usize)
        ensures
            n == 52 - self.dealt(),
            n <= 52,
    {
        proof {
            use_type_invariant(self);
        }
        52 - self.cursor
    }

    fn shuffle(&mut self)
        requires
            full_deck(old(self).order()),
        ensures
            final(self).order() == fisher_yates(
                old(self).order(),
                random::small_rng_seeded(old(self).spec_seed(), usize::BITS),
                51,
            ),
            final(self).dealt() == old(self).dealt(),
            final(self).spec_seed() == old(self).spec_seed(),
            full_deck(final(self).order()),
    {
        proof {
            use_type_invariant(&*self);
        }
        let mut rng = random::seeded_rng(self.seed);
        let ghost goal = fisher_yates(self.order(), rng, 51);
        let mut i: usize = 51;
        while i > 0
            invariant
                i <= 51,
                self.cursor <= 52,
                self.cursor == old(self).cursor,
                self.seed == old(self).seed,
                full_deck(self.order()),
                fisher_yates(self.order(), rng, i as int) == goal,
            decreases i,
        {
            let ghost before = self.order();
            let j = random::draw_index(&mut rng, i);
            let moved = self.cards[i];
            self.cards[i] = self.cards[j];
            self.cards[j] = moved;
            assert(self.order() =~= exchanged(before, i as int, j as int));
            i = i - 1;
        }
    }
}

impl Clone for Deck {
    fn clone(&self) -> (deck: Deck)
        ensures
            deck == *self,
    {
        proof {
            use_type_invariant(self);
        }
        Deck { cards: self.cards, cursor: self.cursor, seed: self.seed }
    }
}

/// Every card is somewhere in a full deck.
pub proof fn full_deck_has_every_card(order: Seq<Card>, wanted: Card)
    requires
        full_deck(order),
        0 <= wanted.id() < 52,
    ensures
        order.contains(wanted),
{
    let ids: Seq<int> = order.map_values(|c: Card| c.id());
    assert(ids.no_duplicates()) by {
        assert forall|i: int, j: int| 0 <= i < 52 && 0 <= j < 52 && i != j implies ids[i]
            != ids[j] by {
            if ids[i] == ids[j] {
                card::card_is_its_number(order[i], order[j]);
            }
        }
    }
    ids.unique_seq_to_set();
    let all: Set<int> = vstd::set_lib::set_int_range(0, 52);
    vstd::set_lib::lemma_int_range(0, 52);
    assert(ids.to_set().subset_of(all)) by {
        assert forall|x: int| ids.to_set().contains(x) implies all.contains(x) by {
            let i = choose|i: int| 0 <= i < ids.len() && ids[i] == x;
            assert(0 <= order[i].id() < 52);
        }
    }
    vstd::set_lib::lemma_subset_equality(ids.to_set(), all);
    assert(ids.to_set().contains(wanted.id()));
    let i = choose|i: int| 0 <= i < ids.len() && ids[i] == wanted.id();
    card::card_is_its_number(order[i], wanted);
}

/// Whatever is drawn from `rng` for the places from `i` down to 1 lies in the range that
/// was asked for.
pub open spec fn draws_in_range(rng: SmallRng, i: int) -> bool
    decreases i,
{
    i > 0 ==> {
        &&& random::small_rng_index(rng, i as usize).0 <= i
        &&& draws_in_range(random::small_rng_index(rng, i as usize).1, i - 1)
    }
}

/// A shuffle fills the places from the last one down: place `i` gets the card that stands
/// at the place drawn for it, the card that stood at `i` takes that one's place and waits
/// for the next draws, and the places above `i` keep what they hold.
pub proof fn shuffles_fill_from_the_back(order: Seq<Card>, rng: SmallRng, i: int)
    requires
        0 < i < order.len() <= 52,
        draws_in_range(rng, i),
    ensures
        ({
            let after = fisher_yates(order, rng, i);
            let (j, next) = random::small_rng_index(rng, i as usize);
            let waiting = Seq::new(
                order.len(),
                |k: int|
                    if k == i {
                        order[j as int]
                    } else if k == j {
                        order[i]
                    } else {
                        order[k]
                    },
            );
            &&& after.len() == order.len()
            &&& after[i] == order[j as int]
            &&& forall|k: int| i < k < order.len() ==> #[trigger] after[k] == order[k]
            &&& after == fisher_yates(waiting, next, i - 1)
        }),
{
    let (j, next) = random::small_rng_index(rng, i as usize);
    let waiting = Seq::new(
        order.len(),
        |k: int|
            if k == i {
                order[j as int]
            } else if k == j {
                order[i]
            } else {
                order[k]
            },
    );
    assert(exchanged(order, i, j as int) =~= waiting);
    filled_places_stay(waiting, next, i - 1);
}

proof fn filled_places_stay(order: Seq<Card>, rng: SmallRng, i: int)
    requires
        0 <= i < order.len(),
        draws_in_range(rng, i),
    ensures
        fisher_yates(order, rng, i).len() == order.len(),
        forall|k: int|
            i < k < order.len() ==> #[trigger] fisher_yates(order, rng, i)[k] == order[k],
    decreases i,
{
    if i > 0 {
        let (j, next) = random::small_rng_index(rng, i as usize);
        filled_places_stay(exchanged(order, i, j as int), next, i - 1);
    }
}

/// The last card of a shuffled deck is the one whose number is drawn first.
pub proof fn last_card_is_drawn_first(seed: u64)
    requires
        draws_in_range(random::seeded(seed), 51),
    ensures
        shuffled(seed).len() == 52,
        shuffled(seed)[51].id() == random::small_rng_index(random::seeded(seed), 51).0,
{
    shuffles_fill_from_the_back(fresh_order(), random::seeded(seed), 51);
    card::numbered_has_id(random::small_rng_index(random::seeded(seed), 51).0 as int);
}

} // verus!
