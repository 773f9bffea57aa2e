//! Cards, decks, evaluators and preflop classes.

use std::collections::{BTreeMap, HashSet};

use poker::abstraction::PreflopClass;
use poker::cards::evaluator::{best_of_7, encode_rs_rank, rank_5_naive, RsRank};
use poker::cards::{
    Card, Deck, HandCategory, HandEvaluator, HandRank, NaiveEvaluator, Rank, RsPokerEvaluator, Suit,
};

fn card(r: Rank, s: Suit) -> Card {
    Card::new(r, s)
}

fn numbered(i: u8) -> Card {
    Card::from_index(i).unwrap()
}

// Cards

#[test]
fn round_trip() {
    for rank in [Rank::Two, Rank::Ace, Rank::King, Rank::Ten] {
        for suit in [Suit::Clubs, Suit::Spades, Suit::Hearts, Suit::Diamonds] {
            let c = Card::new(rank, suit);
            assert_eq!(c.rank(), rank);
            assert_eq!(c.suit(), suit);
        }
    }
}

#[test]
fn unique_indices() {
    let all: HashSet<usize> = (0u8..52).map(|i| numbered(i).index()).collect();
    assert_eq!(all.len(), 52);
}

#[test]
fn mask_no_overlap() {
    let combined = (0u8..52).fold(0u64, |acc, i| acc | numbered(i).mask());
    assert_eq!(combined.count_ones(), 52);
}

#[test]
fn card_numbers_end_at_fifty_one() {
    assert!(Card::from_index(51).is_some());
    assert!(Card::from_index(52).is_none());
    assert!(Card::from_index(255).is_none());
}

#[test]
fn cards_in_words() {
    assert_eq!(card(Rank::Ace, Suit::Spades).to_text(), "As");
    assert_eq!(card(Rank::Ten, Suit::Hearts).to_text(), "Th");
    assert_eq!(card(Rank::Two, Suit::Clubs).to_text(), "2c");
    assert_eq!(card(Rank::Nine, Suit::Diamonds).to_text(), "9d");
}

#[test]
fn card_layout_is_rank_above_suit() {
    assert_eq!(card(Rank::Two, Suit::Clubs).index(), 0);
    assert_eq!(card(Rank::Two, Suit::Spades).index(), 3);
    assert_eq!(card(Rank::Ace, Suit::Spades).index(), 51);
    assert_eq!(card(Rank::Three, Suit::Hearts).mask(), 1u64 << 6);
}

// Decks

#[test]
fn no_duplicate_cards() {
    let mut deck = Deck::new(42);
    let mut seen = HashSet::new();
    for _ in 0..52 {
        assert!(seen.insert(deck.deal().index()));
    }
}

#[test]
fn deterministic_with_same_seed() {
    let order_a: Vec<_> = {
        let mut d = Deck::new(99);
        (0..52).map(|_| d.deal()).collect()
    };
    let order_b: Vec<_> = {
        let mut d = Deck::new(99);
        (0..52).map(|_| d.deal()).collect()
    };
    assert_eq!(order_a, order_b);
}

#[test]
fn different_seeds_differ() {
    let order_a: Vec<_> = {
        let mut d = Deck::new(1);
        (0..10).map(|_| d.deal()).collect()
    };
    let order_b: Vec<_> = {
        let mut d = Deck::new(2);
        (0..10).map(|_| d.deal()).collect()
    };
    assert_ne!(order_a, order_b);
}

#[test]
fn decks_are_shuffled_and_counted() {
    let mut d = Deck::new(7);
    assert_eq!(d.seed(), 7);
    assert_eq!(d.remaining(), 52);
    let order: Vec<usize> = (0..52).map(|_| d.deal().index()).collect();
    assert_eq!(d.remaining(), 0);
    let fresh: Vec<usize> = (0..52).collect();
    assert_ne!(order, fresh);
}

#[test]
fn the_shuffle_is_fisher_yates_over_the_seeded_generator() {
    let mut rng: rand::rngs::SmallRng = rand::SeedableRng::seed_from_u64(2024);
    let mut expected: Vec<usize> = (0..52).collect();
    for i in (1..52usize).rev() {
        let j = rand::Rng::gen_range(&mut rng, 0..=i);
        expected.swap(i, j);
    }
    let mut d = Deck::new(2024);
    let dealt: Vec<usize> = (0..52).map(|_| d.deal().index()).collect();
    assert_eq!(dealt, expected);
}

#[test]
fn a_cloned_deck_deals_the_same_cards() {
    let mut a = Deck::new(5);
    a.deal();
    let mut b = a.clone();
    assert_eq!(a.deal(), b.deal());
    assert_eq!(a.remaining(), b.remaining());
}

// Evaluators

#[test]
fn royal_flush_beats_straight_flush() {
    let eval = NaiveEvaluator;
    let royal = [
        card(Rank::Ace, Suit::Spades), card(Rank::King, Suit::Spades),
        card(Rank::Queen, Suit::Spades), card(Rank::Jack, Suit::Spades),
        card(Rank::Ten, Suit::Spades), card(Rank::Two, Suit::Hearts),
        card(Rank::Three, Suit::Hearts),
    ];
    let sf = [
        card(Rank::Nine, Suit::Spades), card(Rank::Eight, Suit::Spades),
        card(Rank::Seven, Suit::Spades), card(Rank::Six, Suit::Spades),
        card(Rank::Five, Suit::Spades), card(Rank::Two, Suit::Hearts),
        card(Rank::Three, Suit::Hearts),
    ];
    assert!(eval.rank_7(royal) > eval.rank_7(sf));
}

#[test]
fn pair_beats_high_card() {
    let eval = NaiveEvaluator;
    let pair = [
        card(Rank::Ace, Suit::Spades), card(Rank::Ace, Suit::Hearts),
        card(Rank::Two, Suit::Clubs), card(Rank::Three, Suit::Diamonds),
        card(Rank::Four, Suit::Spades), card(Rank::Five, Suit::Hearts),
        card(Rank::Seven, Suit::Clubs),
    ];
    let high = [
        card(Rank::King, Suit::Spades), card(Rank::Queen, Suit::Hearts),
        card(Rank::Jack, Suit::Clubs), card(Rank::Nine, Suit::Diamonds),
        card(Rank::Eight, Suit::Spades), card(Rank::Six, Suit::Hearts),
        card(Rank::Four, Suit::Clubs),
    ];
    assert!(eval.rank_7(pair) > eval.rank_7(high));
}

#[test]
fn rs_poker_agrees_with_naive_category() {
    let naive = NaiveEvaluator;
    let rs = RsPokerEvaluator;
    for seed in 0..100u64 {
        let mut d = Deck::new(seed);
        let cards: [Card; 7] = std::array::from_fn(|_| d.deal());
        let n = naive.rank_7(cards);
        let r = rs.rank_7(cards);
        assert_eq!(
            n.category(),
            r.category(),
            "category mismatch on seed {seed} cards={cards:?}: naive={n:?} rs={r:?}"
        );
    }
}

#[test]
fn rs_poker_pairwise_ordering_matches_naive() {
    let naive = NaiveEvaluator;
    let rs = RsPokerEvaluator;
    for seed in 0..200u64 {
        let mut d = Deck::new(seed);
        let a: [Card; 7] = std::array::from_fn(|_| d.deal());
        let b: [Card; 7] = std::array::from_fn(|_| d.deal());
        let naive_ord = naive.rank_7(a).cmp(&naive.rank_7(b));
        let rs_ord = rs.rank_7(a).cmp(&rs.rank_7(b));
        assert_eq!(naive_ord, rs_ord, "ordering mismatch seed={seed}: a={a:?} b={b:?}");
    }
}

#[test]
fn wheel_straight_flush() {
    let eval = NaiveEvaluator;
    let wheel = [
        card(Rank::Ace, Suit::Hearts), card(Rank::Two, Suit::Hearts),
        card(Rank::Three, Suit::Hearts), card(Rank::Four, Suit::Hearts),
        card(Rank::Five, Suit::Hearts), card(Rank::King, Suit::Spades),
        card(Rank::Queen, Suit::Spades),
    ];
    let plain_flush = [
        card(Rank::Ace, Suit::Spades), card(Rank::King, Suit::Spades),
        card(Rank::Queen, Suit::Spades), card(Rank::Jack, Suit::Spades),
        card(Rank::Nine, Suit::Spades), card(Rank::Two, Suit::Hearts),
        card(Rank::Three, Suit::Hearts),
    ];
    assert!(eval.rank_7(wheel) > eval.rank_7(plain_flush));
}

fn five(text: &str) -> [Card; 5] {
    let cards: Vec<Card> = text
        .split(' ')
        .map(|t| (0u8..52).map(numbered).find(|c| c.to_text() == t).unwrap())
        .collect();
    [cards[0], cards[1], cards[2], cards[3], cards[4]]
}

#[test]
fn five_card_values_are_exact() {
    let value = |t: &str| NaiveEvaluator.rank_5(five(t)).0;
    assert_eq!(value("As Ks Qs Js Ts"), 0x8000_000c);
    assert_eq!(value("As 2s 3s 4s 5s"), 0x8000_0003);
    assert_eq!(value("9s 9h 9d 9c Kd"), 0x7000_007b);
    assert_eq!(value("9s 9h 9d Kc Kd"), 0x6000_007b);
    assert_eq!(value("As Js 9s 4s 2s"), 0x500c_9720);
    assert_eq!(value("As 2h 3s 4s 5s"), 0x4000_0003);
    assert_eq!(value("9s 9h 9d Kc 2d"), 0x3000_07b0);
    assert_eq!(value("9s 9h Ad Kc Kd"), 0x2000_0b7c);
    assert_eq!(value("9s 9h Ad Kc 2d"), 0x1000_7cb0);
    assert_eq!(value("As Kh 9s 4s 2s"), 0x000c_b720);
}

#[test]
fn the_order_of_the_cards_does_not_matter() {
    let a = NaiveEvaluator.rank_5(five("9s 9h Ad Kc 2d"));
    let b = NaiveEvaluator.rank_5(five("2d Ad 9h Kc 9s"));
    assert_eq!(a, b);
    let c = RsPokerEvaluator.rank_5(five("9s 9h Ad Kc 2d"));
    let d = RsPokerEvaluator.rank_5(five("2d Ad 9h Kc 9s"));
    assert_eq!(c, d);
}

#[test]
fn rs_poker_tells_categories_apart() {
    let category = |t: &str| RsPokerEvaluator.rank_5(five(t)).category();
    assert_eq!(category("As Ks Qs Js Ts"), HandCategory::StraightFlush);
    assert_eq!(category("9s 9h 9d 9c Kd"), HandCategory::FourOfAKind);
    assert_eq!(category("9s 9h 9d Kc Kd"), HandCategory::FullHouse);
    assert_eq!(category("As Js 9s 4s 2s"), HandCategory::Flush);
    assert_eq!(category("As 2h 3s 4s 5s"), HandCategory::Straight);
    assert_eq!(category("9s 9h 9d Kc 2d"), HandCategory::ThreeOfAKind);
    assert_eq!(category("9s 9h Ad Kc Kd"), HandCategory::TwoPair);
    assert_eq!(category("9s 9h Ad Kc 2d"), HandCategory::OnePair);
    assert_eq!(category("As Kh 9s 4s 2s"), HandCategory::HighCard);
}

#[test]
fn encoding_packs_category_above_tiebreaker() {
    assert_eq!(encode_rs_rank(RsRank::HighCard(5)), HandRank(5));
    assert_eq!(encode_rs_rank(RsRank::Flush(0x123)), HandRank(0x5000_0123));
    assert_eq!(encode_rs_rank(RsRank::StraightFlush(9)), HandRank(0x8000_0009));
    assert!(encode_rs_rank(RsRank::OnePair(0)) > encode_rs_rank(RsRank::HighCard(0x0fff_ffff)));
}

#[test]
fn both_evaluators_order_all_five_card_hands_alike() {
    // Up to a change of suits, a hand is five ranks that are suited or not.
    let mut by_naive: BTreeMap<u32, u32> = BTreeMap::new();
    let mut note = |hand: [Card; 5]| {
        let naive = NaiveEvaluator.rank_5(hand);
        let rs = RsPokerEvaluator.rank_5(hand);
        assert_eq!(naive.category(), rs.category(), "{hand:?}");
        let before = by_naive.insert(naive.0, rs.0);
        assert!(before.is_none() || before == Some(rs.0), "{hand:?}");
    };
    for a in 0u8..13 {
        for b in a..13 {
            for c in b..13 {
                for d in c..13 {
                    for e in d..13 {
                        let ranks = [a, b, c, d, e];
                        if a == e {
                            continue;
                        }
                        // Copies of one rank take the suits in turn; the first card of
                        // another rank breaks a flush.
                        let mixed = std::array::from_fn(|i| {
                            let copy = ranks[..i].iter().filter(|&&r| r == ranks[i]).count() as u8;
                            let shift = if a < b && b < c && c < d && d < e && i == 4 { 1 } else { 0 };
                            numbered(4 * ranks[i] + (copy + shift) % 4)
                        });
                        note(mixed);
                        if a < b && b < c && c < d && d < e {
                            note(ranks.map(|r| numbered(4 * r)));
                        }
                    }
                }
            }
        }
    }
    assert_eq!(by_naive.len(), 7462);
    let rs: Vec<u32> = by_naive.values().copied().collect();
    assert!(rs.windows(2).all(|w| w[0] < w[1]));
}

#[test]
fn seven_cards_are_worth_their_best_five() {
    for seed in 0..60u64 {
        let mut d = Deck::new(seed);
        for _ in 0..7 {
            let cards: [Card; 7] = std::array::from_fn(|_| d.deal());
            let mut best_naive = HandRank(0);
            let mut best_rs = HandRank(0);
            for i in 0..7 {
                for j in (i + 1)..7 {
                    let five: Vec<Card> =
                        (0..7).filter(|&k| k != i && k != j).map(|k| cards[k]).collect();
                    let five = [five[0], five[1], five[2], five[3], five[4]];
                    assert_eq!(rank_5_naive(five), NaiveEvaluator.rank_5(five));
                    best_naive = best_naive.max(NaiveEvaluator.rank_5(five));
                    best_rs = best_rs.max(RsPokerEvaluator.rank_5(five));
                }
            }
            assert_eq!(NaiveEvaluator.rank_7(cards), best_naive);
            assert_eq!(best_of_7(&cards), best_naive);
            let mut turned = cards;
            turned.rotate_left(seed as usize % 7);
            assert_eq!(best_of_7(&turned), best_naive);
            assert_eq!(RsPokerEvaluator.rank_7(cards), best_rs);
        }
    }
}

// Preflop classes

#[test]
fn known_hands_map_to_expected_indices() {
    let c = card;
    assert_eq!(PreflopClass::from_hole([c(Rank::Ace, Suit::Spades), c(Rank::Ace, Suit::Hearts)]).index(), 0);
    assert_eq!(PreflopClass::from_hole([c(Rank::King, Suit::Spades), c(Rank::King, Suit::Hearts)]).index(), 1);
    assert_eq!(PreflopClass::from_hole([c(Rank::Two, Suit::Clubs), c(Rank::Two, Suit::Diamonds)]).index(), 12);
    assert_eq!(PreflopClass::from_hole([c(Rank::Ace, Suit::Spades), c(Rank::King, Suit::Spades)]).index(), 13);
    assert_eq!(PreflopClass::from_hole([c(Rank::Ace, Suit::Spades), c(Rank::King, Suit::Hearts)]).index(), 91);
    assert_eq!(PreflopClass::from_hole([c(Rank::Three, Suit::Clubs), c(Rank::Two, Suit::Clubs)]).index(), 90);
    assert_eq!(PreflopClass::from_hole([c(Rank::Three, Suit::Clubs), c(Rank::Two, Suit::Diamonds)]).index(), 168);
}

#[test]
fn order_independent() {
    let a = card(Rank::Ace, Suit::Hearts);
    let k = card(Rank::King, Suit::Hearts);
    assert_eq!(PreflopClass::from_hole([a, k]), PreflopClass::from_hole([k, a]));
}

#[test]
fn every_hole_maps_into_one_of_169_classes() {
    let mut counts = [0u32; PreflopClass::COUNT as usize];
    for a in 0u8..52 {
        for b in (a + 1)..52 {
            let hole = [numbered(a), numbered(b)];
            let idx = PreflopClass::from_hole(hole).index();
            counts[idx as usize] += 1;
        }
    }
    assert_eq!(counts.iter().sum::<u32>(), 1326);
    for (i, &count) in counts.iter().enumerate() {
        let expected = if i < 13 {
            6
        } else if i < 91 {
            4
        } else {
            12
        };
        assert_eq!(count, expected, "class {i} has {count} combos, expected {expected}");
    }
}

#[test]
fn indices_are_dense_and_unique() {
    let mut seen = [false; PreflopClass::COUNT as usize];
    for r in 0u8..13 {
        let rank = numbered(r << 2).rank();
        let idx = PreflopClass::Pair(rank).index() as usize;
        assert!(!seen[idx], "duplicate index {idx} for pair {rank:?}");
        seen[idx] = true;
    }
    for h in 1u8..13 {
        for l in 0u8..h {
            let hi = numbered(h << 2).rank();
            let lo = numbered(l << 2).rank();
            for (variant, _) in [
                (PreflopClass::Suited(hi, lo), "s"),
                (PreflopClass::Offsuit(hi, lo), "o"),
            ] {
                let idx = variant.index() as usize;
                assert!(!seen[idx], "duplicate index {idx} for {variant:?}");
                seen[idx] = true;
            }
        }
    }
    assert!(seen.iter().all(|&b| b), "some indices were never produced");
}

#[test]
fn suits_do_not_change_the_class() {
    let a = PreflopClass::from_hole([card(Rank::Ace, Suit::Hearts), card(Rank::Four, Suit::Hearts)]);
    let b = PreflopClass::from_hole([card(Rank::Ace, Suit::Clubs), card(Rank::Four, Suit::Clubs)]);
    assert_eq!(a, b);
    assert_eq!(a, PreflopClass::Suited(Rank::Ace, Rank::Four));
}

#[test]
fn the_order_of_seven_cards_does_not_matter() {
    let mut cards = [51u8, 3, 17, 28, 44, 9, 30].map(numbered);
    let naive = NaiveEvaluator.rank_7(cards);
    let fast = RsPokerEvaluator.rank_7(cards);
    for k in 0..21 {
        cards.swap(k % 7, (3 * k + 1) % 7);
        assert_eq!(NaiveEvaluator.rank_7(cards), naive);
        assert_eq!(RsPokerEvaluator.rank_7(cards), fast);
    }
}
