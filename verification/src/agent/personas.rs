//! Bot personas for in-house dataset generation.
//!
//! Each persona is a hand-tuned action policy keyed on street, hand strength and
//! whether it faces a bet. They are deliberately simple: the goal is distinct
//! VPIP / PFR / AF profiles.
//!
//! Strength buckets are functions of the observation, so a persona's behaviour is
//! fully determined by its action seed.

use rand::rngs::SmallRng;
use vstd::prelude::*;

use super::{Agent, Observation, RunConfig, Sight};
use crate::abstraction::preflop;
use crate::abstraction::PreflopClass;
use crate::cards::evaluator;
use crate::cards::{Card, HandCategory, HandEvaluator, HandRank, RsPokerEvaluator};
use crate::game::action::{Action, LegalActions};
use crate::game::event::{EngineEvent, HandResult};
use crate::game::model;
use crate::game::state::{HandId, Street};
use crate::random;

verus! {

/// Coarse hand strength buckets. Same scale across streets: a `Premium` preflop
/// hand and a `Premium` postflop hand are both "act fast" tier for every persona.
#[derive(Clone, Copy, PartialEq, Eq, PartialOrd, Ord, Debug, Structural)]
pub enum Strength {
    Trash,
    Weak,
    Medium,
    Strong,
    Premium,
}

/// The bucket of the preflop class numbered `index`.
pub open spec fn preflop_strength(index: int) -> Strength {
    if index <= 10 {
        Strength::Premium
    } else if index <= 30 {
        Strength::Strong
    } else if index <= 70 {
        Strength::Medium
    } else if index <= 130 {
        Strength::Weak
    } else {
        Strength::Trash
    }
}

/// The bucket of a made hand.
pub open spec fn postflop_strength(category: HandCategory) -> Strength {
    match category {
        HandCategory::FullHouse | HandCategory::FourOfAKind | HandCategory::StraightFlush => {
            Strength::Premium
        },
        HandCategory::Flush | HandCategory::Straight => Strength::Strong,
        HandCategory::ThreeOfAKind | HandCategory::TwoPair => Strength::Medium,
        HandCategory::OnePair => Strength::Weak,
        HandCategory::HighCard => Strength::Trash,
    }
}

/// The category that `eval` gives to `cards`.
pub open spec fn category_of<E: HandEvaluator>(eval: E, cards: Seq<Card>) -> HandCategory {
    HandRank(eval.strength(cards)).spec_category()
}

/// The best category to be had from `cards` by leaving out one of the first `n`.
pub open spec fn best_leaving_one_out<E: HandEvaluator>(eval: E, cards: Seq<Card>, n: int) -> int
    decreases n,
{
    if n <= 0 {
        0
    } else {
        let with_last = category_of(eval, cards.remove(n - 1)).value();
        let before = best_leaving_one_out(eval, cards, n - 1);
        if with_last > before {
            with_last
        } else {
            before
        }
    }
}

/// The best category of a player's two cards with three, four or five board cards.
/// Any other board counts as a high card.
pub open spec fn category_with_board<E: HandEvaluator>(
    eval: E,
    cards: Seq<Card>,
) -> HandCategory {
    if cards.len() == 5 || cards.len() == 7 {
        category_of(eval, cards)
    } else if cards.len() == 6 {
        HandCategory::at(best_leaving_one_out(eval, cards, 6))
    } else {
        HandCategory::HighCard
    }
}

/// The bucket that a player's view falls into: by the class of the hole cards
/// before the flop, by the best made hand after it.
pub open spec fn strength_of<E: HandEvaluator>(eval: E, sight: Sight) -> Strength {
    if sight.street == Street::Preflop {
        preflop_strength(preflop::class_of(sight.hole.0, sight.hole.1).number())
    } else {
        postflop_strength(category_with_board(eval, sight.cards()))
    }
}

/// Map an observation to a strength bucket.
pub fn evaluate<E: HandEvaluator>(obs: &Observation<'_>, eval: &E) -> (s: Strength)
    requires
        obs@.fair(),
    ensures
        s == strength_of(*eval, obs@),
{
    if obs.street == Street::Preflop {
        let idx: u16 = PreflopClass::from_hole(obs.hole_cards).index();
        return if idx <= 10 {
            Strength::Premium
        } else if idx <= 30 {
            Strength::Strong
        } else if idx <= 70 {
            Strength::Medium
        } else if idx <= 130 {
            Strength::Weak
        } else {
            Strength::Trash
        };
    }
    assert(obs.hole_cards@ + obs.board@ =~= obs@.cards());
    match best_category(eval, obs.hole_cards, obs.board) {
        HandCategory::FullHouse | HandCategory::FourOfAKind | HandCategory::StraightFlush => {
            Strength::Premium
        },
        HandCategory::Flush | HandCategory::Straight => Strength::Strong,
        HandCategory::ThreeOfAKind | HandCategory::TwoPair => Strength::Medium,
        HandCategory::OnePair => Strength::Weak,
        HandCategory::HighCard => Strength::Trash,
    }
}

/// Every card has a number below 52.
fn note_numbers(cards: &[Card])
    ensures
        evaluator::all_cards(cards@),
{
    let mut i: usize = 0;
    while i < cards.len()
        invariant
            i <= cards@.len(),
            forall|k: int| 0 <= k < i ==> 0 <= (#[trigger] cards@[k]).id() < 52,
        decreases cards@.len() - i,
    {
        let _ = cards[i].index();
        i = i + 1;
    }
}

/// The category of five different cards.
fn category_of_five<E: HandEvaluator>(eval: &E, five: [Card; 5]) -> (c: HandCategory)
    requires
        five@.no_duplicates(),
    ensures
        c == category_of(*eval, five@),
{
    note_numbers(five.as_slice());
    proof {
        eval.accepts_different_cards(five@);
    }
    eval.rank_5(five).category()
}

/// Best 5-card category out of 5, 6, or 7 available cards.
pub fn best_category<E: HandEvaluator>(eval: &E, hole: [Card; 2], board: &[Card]) -> (c: HandCategory)
    requires
        (hole@ + board@).no_duplicates(),
    ensures
        c == category_with_board(*eval, hole@ + board@),
{
    let ghost cards = hole@ + board@;
    // Flop: exactly 5 cards, one combination.
    // Turn: 6 cards; enumerate the 6 ways to pick 5.
    // River: 7 cards; the evaluator picks the best internally.
    if board.len() == 3 {
        let five = [hole[0], hole[1], board[0], board[1], board[2]];
        assert(five@ =~= cards);
        category_of_five(eval, five)
    } else if board.len() == 4 {
        let all = [hole[0], hole[1], board[0], board[1], board[2], board[3]];
        assert(all@ =~= cards);
        let mut best = HandCategory::HighCard;
        let mut skip: usize = 0;
        while skip < 6
            invariant
                skip <= 6,
                all@ == cards,
                cards.no_duplicates(),
                best.value() == best_leaving_one_out(*eval, cards, skip as int),
            decreases 6 - skip,
        {
            let five = [
                all[if 0 < skip { 0 } else { 1 }],
                all[if 1 < skip { 1 } else { 2 }],
                all[if 2 < skip { 2 } else { 3 }],
                all[if 3 < skip { 3 } else { 4 }],
                all[if 4 < skip { 4 } else { 5 }],
            ];
            assert(five@ =~= cards.remove(skip as int));
            let cat = category_of_five(eval, five);
            if cat.to_u8() > best.to_u8() {
                best = cat;
            }
            skip = skip + 1;
        }
        best
    } else if board.len() == 5 {
        let seven = [hole[0], hole[1], board[0], board[1], board[2], board[3], board[4]];
        assert(seven@ =~= cards);
        note_numbers(seven.as_slice());
        proof {
            eval.accepts_different_cards(seven@);
        }
        eval.rank_7(seven).category()
    } else {
        HandCategory::HighCard
    }
}

/// Checks if that is free, else folds.
pub open spec fn give_up(legal: LegalActions) -> Action {
    if legal.can_check {
        Action::Check
    } else {
        Action::Fold
    }
}

/// Checks if that is free, else calls, and folds where neither is open.
pub open spec fn stay(legal: LegalActions) -> Action {
    if legal.can_check {
        Action::Check
    } else if legal.can_call {
        Action::Call
    } else {
        Action::Fold
    }
}

/// Makes the smallest raise, or stays where no raise is open.
pub open spec fn push(legal: LegalActions) -> Action {
    if legal.can_raise {
        Action::Raise(legal.min_raise)
    } else {
        stay(legal)
    }
}

/// Goes all-in, or stays without chips.
pub open spec fn shove(legal: LegalActions) -> Action {
    if legal.all_in_amount > 0 {
        Action::AllIn
    } else {
        stay(legal)
    }
}

fn fold_or_check(la: &LegalActions) -> (a: Action)
    ensures
        a == give_up(*la),
{
    if la.can_check {
        Action::Check
    } else {
        Action::Fold
    }
}

fn call_or_check(la: &LegalActions) -> (a: Action)
    ensures
        a == stay(*la),
{
    if la.can_check {
        Action::Check
    } else if la.can_call {
        Action::Call
    } else {
        Action::Fold
    }
}

fn raise_or_call(la: &LegalActions) -> (a: Action)
    ensures
        a == push(*la),
{
    if la.can_raise {
        Action::Raise(la.min_raise)
    } else {
        call_or_check(la)
    }
}

fn shove_or_call(la: &LegalActions) -> (a: Action)
    ensures
        a == shove(*la),
{
    if la.all_in_amount > 0 {
        Action::AllIn
    } else {
        call_or_check(la)
    }
}

/// A roll lies below this; each persona acts by where its roll falls.
pub const ROLLS: u32 = 0x100_0000;

// Chances in steps of one roll. A roll `k` stands for the single-precision number
// `k / ROLLS`, and each bound is the least roll not below its chance in single
// precision: `CHANCE_70` parts the rolls at 0.7.
pub const CHANCE_05: u32 = 838_861;

pub const CHANCE_15: u32 = 2_516_583;

pub const CHANCE_20: u32 = 3_355_444;

pub const CHANCE_30: u32 = 5_033_165;

pub const CHANCE_35: u32 = 5_872_026;

pub const CHANCE_40: u32 = 6_710_887;

pub const CHANCE_50: u32 = 8_388_608;

pub const CHANCE_60: u32 = 10_066_330;

pub const CHANCE_70: u32 = 11_744_051;

pub const CHANCE_75: u32 = 12_582_912;

pub const CHANCE_80: u32 = 13_421_773;

pub const CHANCE_85: u32 = 14_260_634;

/// The roll that the next draw gives: its upper 24 bits.
pub open spec fn next_roll(rng: SmallRng) -> u32 {
    random::small_rng_u32(rng).0 / 0x100
}

/// The generator after one roll.
pub open spec fn after_roll(rng: SmallRng) -> SmallRng {
    random::small_rng_u32(rng).1
}

fn roll(rng: &mut SmallRng) -> (r: u32)
    ensures
        r == next_roll(*old(rng)),
        r < ROLLS,
        *final(rng) == after_roll(*old(rng)),
{
    random::draw_u32(rng) / 0x100
}

/// A nit's choice on `street` with a hand of strength `s` and roll `r`.
pub open spec fn nit_choice(street: Street, s: Strength, r: u32, legal: LegalActions) -> Action {
    if street == Street::Preflop {
        match s {
            Strength::Premium => if r < CHANCE_70 {
                push(legal)
            } else {
                stay(legal)
            },
            Strength::Strong => stay(legal),
            _ => give_up(legal),
        }
    } else {
        match s {
            Strength::Premium => if r < CHANCE_50 {
                push(legal)
            } else {
                stay(legal)
            },
            Strength::Strong | Strength::Medium => stay(legal),
            _ => give_up(legal),
        }
    }
}

/// What a [`Nit`] does on `street` with a hand of strength `s` and roll `r`.
pub fn nit_action(street: Street, s: Strength, r: u32, la: &LegalActions) -> (a: Action)
    ensures
        a == nit_choice(street, s, r, *la),
{
    if street == Street::Preflop {
        match s {
            Strength::Premium => if r < CHANCE_70 {
                raise_or_call(la)
            } else {
                call_or_check(la)
            },
            Strength::Strong => call_or_check(la),
            _ => fold_or_check(la),
        }
    } else {
        match s {
            Strength::Premium => if r < CHANCE_50 {
                raise_or_call(la)
            } else {
                call_or_check(la)
            },
            Strength::Strong | Strength::Medium => call_or_check(la),
            _ => fold_or_check(la),
        }
    }
}

/// Very tight, mostly passive. Folds everything outside premium/strong; calls
/// premium, occasionally raises premium. Postflop: continues only with two pair or
/// better.
pub struct Nit {
    rng: SmallRng,
    eval: RsPokerEvaluator,
}

impl Nit {
    /// The generator that rolls next.
    pub closed spec fn generator(&self) -> SmallRng {
        self.rng
    }

    pub fn new(seed: u64) -> (agent: Nit)
        ensures
            agent.generator() == random::seeded(seed),
    {
        Nit { rng: random::seeded_rng(seed), eval: RsPokerEvaluator }
    }
}

impl Agent for Nit {
    open spec fn stalls(&self) -> nat {
        0
    }

    open spec fn answers(&self, sight: Sight, action: Action, next: &Self) -> bool {
        &&& action == nit_choice(
            sight.street,
            strength_of(RsPokerEvaluator, sight),
            next_roll(self.generator()),
            sight.legal,
        )
        &&& next.generator() == after_roll(self.generator())
    }

    open spec fn hears(&self, event: model::Event, next: &Self) -> bool {
        *next == *self
    }

    open spec fn enters_run(&self, config: RunConfig, next: &Self) -> bool {
        *next == *self
    }

    open spec fn leaves_run(&self, next: &Self) -> bool {
        *next == *self
    }

    open spec fn enters_hand(&self, hand_id: HandId, next: &Self) -> bool {
        *next == *self
    }

    open spec fn leaves_hand(&self, result: model::Outcome, next: &Self) -> bool {
        *next == *self
    }

    fn act(&mut self, obs: &Observation<'_>) -> (action: Action) {
        let s = evaluate(obs, &self.eval);
        let r: u32 = roll(&mut self.rng);
        nit_action(obs.street, s, r, &obs.legal_actions)
    }

    fn on_event(&mut self, event: &EngineEvent) {
    }

    fn on_run_start(&mut self, config: &RunConfig) {
    }

    fn on_run_end(&mut self) {
    }

    fn on_hand_start(&mut self, hand_id: HandId) {
    }

    fn on_hand_end(&mut self, result: &HandResult) {
    }
}

/// A tight-aggressive player's choice.
pub open spec fn tag_choice(street: Street, s: Strength, r: u32, legal: LegalActions) -> Action {
    if street == Street::Preflop {
        match s {
            Strength::Premium => push(legal),
            Strength::Strong => if r < CHANCE_75 {
                push(legal)
            } else {
                stay(legal)
            },
            _ => give_up(legal),
        }
    } else {
        match s {
            Strength::Premium | Strength::Strong => push(legal),
            Strength::Medium => if r < CHANCE_60 {
                push(legal)
            } else {
                stay(legal)
            },
            Strength::Weak => stay(legal),
            Strength::Trash => give_up(legal),
        }
    }
}

/// What a [`Tag`] does on `street` with a hand of strength `s` and roll `r`.
pub fn tag_action(street: Street, s: Strength, r: u32, la: &LegalActions) -> (a: Action)
    ensures
        a == tag_choice(street, s, r, *la),
{
    if street == Street::Preflop {
        match s {
            Strength::Premium => raise_or_call(la),
            Strength::Strong => if r < CHANCE_75 {
                raise_or_call(la)
            } else {
                call_or_check(la)
            },
            _ => fold_or_check(la),
        }
    } else {
        match s {
            Strength::Premium | Strength::Strong => raise_or_call(la),
            Strength::Medium => if r < CHANCE_60 {
                raise_or_call(la)
            } else {
                call_or_check(la)
            },
            Strength::Weak => call_or_check(la),
            Strength::Trash => fold_or_check(la),
        }
    }
}

/// Tight-aggressive: enters with premium/strong, raises most of the time when
/// entering, bets on postflop with anything medium or better.
pub struct Tag {
    rng: SmallRng,
    eval: RsPokerEvaluator,
}

impl Tag {
    /// The generator that rolls next.
    pub closed spec fn generator(&self) -> SmallRng {
        self.rng
    }

    pub fn new(seed: u64) -> (agent: Tag)
        ensures
            agent.generator() == random::seeded(seed),
    {
        Tag { rng: random::seeded_rng(seed), eval: RsPokerEvaluator }
    }
}

impl Agent for Tag {
    open spec fn stalls(&self) -> nat {
        0
    }

    open spec fn answers(&self, sight: Sight, action: Action, next: &Self) -> bool {
        &&& action == tag_choice(
            sight.street,
            strength_of(RsPokerEvaluator, sight),
            next_roll(self.generator()),
            sight.legal,
        )
        &&& next.generator() == after_roll(self.generator())
    }

    open spec fn hears(&self, event: model::Event, next: &Self) -> bool {
        *next == *self
    }

    open spec fn enters_run(&self, config: RunConfig, next: &Self) -> bool {
        *next == *self
    }

    open spec fn leaves_run(&self, next: &Self) -> bool {
        *next == *self
    }

    open spec fn enters_hand(&self, hand_id: HandId, next: &Self) -> bool {
        *next == *self
    }

    open spec fn leaves_hand(&self, result: model::Outcome, next: &Self) -> bool {
        *next == *self
    }

    fn act(&mut self, obs: &Observation<'_>) -> (action: Action) {
        let s = evaluate(obs, &self.eval);
        let r: u32 = roll(&mut self.rng);
        tag_action(obs.street, s, r, &obs.legal_actions)
    }

    fn on_event(&mut self, event: &EngineEvent) {
    }

    fn on_run_start(&mut self, config: &RunConfig) {
    }

    fn on_run_end(&mut self) {
    }

    fn on_hand_start(&mut self, hand_id: HandId) {
    }

    fn on_hand_end(&mut self, result: &HandResult) {
    }
}

/// A loose-aggressive player's choice.
pub open spec fn lag_choice(street: Street, s: Strength, r: u32, legal: LegalActions) -> Action {
    if street == Street::Preflop {
        match s {
            Strength::Premium | Strength::Strong => push(legal),
            Strength::Medium => if r < CHANCE_70 {
                push(legal)
            } else {
                stay(legal)
            },
            Strength::Weak => if r < CHANCE_30 {
                push(legal)
            } else {
                give_up(legal)
            },
            Strength::Trash => give_up(legal),
        }
    } else {
        match s {
            Strength::Premium | Strength::Strong => push(legal),
            Strength::Medium => if r < CHANCE_60 {
                push(legal)
            } else {
                stay(legal)
            },
            Strength::Weak => if r < CHANCE_35 {
                push(legal)
            } else {
                stay(legal)
            },
            Strength::Trash => if r < CHANCE_15 {
                push(legal)
            } else {
                give_up(legal)
            },
        }
    }
}

/// What a [`Lag`] does on `street` with a hand of strength `s` and roll `r`.
pub fn lag_action(street: Street, s: Strength, r: u32, la: &LegalActions) -> (a: Action)
    ensures
        a == lag_choice(street, s, r, *la),
{
    if street == Street::Preflop {
        match s {
            Strength::Premium | Strength::Strong => raise_or_call(la),
            Strength::Medium => if r < CHANCE_70 {
                raise_or_call(la)
            } else {
                call_or_check(la)
            },
            Strength::Weak => if r < CHANCE_30 {
                raise_or_call(la)
            } else {
                fold_or_check(la)
            },
            Strength::Trash => fold_or_check(la),
        }
    } else {
        match s {
            Strength::Premium | Strength::Strong => raise_or_call(la),
            Strength::Medium => if r < CHANCE_60 {
                raise_or_call(la)
            } else {
                call_or_check(la)
            },
            Strength::Weak => if r < CHANCE_35 {
                raise_or_call(la)
            } else {
                call_or_check(la)
            },
            Strength::Trash => if r < CHANCE_15 {
                raise_or_call(la)
            } else {
                fold_or_check(la)
            },
        }
    }
}

/// Loose-aggressive: enters with anything medium or better, raises most of the
/// time, stays aggressive postflop.
pub struct Lag {
    rng: SmallRng,
    eval: RsPokerEvaluator,
}

impl Lag {
    /// The generator that rolls next.
    pub closed spec fn generator(&self) -> SmallRng {
        self.rng
    }

    pub fn new(seed: u64) -> (agent: Lag)
        ensures
            agent.generator() == random::seeded(seed),
    {
        Lag { rng: random::seeded_rng(seed), eval: RsPokerEvaluator }
    }
}

impl Agent for Lag {
    open spec fn stalls(&self) -> nat {
        0
    }

    open spec fn answers(&self, sight: Sight, action: Action, next: &Self) -> bool {
        &&& action == lag_choice(
            sight.street,
            strength_of(RsPokerEvaluator, sight),
            next_roll(self.generator()),
            sight.legal,
        )
        &&& next.generator() == after_roll(self.generator())
    }

    open spec fn hears(&self, event: model::Event, next: &Self) -> bool {
        *next == *self
    }

    open spec fn enters_run(&self, config: RunConfig, next: &Self) -> bool {
        *next == *self
    }

    open spec fn leaves_run(&self, next: &Self) -> bool {
        *next == *self
    }

    open spec fn enters_hand(&self, hand_id: HandId, next: &Self) -> bool {
        *next == *self
    }

    open spec fn leaves_hand(&self, result: model::Outcome, next: &Self) -> bool {
        *next == *self
    }

    fn act(&mut self, obs: &Observation<'_>) -> (action: Action) {
        let s = evaluate(obs, &self.eval);
        let r: u32 = roll(&mut self.rng);
        lag_action(obs.street, s, r, &obs.legal_actions)
    }

    fn on_event(&mut self, event: &EngineEvent) {
    }

    fn on_run_start(&mut self, config: &RunConfig) {
    }

    fn on_run_end(&mut self) {
    }

    fn on_hand_start(&mut self, hand_id: HandId) {
    }

    fn on_hand_end(&mut self, result: &HandResult) {
    }
}

/// The preflop classes numbered above this one are the worst: a [`Maniac`] drops
/// some of them.
pub const WORST_FROM: u16 = 150;

/// A maniac's choice with roll `r`, `worst` if it holds one of the worst hands
/// before the flop.
pub open spec fn maniac_choice(worst: bool, r: u32, legal: LegalActions) -> Action {
    if worst && r < CHANCE_40 {
        give_up(legal)
    } else if r < CHANCE_05 {
        shove(legal)
    } else if r < CHANCE_85 {
        push(legal)
    } else {
        stay(legal)
    }
}

/// What a [`Maniac`] does with roll `r`, `worst` if it holds one of the worst hands
/// before the flop.
pub fn maniac_action(worst: bool, r: u32, la: &LegalActions) -> (a: Action)
    ensures
        a == maniac_choice(worst, r, *la),
{
    // Occasionally fold the absolute worst to avoid making this a pure all-in bot.
    if worst && r < CHANCE_40 {
        return fold_or_check(la);
    }
    if r < CHANCE_05 {
        shove_or_call(la)
    } else if r < CHANCE_85 {
        raise_or_call(la)
    } else {
        call_or_check(la)
    }
}

/// Raises or shoves nearly everything. High variance, easy to identify.
pub struct Maniac {
    rng: SmallRng,
}

impl Maniac {
    /// The generator that rolls next.
    pub closed spec fn generator(&self) -> SmallRng {
        self.rng
    }

    pub fn new(seed: u64) -> (agent: Maniac)
        ensures
            agent.generator() == random::seeded(seed),
    {
        Maniac { rng: random::seeded_rng(seed) }
    }
}

impl Agent for Maniac {
    open spec fn stalls(&self) -> nat {
        0
    }

    open spec fn answers(&self, sight: Sight, action: Action, next: &Self) -> bool {
        &&& action == maniac_choice(
            sight.street == Street::Preflop && preflop::class_of(
                sight.hole.0,
                sight.hole.1,
            ).number() > WORST_FROM,
            next_roll(self.generator()),
            sight.legal,
        )
        &&& next.generator() == after_roll(self.generator())
    }

    open spec fn hears(&self, event: model::Event, next: &Self) -> bool {
        *next == *self
    }

    open spec fn enters_run(&self, config: RunConfig, next: &Self) -> bool {
        *next == *self
    }

    open spec fn leaves_run(&self, next: &Self) -> bool {
        *next == *self
    }

    open spec fn enters_hand(&self, hand_id: HandId, next: &Self) -> bool {
        *next == *self
    }

    open spec fn leaves_hand(&self, result: model::Outcome, next: &Self) -> bool {
        *next == *self
    }

    fn act(&mut self, obs: &Observation<'_>) -> (action: Action) {
        let r: u32 = roll(&mut self.rng);
        let worst = obs.street == Street::Preflop && PreflopClass::from_hole(
            obs.hole_cards,
        ).index() > WORST_FROM;
        maniac_action(worst, r, &obs.legal_actions)
    }

    fn on_event(&mut self, event: &EngineEvent) {
    }

    fn on_run_start(&mut self, config: &RunConfig) {
    }

    fn on_run_end(&mut self) {
    }

    fn on_hand_start(&mut self, hand_id: HandId) {
    }

    fn on_hand_end(&mut self, result: &HandResult) {
    }
}

/// A tilt-prone player's choice on `street` with a hand of strength `s` and roll
/// `r`, `tilted` or not.
pub open spec fn tilt_choice(
    tilted: bool,
    street: Street,
    s: Strength,
    r: u32,
    legal: LegalActions,
) -> Action {
    if street == Street::Preflop {
        match s {
            Strength::Premium | Strength::Strong => push(legal),
            Strength::Medium => if r < if tilted {
                CHANCE_85
            } else {
                CHANCE_30
            } {
                push(legal)
            } else if tilted {
                stay(legal)
            } else {
                give_up(legal)
            },
            Strength::Weak => if tilted && r < CHANCE_50 {
                push(legal)
            } else {
                give_up(legal)
            },
            Strength::Trash => give_up(legal),
        }
    } else {
        match s {
            Strength::Premium | Strength::Strong => push(legal),
            Strength::Medium => if r < if tilted {
                CHANCE_80
            } else {
                CHANCE_50
            } {
                push(legal)
            } else {
                stay(legal)
            },
            Strength::Weak => if tilted && r < CHANCE_40 {
                push(legal)
            } else if r < CHANCE_50 {
                stay(legal)
            } else {
                give_up(legal)
            },
            Strength::Trash => if tilted && r < CHANCE_20 {
                push(legal)
            } else {
                give_up(legal)
            },
        }
    }
}

/// What a [`TiltProne`] does on `street` with a hand of strength `s` and roll `r`,
/// `tilted` or not.
pub fn tilt_action(
    tilted: bool,
    street: Street,
    s: Strength,
    r: u32,
    la: &LegalActions,
) -> (a: Action)
    ensures
        a == tilt_choice(tilted, street, s, r, *la),
{
    if street == Street::Preflop {
        return match s {
            Strength::Premium | Strength::Strong => raise_or_call(la),
            Strength::Medium => {
                let p: u32 = if tilted {
                    CHANCE_85
                } else {
                    CHANCE_30
                };
                if r < p {
                    raise_or_call(la)
                } else if tilted {
                    call_or_check(la)
                } else {
                    fold_or_check(la)
                }
            },
            Strength::Weak => {
                if tilted && r < CHANCE_50 {
                    raise_or_call(la)
                } else {
                    fold_or_check(la)
                }
            },
            Strength::Trash => fold_or_check(la),
        };
    }
    let aggression: u32 = if tilted {
        CHANCE_80
    } else {
        CHANCE_50
    };
    match s {
        Strength::Premium | Strength::Strong => raise_or_call(la),
        Strength::Medium => {
            if r < aggression {
                raise_or_call(la)
            } else {
                call_or_check(la)
            }
        },
        Strength::Weak => {
            if tilted && r < CHANCE_40 {
                raise_or_call(la)
            } else if r < CHANCE_50 {
                call_or_check(la)
            } else {
                fold_or_check(la)
            }
        },
        Strength::Trash => {
            if tilted && r < CHANCE_20 {
                raise_or_call(la)
            } else {
                fold_or_check(la)
            }
        },
    }
}

/// The heaviest loss, or smallest win, among `seats`.
pub open spec fn least_delta(seats: Seq<model::SeatResult>) -> int
    decreases seats.len(),
{
    if seats.len() <= 1 {
        seats[0].chip_delta
    } else {
        let rest = least_delta(seats.drop_last());
        if seats.last().chip_delta < rest {
            seats.last().chip_delta
        } else {
            rest
        }
    }
}

/// A quarter of `n`, rounded toward zero.
pub open spec fn quarter(n: int) -> int {
    if n >= 0 {
        n / 4
    } else {
        -((-n) / 4)
    }
}

/// The mood after a hand: three parts of the mood before it and one part of the
/// heaviest loss at the table. A hand without seats leaves the mood as it was.
pub open spec fn mood_after(mood: int, result: model::Outcome) -> int {
    if result.seats.len() == 0 {
        mood
    } else {
        quarter(mood * 3 + least_delta(result.seats))
    }
}

fn quarter_of(n: i64) -> (q: i64)
    requires
        n > i64::MIN,
    ensures
        q == quarter(n as int),
{
    if n >= 0 {
        n / 4
    } else {
        -((-n) / 4)
    }
}

/// Recent chip swings and how much of them is too much.
struct Mood {
    /// Cumulative chip delta over the recent window.
    recent_delta: i64,
    /// Threshold past which the bot switches into loose mode.
    tilt_threshold: i32,
}

impl Mood {
    #[verifier::type_invariant]
    spec fn in_range(self) -> bool {
        &&& -0x8000_0000 <= self.recent_delta <= 0x8000_0000
        &&& self.tilt_threshold == 30
    }

    fn tilted(&self) -> (b: bool)
        ensures
            b == (self.recent_delta <= -30),
    {
        proof {
            use_type_invariant(self);
        }
        self.recent_delta <= -(self.tilt_threshold as i64)
    }

    fn after(&self, least: i32) -> (mood: Mood)
        ensures
            mood.recent_delta == quarter(self.recent_delta * 3 + least),
    {
        proof {
            use_type_invariant(self);
        }
        Mood {
            recent_delta: quarter_of(self.recent_delta * 3 + least as i64),
            tilt_threshold: self.tilt_threshold,
        }
    }
}

/// Switches between TAG and LAG modes based on recent chip swings.
/// After a meaningful loss, opens up (LAG mode): "running cold = play wider".
/// After a win, contracts back to TAG.
pub struct TiltProne {
    rng: SmallRng,
    eval: RsPokerEvaluator,
    mood: Mood,
}

impl TiltProne {
    /// The generator that rolls next.
    pub closed spec fn generator(&self) -> SmallRng {
        self.rng
    }

    /// The cumulative chip delta over the recent window.
    pub closed spec fn mood(&self) -> int {
        self.mood.recent_delta as int
    }

    /// A recent loss of 30 chips or more sets the player on tilt.
    pub open spec fn on_tilt(&self) -> bool {
        self.mood() <= -30
    }

    pub fn new(seed: u64) -> (agent: TiltProne)
        ensures
            agent.generator() == random::seeded(seed),
            agent.mood() == 0,
    {
        TiltProne {
            rng: random::seeded_rng(seed),
            eval: RsPokerEvaluator,
            mood: Mood { recent_delta: 0, tilt_threshold: 30 },
        }
    }
}

impl Agent for TiltProne {
    open spec fn stalls(&self) -> nat {
        0
    }

    open spec fn answers(&self, sight: Sight, action: Action, next: &Self) -> bool {
        &&& action == tilt_choice(
            self.on_tilt(),
            sight.street,
            strength_of(RsPokerEvaluator, sight),
            next_roll(self.generator()),
            sight.legal,
        )
        &&& next.generator() == after_roll(self.generator())
        &&& next.mood() == self.mood()
    }

    open spec fn hears(&self, event: model::Event, next: &Self) -> bool {
        *next == *self
    }

    open spec fn enters_run(&self, config: RunConfig, next: &Self) -> bool {
        *next == *self
    }

    open spec fn leaves_run(&self, next: &Self) -> bool {
        *next == *self
    }

    open spec fn enters_hand(&self, hand_id: HandId, next: &Self) -> bool {
        *next == *self
    }

    open spec fn leaves_hand(&self, result: model::Outcome, next: &Self) -> bool {
        &&& next.generator() == self.generator()
        &&& next.mood() == mood_after(self.mood(), result)
    }

    fn act(&mut self, obs: &Observation<'_>) -> (action: Action) {
        let s = evaluate(obs, &self.eval);
        let tilted = self.mood.tilted();
        let r: u32 = roll(&mut self.rng);
        tilt_action(tilted, obs.street, s, r, &obs.legal_actions)
    }

    fn on_event(&mut self, event: &EngineEvent) {
    }

    fn on_run_start(&mut self, config: &RunConfig) {
    }

    fn on_run_end(&mut self) {
    }

    fn on_hand_start(&mut self, hand_id: HandId) {
    }

    /// The agent is not told which seat is its own, so the heaviest loss at the
    /// table stands for the stress it feels.
    fn on_hand_end(&mut self, result: &HandResult) {
        if result.seats.len() > 0 {
            let mut least: i32 = result.seats[0].chip_delta;
            let mut i: usize = 1;
            assert(result@.seats.take(1).len() == 1);
            while i < result.seats.len()
                invariant
                    1 <= i <= result.seats@.len(),
                    least == least_delta(result@.seats.take(i as int)),
                decreases result.seats@.len() - i,
            {
                proof {
                    let upto = result@.seats.take(i + 1);
                    assert(upto.drop_last() =~= result@.seats.take(i as int));
                    assert(upto.last().chip_delta == result.seats@[i as int].chip_delta);
                }
                if result.seats[i].chip_delta < least {
                    least = result.seats[i].chip_delta;
                }
                i = i + 1;
            }
            assert(result@.seats.take(i as int) =~= result@.seats);
            self.mood = self.mood.after(least);
        }
    }
}

/// Whatever the hand and the roll, no persona answers with an action that is not
/// open to it.
pub proof fn personas_play_legally(
    tilted: bool,
    street: Street,
    s: Strength,
    r: u32,
    legal: LegalActions,
)
    requires
        legal.can_raise ==> legal.min_raise <= legal.max_raise,
    ensures
        legal.allows(nit_choice(street, s, r, legal)),
        legal.allows(tag_choice(street, s, r, legal)),
        legal.allows(lag_choice(street, s, r, legal)),
        legal.allows(maniac_choice(tilted, r, legal)),
        legal.allows(tilt_choice(tilted, street, s, r, legal)),
{
}

} // verus!
