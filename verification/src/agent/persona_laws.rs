//! How the personas differ, and what they have in common.

use vstd::prelude::*;

use super::builtin;
use super::builtin::{CallingStation, RandomAgent};
use super::personas;
use super::personas::{Lag, Maniac, Nit, Strength, Tag, TiltProne, ROLLS};
use super::{Agent, Sight};
use crate::abstraction::preflop;
use crate::cards::{Card, HandCategory, HandEvaluator, RsPokerEvaluator};
use crate::game::action::{Action, LegalActions};
use crate::game::model;
use crate::game::state::Street;

verus! {

/// How bold an action is: giving up, staying in, raising, putting everything in.
pub open spec fn boldness(a: Action) -> int {
    match a {
        Action::Fold => 0,
        Action::Check => 1,
        Action::Call => 1,
        Action::Raise(_) => 2,
        Action::AllIn => 3,
    }
}

/// How strong a bucket is.
pub open spec fn tier(s: Strength) -> int {
    match s {
        Strength::Trash => 0,
        Strength::Weak => 1,
        Strength::Medium => 2,
        Strength::Strong => 3,
        Strength::Premium => 4,
    }
}

/// A raise is made where one is open, and it is the smallest; else the player stays in.
pub open spec fn bets(a: Action, legal: LegalActions) -> bool {
    &&& legal.can_raise ==> a == Action::Raise(legal.min_raise)
    &&& !legal.can_raise ==> stays(a, legal)
}

/// The player stays in for as little as can be, and folds only where neither a check nor
/// a call is open.
pub open spec fn stays(a: Action, legal: LegalActions) -> bool {
    &&& legal.can_check ==> a == Action::Check
    &&& !legal.can_check && legal.can_call ==> a == Action::Call
    &&& !legal.can_check && !legal.can_call ==> a == Action::Fold
}

/// The player puts nothing more in.
pub open spec fn quits(a: Action, legal: LegalActions) -> bool {
    &&& legal.can_check ==> a == Action::Check
    &&& !legal.can_check ==> a == Action::Fold
}

/// Roll `r` is among the lowest `percent` of all rolls, by more than one roll.
pub open spec fn within(r: u32, percent: int) -> bool {
    100 * (r + 1) <= percent * ROLLS
}

/// Roll `r` is not among the lowest `percent` of all rolls, by more than one roll.
pub open spec fn beyond(r: u32, percent: int) -> bool {
    100 * (r - 1) >= percent * ROLLS
}

/// On the lowest `bet` percent of its rolls the player bets, on the next up to `stay`
/// percent it stays, and on the others it gives up.
pub open spec fn mixes(a: Action, legal: LegalActions, r: u32, bet: int, stay: int) -> bool {
    &&& within(r, bet) ==> bets(a, legal)
    &&& beyond(r, bet) && within(r, stay) ==> stays(a, legal)
    &&& beyond(r, bet) && beyond(r, stay) ==> quits(a, legal)
}

/// A nit enters with premium and strong hands alone, and goes on after the flop with two
/// pair or better alone. It raises nothing but premium hands: seven times in ten before
/// the flop, every other time after it.
pub proof fn nits_are_tight(street: Street, s: Strength, r: u32, legal: LegalActions)
    requires
        r < ROLLS,
    ensures
        ({
            let a = personas::nit_choice(street, s, r, legal);
            let early = street == Street::Preflop;
            &&& s == Strength::Premium && early ==> mixes(a, legal, r, 70, 100)
            &&& s == Strength::Premium && !early ==> mixes(a, legal, r, 50, 100)
            &&& s == Strength::Strong ==> stays(a, legal)
            &&& s == Strength::Medium && early ==> quits(a, legal)
            &&& s == Strength::Medium && !early ==> stays(a, legal)
            &&& tier(s) <= 1 ==> quits(a, legal)
        }),
{
}

/// A tight-aggressive player enters with premium and strong hands alone, raising all
/// premium and three in four strong ones. After the flop it raises every premium and
/// strong hand, six in ten medium ones, stays with a weak one and gives up the rest.
pub proof fn tags_raise_what_they_enter(street: Street, s: Strength, r: u32, legal: LegalActions)
    requires
        r < ROLLS,
    ensures
        ({
            let a = personas::tag_choice(street, s, r, legal);
            let early = street == Street::Preflop;
            &&& s == Strength::Premium ==> bets(a, legal)
            &&& s == Strength::Strong && early ==> mixes(a, legal, r, 75, 100)
            &&& s == Strength::Strong && !early ==> bets(a, legal)
            &&& tier(s) <= 2 && early ==> quits(a, legal)
            &&& s == Strength::Medium && !early ==> mixes(a, legal, r, 60, 100)
            &&& s == Strength::Weak && !early ==> stays(a, legal)
            &&& s == Strength::Trash ==> quits(a, legal)
        }),
{
}

/// A loose-aggressive player enters with anything medium or better and three in ten weak
/// hands, and stays aggressive after the flop: it raises every premium and strong hand,
/// most medium ones, and now and then the rest.
pub proof fn lags_are_loose(street: Street, s: Strength, r: u32, legal: LegalActions)
    requires
        r < ROLLS,
    ensures
        ({
            let a = personas::lag_choice(street, s, r, legal);
            let early = street == Street::Preflop;
            &&& tier(s) >= 3 ==> bets(a, legal)
            &&& s == Strength::Medium && early ==> mixes(a, legal, r, 70, 100)
            &&& s == Strength::Medium && !early ==> mixes(a, legal, r, 60, 100)
            &&& s == Strength::Weak && early ==> mixes(a, legal, r, 30, 30)
            &&& s == Strength::Weak && !early ==> mixes(a, legal, r, 35, 100)
            &&& s == Strength::Trash && early ==> quits(a, legal)
            &&& s == Strength::Trash && !early ==> mixes(a, legal, r, 15, 15)
        }),
{
}

/// A maniac puts everything in one time in twenty and raises on all other rolls up to 85
/// percent, whatever it holds; on the rest it stays. It gives up nothing but its worst
/// hands before the flop, four times in ten.
pub proof fn maniacs_raise_nearly_everything(worst: bool, r: u32, legal: LegalActions)
    requires
        r < ROLLS,
    ensures
        ({
            let a = personas::maniac_choice(worst, r, legal);
            &&& worst && within(r, 40) ==> quits(a, legal)
            &&& !worst && within(r, 5) ==> if legal.all_in_amount > 0 {
                a == Action::AllIn
            } else {
                stays(a, legal)
            }
            &&& !worst && beyond(r, 5) && within(r, 85) ==> bets(a, legal)
            &&& worst && beyond(r, 40) && within(r, 85) ==> bets(a, legal)
            &&& beyond(r, 85) ==> stays(a, legal)
        }),
{
}

/// A tilt-prone player plays premium and strong hands like a tight-aggressive one. On
/// tilt it raises far more of the others and gives up far fewer.
pub proof fn tilt_opens_up(
    tilted: bool,
    street: Street,
    s: Strength,
    r: u32,
    legal: LegalActions,
)
    requires
        r < ROLLS,
    ensures
        ({
            let a = personas::tilt_choice(tilted, street, s, r, legal);
            let early = street == Street::Preflop;
            &&& tier(s) >= 3 ==> bets(a, legal)
            &&& s == Strength::Medium && early && tilted ==> mixes(a, legal, r, 85, 100)
            &&& s == Strength::Medium && early && !tilted ==> mixes(a, legal, r, 30, 30)
            &&& s == Strength::Medium && !early && tilted ==> mixes(a, legal, r, 80, 100)
            &&& s == Strength::Medium && !early && !tilted ==> mixes(a, legal, r, 50, 100)
            &&& s == Strength::Weak && early && tilted ==> mixes(a, legal, r, 50, 50)
            &&& s == Strength::Weak && early && !tilted ==> quits(a, legal)
            &&& s == Strength::Weak && !early && tilted ==> mixes(a, legal, r, 40, 50)
            &&& s == Strength::Weak && !early && !tilted ==> (within(r, 50) ==> stays(a, legal))
                && (beyond(r, 50) ==> quits(a, legal))
            &&& s == Strength::Trash && (early || !tilted) ==> quits(a, legal)
            &&& s == Strength::Trash && !early && tilted ==> mixes(a, legal, r, 20, 20)
        }),
        boldness(personas::tilt_choice(false, street, s, r, legal)) <= boldness(
            personas::tilt_choice(true, street, s, r, legal),
        ),
{
}

/// On the same roll no persona plays a stronger hand more weakly than a weaker one.
pub proof fn strength_is_played(
    tilted: bool,
    street: Street,
    weaker: Strength,
    stronger: Strength,
    r: u32,
    legal: LegalActions,
)
    requires
        tier(weaker) <= tier(stronger),
    ensures
        boldness(personas::nit_choice(street, weaker, r, legal)) <= boldness(
            personas::nit_choice(street, stronger, r, legal),
        ),
        boldness(personas::tag_choice(street, weaker, r, legal)) <= boldness(
            personas::tag_choice(street, stronger, r, legal),
        ),
        boldness(personas::lag_choice(street, weaker, r, legal)) <= boldness(
            personas::lag_choice(street, stronger, r, legal),
        ),
        boldness(personas::tilt_choice(tilted, street, weaker, r, legal)) <= boldness(
            personas::tilt_choice(tilted, street, stronger, r, legal),
        ),
{
}

/// With the same hand and roll a nit is never bolder than a tight-aggressive player, and
/// that one never bolder than a loose-aggressive one.
pub proof fn styles_are_ordered(street: Street, s: Strength, r: u32, legal: LegalActions)
    ensures
        boldness(personas::nit_choice(street, s, r, legal)) <= boldness(
            personas::tag_choice(street, s, r, legal),
        ),
        boldness(personas::tag_choice(street, s, r, legal)) <= boldness(
            personas::lag_choice(street, s, r, legal),
        ),
{
}

/// How a made hand is valued: a full house or better is premium, a straight or better
/// strong, two pair or better medium, one pair weak, and no pair trash.
pub proof fn made_hands_are_valued(category: HandCategory)
    ensures
        ({
            let t = tier(personas::postflop_strength(category));
            &&& t >= 4 <==> category.value() >= HandCategory::FullHouse.value()
            &&& t >= 3 <==> category.value() >= HandCategory::Straight.value()
            &&& t >= 2 <==> category.value() >= HandCategory::TwoPair.value()
            &&& t >= 1 <==> category.value() >= HandCategory::OnePair.value()
        }),
{
}

/// How a starting hand is valued: the first classes of the list are premium, and no class
/// is valued higher than one that is listed before it.
pub proof fn starting_hands_are_valued(i: int, j: int)
    requires
        0 <= i <= j,
    ensures
        tier(personas::preflop_strength(j)) <= tier(personas::preflop_strength(i)),
        tier(personas::preflop_strength(i)) >= 4 <==> i < 11,
        tier(personas::preflop_strength(i)) >= 3 <==> i < 31,
        tier(personas::preflop_strength(i)) >= 2 <==> i < 71,
        tier(personas::preflop_strength(i)) >= 1 <==> i < 131,
{
}

/// Of six cards the best five count: leaving any one out gives no better category, and
/// leaving some one out gives just this one.
pub proof fn best_of_six<E: HandEvaluator>(eval: E, cards: Seq<Card>)
    requires
        cards.len() == 6,
    ensures
        forall|k: int|
            0 <= k < 6 ==> personas::category_of(eval, #[trigger] cards.remove(k)).value()
                <= personas::category_with_board(eval, cards).value(),
        exists|k: int|
            0 <= k < 6 && personas::category_of(eval, #[trigger] cards.remove(k))
                == personas::category_with_board(eval, cards),
{
    let at = best_so_far(eval, cards, 6);
    assert(personas::category_of(eval, cards.remove(at)) == personas::category_with_board(
        eval,
        cards,
    ));
}

proof fn best_so_far<E: HandEvaluator>(eval: E, cards: Seq<Card>, n: int) -> (at: int)
    requires
        cards.len() == 6,
        1 <= n <= 6,
    ensures
        0 <= at < n,
        personas::category_of(eval, cards.remove(at)).value() == personas::best_leaving_one_out(
            eval,
            cards,
            n,
        ),
        forall|k: int|
            0 <= k < n ==> personas::category_of(eval, #[trigger] cards.remove(k)).value()
                <= personas::best_leaving_one_out(eval, cards, n),
    decreases n,
{
    if n == 1 {
        assert(personas::best_leaving_one_out(eval, cards, 0) == 0);
        0
    } else {
        let before = best_so_far(eval, cards, n - 1);
        if personas::category_of(eval, cards.remove(n - 1)).value()
            > personas::best_leaving_one_out(eval, cards, n - 1) {
            n - 1
        } else {
            before
        }
    }
}

/// The heaviest loss of a hand is the outcome of one of its seats, and no other lost
/// more.
proof fn heaviest_loss(seats: Seq<model::SeatResult>) -> (at: int)
    requires
        seats.len() > 0,
    ensures
        0 <= at < seats.len(),
        personas::least_delta(seats) == seats[at].chip_delta,
        forall|k: int|
            0 <= k < seats.len() ==> personas::least_delta(seats) <= (
            #[trigger] seats[k]).chip_delta,
    decreases seats.len(),
{
    if seats.len() == 1 {
        0
    } else {
        let head = seats.drop_last();
        let at = heaviest_loss(head);
        assert forall|k: int| 0 <= k < seats.len() implies personas::least_delta(seats) <= (
        #[trigger] seats[k]).chip_delta by {
            if k < seats.len() - 1 {
                assert(head[k] == seats[k]);
            }
        }
        if seats.last().chip_delta < personas::least_delta(head) {
            seats.len() - 1
        } else {
            at
        }
    }
}

/// A mood follows the losses at the table: four times the new mood is three times the old
/// one and the outcome of the seat that lost most, up to the rounding, which is toward
/// zero. A hand without seats leaves it alone.
pub proof fn moods_follow_the_losses(mood: int, result: model::Outcome, k: int)
    requires
        0 <= k < result.seats.len() ==> forall|j: int|
            0 <= j < result.seats.len() ==> result.seats[k].chip_delta <= (
            #[trigger] result.seats[j]).chip_delta,
    ensures
        result.seats.len() == 0 ==> personas::mood_after(mood, result) == mood,
        0 <= k < result.seats.len() ==> {
            let exact = 3 * mood + result.seats[k].chip_delta;
            let new = 4 * personas::mood_after(mood, result);
            &&& exact >= 0 ==> exact - 4 < new <= exact
            &&& exact <= 0 ==> exact <= new < exact + 4
        },
{
    if 0 <= k < result.seats.len() {
        let at = heaviest_loss(result.seats);
        assert(result.seats[k].chip_delta <= result.seats[at].chip_delta);
        assert(personas::least_delta(result.seats) <= result.seats[k].chip_delta);
    }
}

// ---------------------------------------------------------------------------
// The agents
// ---------------------------------------------------------------------------

/// What a player's view is worth: before the flop the class of the two cards decides,
/// after it the best made hand of all cards seen.
pub proof fn views_are_valued<E: HandEvaluator>(eval: E, sight: Sight)
    ensures
        ({
            let t = tier(personas::strength_of(eval, sight));
            let class = preflop::class_of(sight.hole.0, sight.hole.1).number();
            let made = personas::category_with_board(
                eval,
                seq![sight.hole.0, sight.hole.1] + sight.board,
            ).value();
            &&& sight.street == Street::Preflop ==> {
                &&& t >= 4 <==> class < 11
                &&& t >= 3 <==> class < 31
                &&& t >= 2 <==> class < 71
                &&& t >= 1 <==> class < 131
            }
            &&& sight.street != Street::Preflop ==> {
                &&& t >= 4 <==> made >= HandCategory::FullHouse.value()
                &&& t >= 3 <==> made >= HandCategory::Straight.value()
                &&& t >= 2 <==> made >= HandCategory::TwoPair.value()
                &&& t >= 1 <==> made >= HandCategory::OnePair.value()
            }
        }),
{
}

/// A nit that is asked plays like a nit.
pub proof fn nits_play(agent: Nit, sight: Sight, a: Action, next: Nit)
    requires
        agent.answers(sight, a, &next),
    ensures
        ({
            let s = personas::strength_of(RsPokerEvaluator, sight);
            let r = personas::next_roll(agent.generator());
            let early = sight.street == Street::Preflop;
            &&& s == Strength::Premium ==> mixes(a, sight.legal, r, if early { 70 } else { 50 }, 100)
            &&& s == Strength::Strong ==> stays(a, sight.legal)
            &&& s == Strength::Medium && !early ==> stays(a, sight.legal)
            &&& s == Strength::Medium && early ==> quits(a, sight.legal)
            &&& tier(s) <= 1 ==> quits(a, sight.legal)
            &&& r < ROLLS
            &&& next.generator() == personas::after_roll(agent.generator())
        }),
{
    let r = personas::next_roll(agent.generator());
    nits_are_tight(sight.street, personas::strength_of(RsPokerEvaluator, sight), r, sight.legal);
}

/// A tight-aggressive player that is asked plays like one.
pub proof fn tags_play(agent: Tag, sight: Sight, a: Action, next: Tag)
    requires
        agent.answers(sight, a, &next),
    ensures
        ({
            let s = personas::strength_of(RsPokerEvaluator, sight);
            let r = personas::next_roll(agent.generator());
            let early = sight.street == Street::Preflop;
            &&& s == Strength::Premium ==> bets(a, sight.legal)
            &&& s == Strength::Strong && early ==> mixes(a, sight.legal, r, 75, 100)
            &&& s == Strength::Strong && !early ==> bets(a, sight.legal)
            &&& tier(s) <= 2 && early ==> quits(a, sight.legal)
            &&& s == Strength::Medium && !early ==> mixes(a, sight.legal, r, 60, 100)
            &&& s == Strength::Weak && !early ==> stays(a, sight.legal)
            &&& s == Strength::Trash ==> quits(a, sight.legal)
            &&& r < ROLLS
            &&& next.generator() == personas::after_roll(agent.generator())
        }),
{
    let r = personas::next_roll(agent.generator());
    let s = personas::strength_of(RsPokerEvaluator, sight);
    tags_raise_what_they_enter(sight.street, s, r, sight.legal);
}

/// A loose-aggressive player that is asked plays like one.
pub proof fn lags_play(agent: Lag, sight: Sight, a: Action, next: Lag)
    requires
        agent.answers(sight, a, &next),
    ensures
        ({
            let s = personas::strength_of(RsPokerEvaluator, sight);
            let r = personas::next_roll(agent.generator());
            let early = sight.street == Street::Preflop;
            &&& tier(s) >= 3 ==> bets(a, sight.legal)
            &&& s == Strength::Medium ==> mixes(a, sight.legal, r, if early { 70 } else { 60 }, 100)
            &&& s == Strength::Weak && early ==> mixes(a, sight.legal, r, 30, 30)
            &&& s == Strength::Weak && !early ==> mixes(a, sight.legal, r, 35, 100)
            &&& s == Strength::Trash && early ==> quits(a, sight.legal)
            &&& s == Strength::Trash && !early ==> mixes(a, sight.legal, r, 15, 15)
            &&& r < ROLLS
            &&& next.generator() == personas::after_roll(agent.generator())
        }),
{
    let r = personas::next_roll(agent.generator());
    lags_are_loose(sight.street, personas::strength_of(RsPokerEvaluator, sight), r, sight.legal);
}

/// A maniac that is asked plays like one. Its worst hands are the classes listed behind
/// the first 151.
pub proof fn maniacs_play(agent: Maniac, sight: Sight, a: Action, next: Maniac)
    requires
        agent.answers(sight, a, &next),
    ensures
        ({
            let r = personas::next_roll(agent.generator());
            let worst = sight.street == Street::Preflop && preflop::class_of(
                sight.hole.0,
                sight.hole.1,
            ).number() >= 151;
            &&& worst && within(r, 40) ==> quits(a, sight.legal)
            &&& !worst && within(r, 5) && sight.legal.all_in_amount > 0 ==> a == Action::AllIn
            &&& !worst && beyond(r, 5) && within(r, 85) ==> bets(a, sight.legal)
            &&& worst && beyond(r, 40) && within(r, 85) ==> bets(a, sight.legal)
            &&& beyond(r, 85) ==> stays(a, sight.legal)
            &&& r < ROLLS
            &&& next.generator() == personas::after_roll(agent.generator())
        }),
{
    let worst = sight.street == Street::Preflop && preflop::class_of(
        sight.hole.0,
        sight.hole.1,
    ).number() >= 151;
    maniacs_raise_nearly_everything(
        worst,
        personas::next_roll(agent.generator()),
        sight.legal,
    );
}

/// A tilt-prone player that is asked plays by its mood: it is on tilt from a recent loss of
/// 30 chips on, and answering changes no mood.
pub proof fn tilt_prone_players_play(agent: TiltProne, sight: Sight, a: Action, next: TiltProne)
    requires
        agent.answers(sight, a, &next),
    ensures
        ({
            let s = personas::strength_of(RsPokerEvaluator, sight);
            let r = personas::next_roll(agent.generator());
            let early = sight.street == Street::Preflop;
            let tilted = agent.mood() <= -30;
            &&& tier(s) >= 3 ==> bets(a, sight.legal)
            &&& s == Strength::Medium && early && tilted ==> mixes(a, sight.legal, r, 85, 100)
            &&& s == Strength::Medium && early && !tilted ==> mixes(a, sight.legal, r, 30, 30)
            &&& s == Strength::Medium && !early && tilted ==> mixes(a, sight.legal, r, 80, 100)
            &&& s == Strength::Medium && !early && !tilted ==> mixes(a, sight.legal, r, 50, 100)
            &&& s == Strength::Weak && early && tilted ==> mixes(a, sight.legal, r, 50, 50)
            &&& s == Strength::Weak && early && !tilted ==> quits(a, sight.legal)
            &&& s == Strength::Weak && !early && tilted ==> mixes(a, sight.legal, r, 40, 50)
            &&& s == Strength::Weak && !early && !tilted ==> (within(r, 50) ==> stays(
                a,
                sight.legal,
            )) && (beyond(r, 50) ==> quits(a, sight.legal))
            &&& s == Strength::Trash && (early || !tilted) ==> quits(a, sight.legal)
            &&& s == Strength::Trash && !early && tilted ==> mixes(a, sight.legal, r, 20, 20)
            &&& r < ROLLS
            &&& next.generator() == personas::after_roll(agent.generator())
            &&& next.mood() == agent.mood()
        }),
{
    tilt_opens_up(
        agent.mood() <= -30,
        sight.street,
        personas::strength_of(RsPokerEvaluator, sight),
        personas::next_roll(agent.generator()),
        sight.legal,
    );
}

/// A roll is the upper 24 bits of what is drawn.
pub proof fn rolls_are_upper_bits(rng: rand::rngs::SmallRng)
    ensures
        0x100 * personas::next_roll(rng) <= crate::random::small_rng_u32(rng).0 < 0x100 * (
        personas::next_roll(rng) + 1),
{
}

/// A random player has every kind of open action to choose from, each once and at its
/// smallest, and folds only where it cannot check.
pub proof fn random_players_have_every_choice(legal: LegalActions, a: Action)
    ensures
        builtin::random_choices(legal).contains(a) <==> match a {
            Action::Fold => !legal.can_check,
            Action::Check => legal.can_check,
            Action::Call => legal.can_call,
            Action::Raise(n) => legal.can_raise && n == legal.min_raise,
            Action::AllIn => legal.all_in_amount > 0,
        },
        builtin::random_choices(legal).no_duplicates(),
        builtin::random_choices(legal).len() > 0,
{
    let c = builtin::random_choices(legal);
    let calls = builtin::if_offered(legal.can_call, Action::Call);
    let raises = builtin::if_offered(legal.can_raise, Action::Raise(legal.min_raise));
    let all_in = builtin::if_offered(legal.all_in_amount > 0, Action::AllIn);
    let i1: int = 1 + calls.len() as int;
    let i2: int = i1 + raises.len();
    assert(c[0] == if legal.can_check { Action::Check } else { Action::Fold });
    if legal.can_call {
        assert(c[1] == Action::Call);
    }
    if legal.can_raise {
        assert(c[i1] == Action::Raise(legal.min_raise));
    }
    if legal.all_in_amount > 0 {
        assert(c[i2] == Action::AllIn);
    }
    assert(c.len() == i2 + all_in.len());
}

/// A random player answers with one of its choices.
pub proof fn random_players_choose(agent: RandomAgent, sight: Sight, a: Action, next: RandomAgent)
    requires
        agent.answers(sight, a, &next),
    ensures
        match a {
            Action::Fold => !sight.legal.can_check,
            Action::Check => sight.legal.can_check,
            Action::Call => sight.legal.can_call,
            Action::Raise(n) => sight.legal.can_raise && n == sight.legal.min_raise,
            Action::AllIn => sight.legal.all_in_amount > 0,
        },
{
    random_players_have_every_choice(sight.legal, a);
}

/// A calling station never folds and never raises: it checks where that is free, and
/// calls otherwise.
pub proof fn calling_stations_call(agent: CallingStation, sight: Sight, a: Action, next: CallingStation)
    requires
        agent.answers(sight, a, &next),
    ensures
        sight.legal.can_check ==> a == Action::Check,
        !sight.legal.can_check ==> a == Action::Call,
{
}

} // verus!
