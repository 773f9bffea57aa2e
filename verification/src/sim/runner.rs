use rand::rngs::SmallRng;
use vstd::prelude::*;

use super::config::{SeedMode, SimConfig, StackPolicy};
use super::laws as sim_laws;
use super::result::SimResult;
use crate::agent;
use crate::agent::{Agent, RunConfig};
use crate::cards::HandEvaluator;
use crate::game::action::Action;
use crate::game::engine;
use crate::game::engine::Engine;
use crate::game::event::{EventSink, HandResult};
use crate::game::hand;
use crate::game::hand::{Setup, CHIP_LIMIT};
use crate::game::laws;
use crate::game::model;
use crate::game::progress;
use crate::game::rules::BettingRules;
use crate::game::run;
use crate::game::state::SeatIndex;
use crate::random;

verus! {

// ---------------------------------------------------------------------------
// Bookkeeping between hands
// ---------------------------------------------------------------------------

/// The seats of a result lie at the table, in ascending order.
pub open spec fn seats_in_order(outcomes: Seq<model::SeatResult>, n: int) -> bool {
    &&& forall|k: int| 0 <= k < outcomes.len() ==> 0 <= (#[trigger] outcomes[k]).seat < n
    &&& forall|j: int, k: int|
        0 <= j < k < outcomes.len() ==> (#[trigger] outcomes[j]).seat < (
        #[trigger] outcomes[k]).seat
}

/// The running totals after the first `n` outcomes.
pub open spec fn deltas_after(
    deltas: Seq<int>,
    outcomes: Seq<model::SeatResult>,
    n: int,
) -> Seq<int>
    decreases n,
{
    if n <= 0 {
        deltas
    } else {
        let before = deltas_after(deltas, outcomes, n - 1);
        let o = outcomes[n - 1];
        before.update(o.seat, before[o.seat] + o.chip_delta)
    }
}

/// The stacks after the first `n` outcomes. No stack falls below zero.
pub open spec fn stacks_after(
    stacks: Seq<u32>,
    outcomes: Seq<model::SeatResult>,
    n: int,
) -> Seq<u32>
    decreases n,
{
    if n <= 0 {
        stacks
    } else {
        let before = stacks_after(stacks, outcomes, n - 1);
        let o = outcomes[n - 1];
        let new = before[o.seat] + o.chip_delta;
        before.update(
            o.seat,
            if new < 0 {
                0
            } else {
                new as u32
            },
        )
    }
}

/// Where the seats are in order, each outcome moves the total of its own seat and no
/// other.
pub proof fn deltas_move_once(deltas: Seq<int>, outcomes: Seq<model::SeatResult>, n: int)
    requires
        seats_in_order(outcomes, deltas.len() as int),
        0 <= n <= outcomes.len(),
    ensures
        deltas_after(deltas, outcomes, n).len() == deltas.len(),
        forall|i: int|
            0 <= i < deltas.len() && (n == 0 || i > outcomes[n - 1].seat) ==> #[trigger] deltas_after(
                deltas,
                outcomes,
                n,
            )[i] == deltas[i],
        forall|i: int|
            0 <= i < deltas.len() ==> (#[trigger] deltas_after(deltas, outcomes, n)[i] == deltas[i]
                || exists|k: int|
                0 <= k < n && (#[trigger] outcomes[k]).seat == i && deltas_after(
                    deltas,
                    outcomes,
                    n,
                )[i] == deltas[i] + outcomes[k].chip_delta),
    decreases n,
{
    if n > 0 {
        deltas_move_once(deltas, outcomes, n - 1);
        let before = deltas_after(deltas, outcomes, n - 1);
        let after = deltas_after(deltas, outcomes, n);
        let o = outcomes[n - 1];
        assert(n > 1 ==> outcomes[n - 2].seat < outcomes[n - 1].seat);
        assert forall|i: int| 0 <= i < deltas.len() implies (#[trigger] after[i] == deltas[i]
            || exists|k: int|
            0 <= k < n && (#[trigger] outcomes[k]).seat == i && after[i] == deltas[i]
                + outcomes[k].chip_delta) by {
            if i == o.seat {
                assert(before[i] == deltas[i]);
                assert(outcomes[n - 1].seat == i);
            } else if before[i] != deltas[i] {
                let k = choose|k: int|
                    0 <= k < n - 1 && (#[trigger] outcomes[k]).seat == i && before[i] == deltas[i]
                        + outcomes[k].chip_delta;
                assert(outcomes[k].seat == i);
            }
        }
    }
}

/// Where the seats are in order, a stack moves by the outcome of its own seat and no
/// other.
pub proof fn stacks_move_once(stacks: Seq<u32>, outcomes: Seq<model::SeatResult>, n: int)
    requires
        seats_in_order(outcomes, stacks.len() as int),
        0 <= n <= outcomes.len(),
        forall|k: int|
            0 <= k < outcomes.len() ==> 0 <= stacks[(#[trigger] outcomes[k]).seat]
                + outcomes[k].chip_delta <= u32::MAX,
    ensures
        stacks_after(stacks, outcomes, n).len() == stacks.len(),
        forall|i: int|
            0 <= i < stacks.len() && (n == 0 || i > outcomes[n - 1].seat) ==> #[trigger] stacks_after(
                stacks,
                outcomes,
                n,
            )[i] == stacks[i],
        forall|k: int|
            0 <= k < n ==> stacks_after(stacks, outcomes, n)[(#[trigger] outcomes[k]).seat]
                == stacks[outcomes[k].seat] + outcomes[k].chip_delta,
        forall|i: int|
            0 <= i < stacks.len() && (forall|k: int|
                0 <= k < n ==> (#[trigger] outcomes[k]).seat != i) ==> #[trigger] stacks_after(
                stacks,
                outcomes,
                n,
            )[i] == stacks[i],
    decreases n,
{
    if n > 0 {
        stacks_move_once(stacks, outcomes, n - 1);
        let before = stacks_after(stacks, outcomes, n - 1);
        let after = stacks_after(stacks, outcomes, n);
        assert(n > 1 ==> outcomes[n - 2].seat < outcomes[n - 1].seat);
        assert(before[outcomes[n - 1].seat] == stacks[outcomes[n - 1].seat]);
        assert forall|k: int| 0 <= k < n implies after[(#[trigger] outcomes[k]).seat]
            == stacks[outcomes[k].seat] + outcomes[k].chip_delta by {
            if k < n - 1 {
                assert(outcomes[k].seat < outcomes[n - 1].seat);
            }
        }
        assert forall|i: int|
            0 <= i < stacks.len() && (forall|k: int|
                0 <= k < n ==> (#[trigger] outcomes[k]).seat != i) implies #[trigger] after[i]
            == stacks[i] by {
            assert(outcomes[n - 1].seat != i);
        }
    }
}

/// Adds the result's gains and losses to the running totals.
fn apply_result_to_deltas(result: &HandResult, deltas: &mut Vec<i64>)
    requires
        seats_in_order(result@.seats, old(deltas)@.len() as int),
        forall|i: int|
            0 <= i < old(deltas)@.len() ==> i64::MIN + 0x8000_0000 <= #[trigger] old(deltas)@[i]
                <= i64::MAX - 0x8000_0000,
    ensures
        engine::deltas_view(final(deltas)@) == deltas_after(
            engine::deltas_view(old(deltas)@),
            result@.seats,
            result@.seats.len() as int,
        ),
{
    let ghost first = engine::deltas_view(deltas@);
    let mut k: usize = 0;
    while k < result.seats.len()
        invariant
            k <= result.seats@.len(),
            seats_in_order(result@.seats, deltas@.len() as int),
            first.len() == deltas@.len(),
            forall|i: int|
                0 <= i < first.len() ==> i64::MIN + 0x8000_0000 <= #[trigger] first[i] <= i64::MAX
                    - 0x8000_0000,
            engine::deltas_view(deltas@) == deltas_after(first, result@.seats, k as int),
        decreases result.seats@.len() - k,
    {
        let outcome = result.seats[k];
        assert(result@.seats[k as int] == outcome@);
        proof {
            deltas_move_once(first, result@.seats, k as int);
            assert(k > 0 ==> result@.seats[k - 1].seat < result@.seats[k as int].seat);
            assert(engine::deltas_view(deltas@)[outcome.seat as int] == first[outcome.seat as int]);
        }
        let sum: i64 = deltas[outcome.seat] + outcome.chip_delta as i64;
        deltas.set(outcome.seat, sum);
        k = k + 1;
        assert(engine::deltas_view(deltas@) =~= deltas_after(first, result@.seats, k as int));
    }
}

/// Adds the result's gains and losses to the stacks.
fn apply_result_to_stacks(result: &HandResult, stacks: &mut Vec<u32>)
    requires
        seats_in_order(result@.seats, old(stacks)@.len() as int),
        forall|k: int|
            0 <= k < result@.seats.len() ==> 0 <= old(stacks)@[(#[trigger] result@.seats[k]).seat]
                + result@.seats[k].chip_delta <= u32::MAX,
    ensures
        final(stacks)@ == stacks_after(
            old(stacks)@,
            result@.seats,
            result@.seats.len() as int,
        ),
{
    let ghost first = stacks@;
    let mut k: usize = 0;
    while k < result.seats.len()
        invariant
            k <= result.seats@.len(),
            first.len() == stacks@.len(),
            seats_in_order(result@.seats, first.len() as int),
            forall|j: int|
                0 <= j < result@.seats.len() ==> 0 <= first[(#[trigger] result@.seats[j]).seat]
                    + result@.seats[j].chip_delta <= u32::MAX,
            stacks@ == stacks_after(first, result@.seats, k as int),
        decreases result.seats@.len() - k,
    {
        let outcome = result.seats[k];
        assert(result@.seats[k as int] == outcome@);
        proof {
            stacks_move_once(first, result@.seats, k as int);
            assert(k > 0 ==> result@.seats[k - 1].seat < result@.seats[k as int].seat);
            assert(stacks@[outcome.seat as int] == first[outcome.seat as int]);
        }
        let new: i64 = stacks[outcome.seat] as i64 + outcome.chip_delta as i64;
        let kept: u32 = if new < 0 {
            0
        } else {
            new as u32
        };
        stacks.set(outcome.seat, kept);
        k = k + 1;
    }
}

/// The first seat with chips among the seats `i` or more steps after `current`,
/// once around the table; `current` if nobody has chips.
pub open spec fn dealer_after(current: int, stacks: Seq<u32>, i: int) -> int
    decreases stacks.len() + 1 - i,
{
    if i > stacks.len() {
        current
    } else if stacks[(current + i) % (stacks.len() as int)] > 0 {
        (current + i) % (stacks.len() as int)
    } else {
        dealer_after(current, stacks, i + 1)
    }
}

/// The seat `k` places after `current` has chips, and the seats between them are empty.
pub open spec fn chips_after(current: int, stacks: Seq<u32>, k: int) -> bool {
    &&& 1 <= k <= stacks.len()
    &&& stacks[(current + k) % (stacks.len() as int)] > 0
    &&& forall|j: int|
        1 <= j < k ==> #[trigger] stacks[(current + j) % (stacks.len() as int)] == 0
}

/// Advance dealer to the next seat that has chips.
pub fn next_dealer(current: SeatIndex, stacks: &[u32]) -> (seat: SeatIndex)
    requires
        current + stacks@.len() <= usize::MAX,
    ensures
        seat == dealer_after(current as int, stacks@, 1),
        current < stacks@.len() ==> seat < stacks@.len(),
        forall|k: int| #[trigger]
            chips_after(current as int, stacks@, k) ==> seat == (current + k) % (
            stacks@.len() as int),
        (forall|i: int| 0 <= i < stacks@.len() ==> stacks@[i] == 0) ==> seat == current,
{
    let n: usize = stacks.len();
    proof {
        sim_laws::button_moves_on(current as int, stacks@);
    }
    let mut i: usize = 1;
    while i <= n
        invariant
            1 <= i <= n + 1,
            n == stacks@.len(),
            current + n <= usize::MAX,
            dealer_after(current as int, stacks@, 1) == dealer_after(current as int, stacks@, i as int),
        decreases n + 1 - i,
    {
        let seat: usize = (current + i) % n;
        proof {
            sim_laws::button_moves_on(current as int, stacks@);
        }
        if stacks[seat] > 0 {
            return seat;
        }
        if i == n {
            assert(dealer_after(current as int, stacks@, n + 1) == current);
            return current;
        }
        i = i + 1;
    }
    current
}

// ---------------------------------------------------------------------------
// One hand of a run
// ---------------------------------------------------------------------------

/// What a runner holds between hands.
#[verifier::ext_equal]
pub struct Desk<A> {
    pub agents: Seq<A>,
    /// Current stacks.
    pub stacks: Seq<u32>,
    pub starting_stacks: Seq<u32>,
    pub dealer: usize,
    pub next_hand_id: u64,
    pub rng: SmallRng,
}

/// A run between two hands: the desk, the sink and the totals so far.
#[verifier::ext_equal]
pub struct Session<A, S> {
    pub desk: Desk<A>,
    pub sink: S,
    pub deltas: Seq<int>,
}

/// The stacks that the next hand is played with.
pub open spec fn hand_stacks<A>(config: SimConfig, desk: Desk<A>) -> Seq<u32> {
    match config.stack_policy {
        StackPolicy::Reset => desk.starting_stacks,
        StackPolicy::Persistent => desk.stacks,
    }
}

/// The deck seed of hand number `hand_idx` of a run.
pub open spec fn hand_seed<A>(config: SimConfig, desk: Desk<A>, hand_idx: int) -> u64 {
    match config.seed {
        SeedMode::Random => random::small_rng_u64(desk.rng).0,
        SeedMode::Sequential(base) => (base + hand_idx) as u64,
    }
}

/// What hand number `hand_idx` of a run starts from.
pub open spec fn hand_setup<A>(
    rules: BettingRules,
    config: SimConfig,
    desk: Desk<A>,
    hand_idx: int,
) -> Setup {
    Setup {
        rules,
        hand_id: desk.next_hand_id,
        deck_seed: hand_seed(config, desk, hand_idx),
        stacks: hand_stacks(config, desk),
        dealer: desk.dealer,
        kinds: None,
    }
}

/// Hand number `hand_idx` of a run, with answers `answers` and outcome `result`,
/// leads from `before` to `after`: gains and losses go to the totals, and to the
/// stacks where they carry over; the button moves to the next seat with chips.
pub open spec fn hand_followed<E: HandEvaluator, A: Agent, S: EventSink>(
    rules: BettingRules,
    e: E,
    config: SimConfig,
    hand_idx: int,
    answers: Seq<Action>,
    result: model::Outcome,
    before: Session<A, S>,
    after: Session<A, S>,
) -> bool {
    let n = result.seats.len() as int;
    &&& run::hand_ran(
        hand_setup(rules, config, before.desk, hand_idx),
        e,
        answers,
        (before.desk.agents, before.sink),
        result,
        (after.desk.agents, after.sink),
    )
    &&& after.deltas == deltas_after(before.deltas, result.seats, n)
    &&& after.desk == Desk {
        agents: after.desk.agents,
        stacks: match config.stack_policy {
            StackPolicy::Reset => before.desk.stacks,
            StackPolicy::Persistent => stacks_after(before.desk.stacks, result.seats, n),
        },
        starting_stacks: before.desk.starting_stacks,
        dealer: dealer_after(before.desk.dealer as int, after.desk.stacks, 1) as usize,
        next_hand_id: (before.desk.next_hand_id + 1) as u64,
        rng: match config.seed {
            SeedMode::Random => random::small_rng_u64(before.desk.rng).1,
            SeedMode::Sequential(_) => before.desk.rng,
        },
    }
}

/// `n` hands, one after the other, can lead from `before` to `after`.
pub open spec fn hands_followed<E: HandEvaluator, A: Agent, S: EventSink>(
    rules: BettingRules,
    e: E,
    config: SimConfig,
    before: Session<A, S>,
    n: nat,
    after: Session<A, S>,
) -> bool
    decreases n,
{
    if n == 0 {
        before == after
    } else {
        exists|mid: Session<A, S>, answers: Seq<Action>, result: model::Outcome|
            hands_followed(rules, e, config, before, (n - 1) as nat, mid)
                && #[trigger] hand_followed(
                rules,
                e,
                config,
                n - 1,
                answers,
                result,
                mid,
                after,
            )
    }
}

/// All chips of `stacks`.
pub open spec fn chips(stacks: Seq<u32>) -> int {
    model::total(Seq::new(stacks.len(), |i: int| stacks[i] as int))
}

/// A table that can play on: one agent and one stack for each seat, a dealer among
/// them, chips that the counting can hold, and cards for everybody with chips.
pub open spec fn seated<A>(rules: BettingRules, config: SimConfig, desk: Desk<A>) -> bool {
    let n = desk.stacks.len();
    &&& 1 <= n && 2 * n <= usize::MAX
    &&& desk.agents.len() == n && desk.starting_stacks.len() == n
    &&& desk.dealer < n
    &&& 1 <= rules.big_blind <= CHIP_LIMIT
    &&& chips(hand_stacks(config, desk)) <= CHIP_LIMIT
    &&& 2 * model::count(hand::funded(hand_stacks(config, desk))) + 5 <= 52
}

/// The numbers of a run of `hands` hands can be counted: hand ids, seeds and totals.
pub open spec fn countable<A>(config: SimConfig, desk: Desk<A>, hands: int) -> bool {
    &&& desk.next_hand_id + hands <= u64::MAX
    &&& config.seed matches SeedMode::Sequential(base) ==> base + hands <= u64::MAX + 1
    &&& hands * CHIP_LIMIT <= i64::MAX - 0x1_0000_0000
}

/// A finished hand's outcome keeps its seats in order and its amounts in range, and
/// the stacks that follow from it are those at the table.
pub proof fn outcome_fits<E: HandEvaluator>(s: Setup, e: E, answers: Seq<Action>)
    requires
        laws::finished(s, e, answers),
    ensures
        ({
            let node = hand::played(s, e, answers).node;
            let o = hand::outcome(s.hand_id, node.table, node.phase->deltas).seats;
            let after = stacks_after(s.stacks, o, o.len() as int);
            &&& seats_in_order(o, s.stacks.len() as int)
            &&& forall|k: int|
                0 <= k < o.len() ==> 0 <= s.stacks[(#[trigger] o[k]).seat] + o[k].chip_delta
                    <= u32::MAX
            &&& forall|k: int|
                0 <= k < o.len() ==> -CHIP_LIMIT <= (#[trigger] o[k]).chip_delta <= CHIP_LIMIT
            &&& after.len() == s.stacks.len()
            &&& chips(after) <= chips(s.stacks)
            &&& model::count(hand::funded(after)) <= model::count(hand::funded(s.stacks))
        }),
{
    let node = hand::played(s, e, answers).node;
    let t = node.table;
    let o = hand::outcome(s.hand_id, t, node.phase->deltas).seats;
    let n = s.stacks.len() as int;
    laws::stacks_never_grow(s, e, answers);
    let marks = hand::took_part_marks(t.seats);
    model::marked_in_order(marks);
    model::count_bounds(marks);
    assert forall|k: int| 0 <= k < o.len() implies {
        &&& 0 <= (#[trigger] o[k]).seat < n
        &&& s.stacks[o[k].seat] + o[k].chip_delta == t.seats[o[k].seat].stack
        &&& -CHIP_LIMIT <= o[k].chip_delta <= CHIP_LIMIT
    } by {
        laws::losses_are_covered(s, e, answers, k);
    }
    assert forall|k: int| 0 <= k < o.len() implies 0 <= s.stacks[(#[trigger] o[k]).seat]
        + o[k].chip_delta <= u32::MAX by {
        assert(0 <= t.seats[o[k].seat].stack <= CHIP_LIMIT);
    }
    assert(seats_in_order(o, n)) by {
        assert forall|j: int, k: int| 0 <= j < k < o.len() implies (#[trigger] o[j]).seat < (
        #[trigger] o[k]).seat by {
            assert(model::marked(marks)[j] < model::marked(marks)[k]);
        }
    }
    stacks_move_once(s.stacks, o, o.len() as int);
    let after = stacks_after(s.stacks, o, o.len() as int);
    assert forall|i: int| 0 <= i < n implies #[trigger] after[i] == t.seats[i].stack by {
        if marks[i] {
            let k = model::marked(marks).index_of(i);
            assert(model::marked(marks)[k] == i);
            assert(o[k].seat == i);
        } else {
            assert forall|k: int| 0 <= k < o.len() implies (#[trigger] o[k]).seat != i by {
                assert(marks[model::marked(marks)[k]]);
            }
            assert(t.seats[i].status == crate::game::state::PlayerStatus::Out);
        }
    }
    assert(Seq::new(after.len(), |i: int| after[i] as int) =~= model::stacks(t.seats));
    assert(Seq::new(s.stacks.len(), |i: int| s.stacks[i] as int) =~= progress::starting_stacks(s));
    assert forall|i: int| 0 <= i < n && #[trigger] s.stacks[i] == 0 implies after[i] == 0 by {
        assert(after[i] == t.seats[i].stack);
    }
    laws::fewer_stay_funded(s.stacks, after);
}

// ---------------------------------------------------------------------------
// The runner
// ---------------------------------------------------------------------------

/// Owns an [`Engine`], a fixed set of agents, and per-seat stack state. Runs hands
/// sequentially, calling agent lifecycle hooks around each run.
pub struct SimRunner<E: HandEvaluator, A: Agent> {
    engine: Engine<E>,
    agents: Vec<A>,
    /// Current stacks (updated where they carry over).
    stacks: Vec<u32>,
    starting_stacks: Vec<u32>,
    dealer: SeatIndex,
    next_hand_id: u64,
    rng: SmallRng,
}

/// A run from `before`: the agents enter it and are `opened`, and `n` hands can lead to
/// `mid`.
pub open spec fn run_reached<E: HandEvaluator, A: Agent, S: EventSink>(
    rules: BettingRules,
    e: E,
    config: SimConfig,
    before: (Desk<A>, S),
    opened: Seq<A>,
    n: nat,
    mid: Session<A, S>,
) -> bool {
    let seats = before.0.stacks.len();
    &&& opened.len() == seats
    &&& forall|i: int|
        0 <= i < seats ==> (#[trigger] before.0.agents[i]).enters_run(
            RunConfig {
                small_blind: rules.small_blind,
                big_blind: rules.big_blind,
                max_players: seats as usize,
            },
            &opened[i],
        )
    &&& hands_followed(
        rules,
        e,
        config,
        Session {
            desk: Desk { agents: opened, ..before.0 },
            sink: before.1,
            deltas: Seq::new(seats, |i: int| 0),
        },
        n,
        mid,
    )
}

/// Whatever the agents answer, whoever is asked in a run of `hands` hands can be asked.
pub open spec fn run_never_stuck<E: HandEvaluator, A: Agent, S: EventSink>(
    rules: BettingRules,
    e: E,
    config: SimConfig,
    hands: nat,
    before: (Desk<A>, S),
) -> bool {
    forall|opened: Seq<A>, n: nat, mid: Session<A, S>|
        n < hands && #[trigger] run_reached(rules, e, config, before, opened, n, mid)
            ==> run::never_stuck(
            hand_setup(rules, config, mid.desk, n as int),
            e,
            mid.desk.agents,
        )
}

/// Agents that can always be asked get stuck in no run.
pub proof fn ready_agents_run_on<E: HandEvaluator, A: Agent, S: EventSink>(
    rules: BettingRules,
    e: E,
    config: SimConfig,
    hands: nat,
    before: (Desk<A>, S),
)
    requires
        forall|a: A| #[trigger] a.ready(),
    ensures
        run_never_stuck(rules, e, config, hands, before),
{
    assert forall|opened: Seq<A>, n: nat, mid: Session<A, S>|
        n < hands && #[trigger] run_reached(
            rules,
            e,
            config,
            before,
            opened,
            n,
            mid,
        ) implies run::never_stuck(
        hand_setup(rules, config, mid.desk, n as int),
        e,
        mid.desk.agents,
    ) by {
        run::ready_agents_play_on(
            hand_setup(rules, config, mid.desk, n as int),
            e,
            mid.desk.agents,
        );
    }
}

/// A run of `hands` hands: the agents enter it and are `opened`, the hands lead to
/// `last`, and the agents leave it again.
pub open spec fn run_followed<E: HandEvaluator, A: Agent, S: EventSink>(
    rules: BettingRules,
    e: E,
    config: SimConfig,
    hands: nat,
    before: (Desk<A>, S),
    opened: Seq<A>,
    last: Session<A, S>,
    after: (Desk<A>, S),
) -> bool {
    let n = before.0.stacks.len();
    &&& run_reached(rules, e, config, before, opened, hands, last)
    &&& last.desk.agents.len() == n && after.0.agents.len() == n
    &&& forall|i: int|
        0 <= i < n ==> (#[trigger] last.desk.agents[i]).leaves_run(&after.0.agents[i])
    &&& after.0 == Desk { agents: after.0.agents, ..last.desk }
    &&& after.1 == last.sink
}

/// A run of `hands` hands can lead from `before` to `after` and have `result`: what each
/// seat won or lost in all, and the stacks that are left.
pub open spec fn run_ended<E: HandEvaluator, A: Agent, S: EventSink>(
    rules: BettingRules,
    e: E,
    config: SimConfig,
    hands: nat,
    before: (Desk<A>, S),
    result: SimResult,
    after: (Desk<A>, S),
) -> bool {
    &&& result.hands_played == hands
    &&& result.final_stacks@ == after.0.stacks
    &&& exists|opened: Seq<A>, last: Session<A, S>| #[trigger]
        run_followed(rules, e, config, hands, before, opened, last, after) && engine::deltas_view(
            result.chip_deltas@,
        ) == last.deltas
}

/// No total lies further than `bound` from zero.
pub open spec fn within(deltas: Seq<i64>, bound: int) -> bool {
    forall|i: int| 0 <= i < deltas.len() ==> -bound <= #[trigger] deltas[i] <= bound
}

/// A table that can play on opens a hand.
pub proof fn setup_is_ok<A>(rules: BettingRules, config: SimConfig, desk: Desk<A>, hand_idx: int)
    requires
        seated(rules, config, desk),
    ensures
        progress::setup_ok(hand_setup(rules, config, desk, hand_idx)),
{
    let s = hand_setup(rules, config, desk, hand_idx);
    assert(Seq::new(s.stacks.len(), |i: int| s.stacks[i] as int) =~= progress::starting_stacks(s));
    laws::funded_tables_open(s);
}

/// What the books need to know of a hand that ran.
pub proof fn hand_books<E: HandEvaluator, A: Agent, S: EventSink>(
    s: Setup,
    e: E,
    answers: Seq<Action>,
    agents: Seq<A>,
    sink: S,
    result: model::Outcome,
    agents_after: Seq<A>,
    sink_after: S,
)
    requires
        progress::setup_ok(s),
        1 <= s.rules.big_blind,
        run::hand_ran(s, e, answers, (agents, sink), result, (agents_after, sink_after)),
    ensures
        agents_after.len() == agents.len(),
        seats_in_order(result.seats, s.stacks.len() as int),
        forall|k: int|
            0 <= k < result.seats.len() ==> 0 <= s.stacks[(#[trigger] result.seats[k]).seat]
                + result.seats[k].chip_delta <= u32::MAX,
        forall|k: int|
            0 <= k < result.seats.len() ==> -CHIP_LIMIT <= (#[trigger] result.seats[k]).chip_delta
                <= CHIP_LIMIT,
        ({
            let after = stacks_after(s.stacks, result.seats, result.seats.len() as int);
            &&& after.len() == s.stacks.len()
            &&& chips(after) <= chips(s.stacks)
            &&& model::count(hand::funded(after)) <= model::count(hand::funded(s.stacks))
        }),
{
    outcome_fits(s, e, answers);
    agent::calls_keep_agents(
        agents,
        seq![agent::Call::Start { hand_id: s.hand_id }] + hand::played(s, e, answers).calls + seq![
            agent::Call::End { result },
        ],
        agents_after,
    );
}

/// A hand moves every total by at most the chip limit.
proof fn totals_stay_within(
    first: Seq<int>,
    outcomes: Seq<model::SeatResult>,
    before: Seq<i64>,
    after: Seq<i64>,
    bound: int,
)
    requires
        first == engine::deltas_view(before),
        within(before, bound),
        seats_in_order(outcomes, first.len() as int),
        forall|k: int|
            0 <= k < outcomes.len() ==> -CHIP_LIMIT <= (#[trigger] outcomes[k]).chip_delta
                <= CHIP_LIMIT,
        engine::deltas_view(after) == deltas_after(first, outcomes, outcomes.len() as int),
    ensures
        after.len() == before.len(),
        within(after, bound + CHIP_LIMIT),
{
    deltas_move_once(first, outcomes, outcomes.len() as int);
    assert(engine::deltas_view(after).len() == after.len());
    assert forall|i: int| 0 <= i < after.len() implies -(bound + CHIP_LIMIT) <= #[trigger] after[i]
        <= bound + CHIP_LIMIT by {
        assert(engine::deltas_view(after)[i] == after[i]);
        assert(first[i] == before[i]);
    }
}

/// One more hand at the end.
proof fn one_more_hand<E: HandEvaluator, A: Agent, S: EventSink>(
    rules: BettingRules,
    e: E,
    config: SimConfig,
    before: Session<A, S>,
    n: nat,
    mid: Session<A, S>,
    answers: Seq<Action>,
    result: model::Outcome,
    after: Session<A, S>,
)
    requires
        hands_followed(rules, e, config, before, n, mid),
        hand_followed(rules, e, config, n as int, answers, result, mid, after),
    ensures
        hands_followed(rules, e, config, before, n + 1, after),
{
    assert(hand_followed(rules, e, config, (n + 1) - 1, answers, result, mid, after));
}

/// Tells every agent that a run starts.
fn enter_run<A: Agent>(agents: &mut Vec<A>, config: &RunConfig)
    ensures
        final(agents)@.len() == old(agents)@.len(),
        forall|i: int|
            0 <= i < old(agents)@.len() ==> (#[trigger] old(agents)@[i]).enters_run(
                *config,
                &final(agents)@[i],
            ),
{
    let ghost before = agents@;
    let mut i: usize = 0;
    while i < agents.len()
        invariant
            i <= agents@.len() == before.len(),
            forall|k: int| i <= k < before.len() ==> #[trigger] agents@[k] == before[k],
            forall|k: int| 0 <= k < i ==> (#[trigger] before[k]).enters_run(*config, &agents@[k]),
        decreases agents@.len() - i,
    {
        assert(agents@[i as int] == before[i as int]);
        agents[i].on_run_start(config);
        i = i + 1;
    }
}

/// Tells every agent that a run is over.
fn leave_run<A: Agent>(agents: &mut Vec<A>)
    ensures
        final(agents)@.len() == old(agents)@.len(),
        forall|i: int|
            0 <= i < old(agents)@.len() ==> (#[trigger] old(agents)@[i]).leaves_run(
                &final(agents)@[i],
            ),
{
    let ghost before = agents@;
    let mut i: usize = 0;
    while i < agents.len()
        invariant
            i <= agents@.len() == before.len(),
            forall|k: int| i <= k < before.len() ==> #[trigger] agents@[k] == before[k],
            forall|k: int| 0 <= k < i ==> (#[trigger] before[k]).leaves_run(&agents@[k]),
        decreases agents@.len() - i,
    {
        assert(agents@[i as int] == before[i as int]);
        agents[i].on_run_end();
        i = i + 1;
    }
}

fn zeros(n: usize) -> (deltas: Vec<i64>)
    ensures
        deltas@.len() == n,
        forall|i: int| 0 <= i < n ==> deltas@[i] == 0,
{
    let mut deltas: Vec<i64> = Vec::new();
    while deltas.len() < n
        invariant
            deltas@.len() <= n,
            forall|i: int| 0 <= i < deltas@.len() ==> deltas@[i] == 0,
        decreases n - deltas@.len(),
    {
        deltas.push(0);
    }
    deltas
}

impl<E: HandEvaluator, A: Agent> SimRunner<E, A> {
    /// What the runner holds between hands.
    pub closed spec fn desk(&self) -> Desk<A> {
        Desk {
            agents: self.agents@,
            stacks: self.stacks@,
            starting_stacks: self.starting_stacks@,
            dealer: self.dealer,
            next_hand_id: self.next_hand_id,
            rng: self.rng,
        }
    }

    /// The rules under which hands are played.
    pub closed spec fn rules(&self) -> BettingRules {
        self.engine.rules
    }

    /// The evaluator that settles showdowns.
    pub closed spec fn evaluator(&self) -> E {
        self.engine.evaluator
    }

    /// Seed the internal generator from the operating system's randomness.
    pub fn new(engine: Engine<E>, agents: Vec<A>, stacks: Vec<u32>) -> (runner: Self)
        ensures
            runner.desk() == (Desk {
                agents: agents@,
                stacks: stacks@,
                starting_stacks: stacks@,
                dealer: 0,
                next_hand_id: 1,
                rng: runner.desk().rng,
            }),
            runner.rules() == engine.rules,
            runner.evaluator() == engine.evaluator,
    {
        let rng = random::entropy_rng();
        SimRunner::with_rng(engine, agents, stacks, rng)
    }

    /// Fully deterministic constructor: the internal generator is made from
    /// `rng_seed`.
    pub fn new_seeded(
        engine: Engine<E>,
        agents: Vec<A>,
        stacks: Vec<u32>,
        rng_seed: u64,
    ) -> (runner: Self)
        ensures
            runner.desk() == (Desk {
                agents: agents@,
                stacks: stacks@,
                starting_stacks: stacks@,
                dealer: 0,
                next_hand_id: 1,
                rng: random::seeded(rng_seed),
            }),
            runner.rules() == engine.rules,
            runner.evaluator() == engine.evaluator,
    {
        let rng = random::seeded_rng(rng_seed);
        SimRunner::with_rng(engine, agents, stacks, rng)
    }

    fn with_rng(engine: Engine<E>, agents: Vec<A>, stacks: Vec<u32>, rng: SmallRng) -> (runner: Self)
        ensures
            runner.desk() == (Desk {
                agents: agents@,
                stacks: stacks@,
                starting_stacks: stacks@,
                dealer: 0,
                next_hand_id: 1,
                rng,
            }),
            runner.rules() == engine.rules,
            runner.evaluator() == engine.evaluator,
    {
        let starting_stacks = stacks.clone();
        SimRunner { engine, agents, stacks, starting_stacks, dealer: 0, next_hand_id: 1, rng }
    }

    /// Reset all seats to their starting stacks. Useful for rebuying busted players
    /// when stacks carry over.
    pub fn reset_stacks(&mut self)
        ensures
            final(self).desk() == (Desk {
                stacks: old(self).desk().starting_stacks,
                ..old(self).desk()
            }),
            final(self).rules() == old(self).rules(),
            final(self).evaluator() == old(self).evaluator(),
    {
        self.stacks = self.starting_stacks.clone();
    }

    /// Deals and plays hand number `hand_idx` of a run; the books are not yet kept.
    fn deal_hand<S: EventSink>(&mut self, config: &SimConfig, hand_idx: usize, sink: &mut S) -> (result:
        HandResult)
        requires
            seated(old(self).rules(), *config, old(self).desk()),
            config.seed matches SeedMode::Sequential(base) ==> base + hand_idx <= u64::MAX,
            run::never_stuck(
                hand_setup(old(self).rules(), *config, old(self).desk(), hand_idx as int),
                old(self).evaluator(),
                old(self).desk().agents,
            ),
        ensures
            final(self).rules() == old(self).rules(),
            final(self).evaluator() == old(self).evaluator(),
            final(self).desk() == (Desk {
                agents: final(self).desk().agents,
                rng: match config.seed {
                    SeedMode::Random => random::small_rng_u64(old(self).desk().rng).1,
                    SeedMode::Sequential(_) => old(self).desk().rng,
                },
                ..old(self).desk()
            }),
            exists|answers: Seq<Action>| #[trigger]
                run::hand_ran(
                    hand_setup(old(self).rules(), *config, old(self).desk(), hand_idx as int),
                    old(self).evaluator(),
                    answers,
                    (old(self).desk().agents, *old(sink)),
                    result@,
                    (final(self).desk().agents, *final(sink)),
                ),
    {
        let ghost s = hand_setup(self.rules(), *config, self.desk(), hand_idx as int);
        let hand_stacks = match config.stack_policy {
            StackPolicy::Reset => self.starting_stacks.clone(),
            StackPolicy::Persistent => self.stacks.clone(),
        };
        let deck_seed: u64 = match config.seed {
            SeedMode::Random => random::draw_u64(&mut self.rng),
            SeedMode::Sequential(base) => base + hand_idx as u64,
        };
        proof {
            setup_is_ok(self.rules(), *config, old(self).desk(), hand_idx as int);
            assert(self.engine.setup(
                self.next_hand_id,
                deck_seed,
                hand_stacks@,
                self.dealer,
                None,
            ) == s);
        }
        let ghost agents = self.agents@;
        let ghost e = self.engine.evaluator;
        let result = self.engine.run_hand(
            self.next_hand_id,
            deck_seed,
            hand_stacks.as_slice(),
            self.dealer,
            None,
            &mut self.agents,
            sink,
        );
        proof {
            let answers = choose|answers: Seq<Action>| #[trigger]
                run::hand_ran(s, e, answers, (agents, *old(sink)), result@, (self.agents@, *sink));
            assert(agents == old(self).desk().agents);
            assert(e == old(self).evaluator());
            assert(self.agents@ == self.desk().agents);
            assert(run::hand_ran(
                s,
                old(self).evaluator(),
                answers,
                (old(self).desk().agents, *old(sink)),
                result@,
                (self.desk().agents, *sink),
            ));
        }
        result
    }

    /// Plays hand number `hand_idx` of a run.
    #[verifier::rlimit(60)]
    #[verifier::spinoff_prover]
    fn play_hand<S: EventSink>(
        &mut self,
        config: &SimConfig,
        hand_idx: usize,
        deltas: &mut Vec<i64>,
        sink: &mut S,
    )
        requires
            seated(old(self).rules(), *config, old(self).desk()),
            old(self).desk().next_hand_id < u64::MAX,
            config.seed matches SeedMode::Sequential(base) ==> base + hand_idx <= u64::MAX,
            old(deltas)@.len() == old(self).desk().stacks.len(),
            hand_idx * CHIP_LIMIT <= i64::MAX - 0x1_0000_0000,
            within(old(deltas)@, hand_idx * CHIP_LIMIT),
            run::never_stuck(
                hand_setup(old(self).rules(), *config, old(self).desk(), hand_idx as int),
                old(self).evaluator(),
                old(self).desk().agents,
            ),
        ensures
            final(self).rules() == old(self).rules(),
            final(self).evaluator() == old(self).evaluator(),
            seated(final(self).rules(), *config, final(self).desk()),
            final(self).desk().stacks.len() == old(self).desk().stacks.len(),
            final(self).desk().next_hand_id == old(self).desk().next_hand_id + 1,
            final(deltas)@.len() == old(deltas)@.len(),
            within(final(deltas)@, (hand_idx + 1) * CHIP_LIMIT),
            exists|answers: Seq<Action>, result: model::Outcome| #[trigger]
                hand_followed(
                    old(self).rules(),
                    old(self).evaluator(),
                    *config,
                    hand_idx as int,
                    answers,
                    result,
                    Session {
                        desk: old(self).desk(),
                        sink: *old(sink),
                        deltas: engine::deltas_view(old(deltas)@),
                    },
                    Session {
                        desk: final(self).desk(),
                        sink: *final(sink),
                        deltas: engine::deltas_view(final(deltas)@),
                    },
                ),
    {
        let ghost before = Session {
            desk: self.desk(),
            sink: *sink,
            deltas: engine::deltas_view(deltas@),
        };
        let ghost s = hand_setup(self.rules(), *config, self.desk(), hand_idx as int);
        let ghost e = self.evaluator();
        let result = self.deal_hand(config, hand_idx, sink);
        let ghost agents = self.agents@;
        let ghost answers = choose|answers: Seq<Action>| #[trigger]
            run::hand_ran(
                s,
                e,
                answers,
                (before.desk.agents, before.sink),
                result@,
                (agents, *sink),
            );
        proof {
            setup_is_ok(self.rules(), *config, before.desk, hand_idx as int);
            hand_books(s, e, answers, before.desk.agents, before.sink, result@, agents, *sink);
            assert((hand_idx + 1) * CHIP_LIMIT == hand_idx * CHIP_LIMIT + CHIP_LIMIT)
                by (nonlinear_arith);
            assert(hand_idx * CHIP_LIMIT >= 0) by (nonlinear_arith);
        }
        self.next_hand_id = self.next_hand_id + 1;
        apply_result_to_deltas(&result, deltas);
        proof {
            totals_stay_within(
                before.deltas,
                result@.seats,
                old(deltas)@,
                deltas@,
                hand_idx * CHIP_LIMIT,
            );
        }
        match config.stack_policy {
            StackPolicy::Persistent => apply_result_to_stacks(&result, &mut self.stacks),
            StackPolicy::Reset => {},
        }
        self.dealer = next_dealer(self.dealer, self.stacks.as_slice());
        assert(hand_followed(
            self.rules(),
            e,
            *config,
            hand_idx as int,
            answers,
            result@,
            before,
            Session { desk: self.desk(), sink: *sink, deltas: engine::deltas_view(deltas@) },
        ));
    }

    /// Run `hands` hands. Events are forwarded to `sink`.
    ///
    /// Calls `on_run_start` before the first hand and `on_run_end` after the last.
    /// [`ready_agents_run_on`] shows that agents which can always be asked qualify.
    #[verifier::rlimit(40)]
    #[verifier::spinoff_prover]
    pub fn run<S: EventSink>(&mut self, hands: usize, config: &SimConfig, sink: &mut S) -> (result:
        SimResult)
        requires
            seated(old(self).rules(), *config, old(self).desk()),
            countable(*config, old(self).desk(), hands as int),
            run_never_stuck(
                old(self).rules(),
                old(self).evaluator(),
                *config,
                hands as nat,
                (old(self).desk(), *old(sink)),
            ),
        ensures
            final(self).rules() == old(self).rules(),
            final(self).evaluator() == old(self).evaluator(),
            seated(final(self).rules(), *config, final(self).desk()),
            run_ended(
                old(self).rules(),
                old(self).evaluator(),
                *config,
                hands as nat,
                (old(self).desk(), *old(sink)),
                result,
                (final(self).desk(), *final(sink)),
            ),
            result.chip_deltas@.len() == old(self).desk().stacks.len(),
            model::total(engine::deltas_view(result.chip_deltas@)) == 0,
            match config.stack_policy {
                StackPolicy::Reset => result.final_stacks@ == old(self).desk().stacks,
                StackPolicy::Persistent => {
                    &&& result.final_stacks@.len() == old(self).desk().stacks.len()
                    &&& forall|i: int|
                        0 <= i < result.final_stacks@.len() ==> #[trigger] result.final_stacks@[i]
                            == old(self).desk().stacks[i] + result.chip_deltas@[i]
                },
            },
    {
        let ghost before = self.desk();
        let ghost rules = self.rules();
        let ghost e = self.evaluator();
        let n: usize = self.stacks.len();
        let run_cfg = RunConfig {
            small_blind: self.engine.rules.small_blind,
            big_blind: self.engine.rules.big_blind,
            max_players: n,
        };
        enter_run(&mut self.agents, &run_cfg);
        let ghost opened = self.agents@;
        let mut deltas = zeros(n);
        let ghost start = Session {
            desk: self.desk(),
            sink: *sink,
            deltas: engine::deltas_view(deltas@),
        };
        assert(start.deltas =~= Seq::new(n as nat, |i: int| 0));
        let mut hand_idx: usize = 0;
        while hand_idx < hands
            invariant
                hand_idx <= hands,
                self.rules() == rules,
                self.evaluator() == e,
                seated(rules, *config, self.desk()),
                countable(*config, before, hands as int),
                run_never_stuck(rules, e, *config, hands as nat, (before, *old(sink))),
                before.stacks.len() == n,
                opened.len() == n,
                start == (Session {
                    desk: Desk { agents: opened, ..before },
                    sink: *old(sink),
                    deltas: Seq::new(n as nat, |i: int| 0),
                }),
                forall|i: int|
                    0 <= i < n ==> (#[trigger] before.agents[i]).enters_run(run_cfg, &opened[i]),
                run_cfg == (RunConfig {
                    small_blind: rules.small_blind,
                    big_blind: rules.big_blind,
                    max_players: n,
                }),
                self.desk().next_hand_id == before.next_hand_id + hand_idx,
                self.desk().stacks.len() == n,
                deltas@.len() == n,
                within(deltas@, hand_idx * CHIP_LIMIT),
                hands_followed(
                    rules,
                    e,
                    *config,
                    start,
                    hand_idx as nat,
                    Session {
                        desk: self.desk(),
                        sink: *sink,
                        deltas: engine::deltas_view(deltas@),
                    },
                ),
            decreases hands - hand_idx,
        {
            proof {
                assert(hand_idx * CHIP_LIMIT <= hands * CHIP_LIMIT) by (nonlinear_arith)
                    requires
                        hand_idx <= hands,
                        CHIP_LIMIT >= 0,
                ;
            }
            let ghost mid = Session {
                desk: self.desk(),
                sink: *sink,
                deltas: engine::deltas_view(deltas@),
            };
            assert(run_reached(
                rules,
                e,
                *config,
                (before, *old(sink)),
                opened,
                hand_idx as nat,
                mid,
            ));
            self.play_hand(config, hand_idx, &mut deltas, sink);
            proof {
                let after = Session {
                    desk: self.desk(),
                    sink: *sink,
                    deltas: engine::deltas_view(deltas@),
                };
                let (answers, result) = choose|answers: Seq<Action>, result: model::Outcome| #[trigger]
                    hand_followed(rules, e, *config, hand_idx as int, answers, result, mid, after);
                assert(hand_followed(
                    rules,
                    e,
                    *config,
                    hand_idx as int,
                    answers,
                    result,
                    mid,
                    after,
                ));
                one_more_hand(rules, e, *config, start, hand_idx as nat, mid, answers, result, after);
            }
            hand_idx = hand_idx + 1;
        }
        let ghost last = Session {
            desk: self.desk(),
            sink: *sink,
            deltas: engine::deltas_view(deltas@),
        };
        leave_run(&mut self.agents);
        let final_stacks = self.stacks.clone();
        proof {
            sim_laws::runs_are_zero_sum(rules, e, *config, start, hands as nat, last);
            model::total_zeros(start.deltas);
            if config.stack_policy == StackPolicy::Persistent {
                assert forall|i: int| 0 <= i < final_stacks@.len() implies #[trigger]
                    final_stacks@[i] == before.stacks[i] + deltas@[i] by {
                    assert(last.desk.stacks[i] == start.desk.stacks[i] + (last.deltas[i]
                        - start.deltas[i]));
                }
            }
            assert(run_followed(
                rules,
                e,
                *config,
                hands as nat,
                (before, *old(sink)),
                opened,
                last,
                (self.desk(), *sink),
            ));
        }
        SimResult { hands_played: hands, chip_deltas: deltas, final_stacks }
    }
}

} // verus!
