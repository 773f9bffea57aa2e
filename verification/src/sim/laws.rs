//! What holds of every run of hands.

use vstd::prelude::*;

use super::config::{SeedMode, SimConfig, StackPolicy};
use super::result;
use super::result::SimResult;
use super::runner;
use super::runner::{Desk, Session};
use crate::agent::alike;
use crate::agent::{Agent, RunConfig};
use crate::cards::HandEvaluator;
use crate::game::action::Action;
use crate::game::engine;
use crate::game::event::EventSink;
use crate::game::hand;
use crate::game::laws;
use crate::game::model;
use crate::game::repeat;
use crate::game::rules::BettingRules;

verus! {

/// Sequential seeds are reproducible: hand `i` is dealt from seed `base + i`, whoever
/// plays and whatever came before.
pub proof fn sequential_seeds_repeat<A, B>(
    config: SimConfig,
    base: u64,
    a: Desk<A>,
    b: Desk<B>,
    hand_idx: int,
)
    requires
        config.seed == SeedMode::Sequential(base),
        0 <= hand_idx,
        base + hand_idx <= u64::MAX,
    ensures
        runner::hand_seed(config, a, hand_idx) == base + hand_idx,
        runner::hand_seed(config, a, hand_idx) == runner::hand_seed(config, b, hand_idx),
{
}

/// Where stacks are reset, every hand of a run is played with the starting stacks,
/// and they never change.
pub proof fn reset_stacks_stay<E: HandEvaluator, A: Agent, S: EventSink>(
    rules: BettingRules,
    e: E,
    config: SimConfig,
    before: Session<A, S>,
    n: nat,
    after: Session<A, S>,
)
    requires
        config.stack_policy == StackPolicy::Reset,
        runner::hands_followed(rules, e, config, before, n, after),
    ensures
        after.desk.starting_stacks == before.desk.starting_stacks,
        after.desk.stacks == before.desk.stacks,
        runner::hand_stacks(config, after.desk) == before.desk.starting_stacks,
    decreases n,
{
    if n > 0 {
        let (mid, answers, result) = choose|
            mid: Session<A, S>,
            answers: Seq<Action>,
            result: model::Outcome,
        |
            runner::hands_followed(rules, e, config, before, (n - 1) as nat, mid)
                && #[trigger] runner::hand_followed(
                rules,
                e,
                config,
                n - 1,
                answers,
                result,
                mid,
                after,
            );
        reset_stacks_stay(rules, e, config, before, (n - 1) as nat, mid);
    }
}

/// The sum of the totals moves by the sum of the deltas.
proof fn totals_move_by(deltas: Seq<int>, outcomes: Seq<model::SeatResult>, n: int)
    requires
        0 <= n <= outcomes.len(),
        forall|k: int|
            0 <= k < outcomes.len() ==> 0 <= (#[trigger] outcomes[k]).seat < deltas.len(),
    ensures
        runner::deltas_after(deltas, outcomes, n).len() == deltas.len(),
        model::total(runner::deltas_after(deltas, outcomes, n)) == model::total(deltas)
            + model::total(Seq::new(n as nat, |k: int| outcomes[k].chip_delta)),
    decreases n,
{
    let upto = Seq::new(n as nat, |k: int| outcomes[k].chip_delta);
    if n > 0 {
        totals_move_by(deltas, outcomes, n - 1);
        assert(upto.drop_last() =~= Seq::new((n - 1) as nat, |k: int| outcomes[k].chip_delta));
        let before = runner::deltas_after(deltas, outcomes, n - 1);
        let o = outcomes[n - 1];
        model::total_update(before, o.seat, before[o.seat] + o.chip_delta);
    }
}

/// Every hand of a run moves chips between seats and makes or loses none: the totals
/// of all seats together stay what they were.
pub proof fn hands_are_zero_sum<E: HandEvaluator, A: Agent, S: EventSink>(
    rules: BettingRules,
    e: E,
    config: SimConfig,
    hand_idx: int,
    answers: Seq<Action>,
    result: model::Outcome,
    before: Session<A, S>,
    after: Session<A, S>,
)
    requires
        runner::seated(rules, config, before.desk),
        before.deltas.len() == before.desk.stacks.len(),
        runner::hand_followed(rules, e, config, hand_idx, answers, result, before, after),
    ensures
        after.deltas.len() == before.deltas.len(),
        model::total(after.deltas) == model::total(before.deltas),
{
    let s = runner::hand_setup(rules, config, before.desk, hand_idx);
    runner::setup_is_ok(rules, config, before.desk, hand_idx);
    laws::chips_are_conserved(s, e, answers);
    let n = result.seats.len() as int;
    assert forall|k: int| 0 <= k < n implies 0 <= (#[trigger] result.seats[k]).seat
        < before.deltas.len() by {
        laws::losses_are_covered(s, e, answers, k);
    }
    totals_move_by(before.deltas, result.seats, n);
    assert(laws::chip_deltas(result) =~= Seq::new(n as nat, |k: int| result.seats[k].chip_delta));
}

/// The button stays at the table.
proof fn button_stays_at_table(current: int, stacks: Seq<u32>, i: int)
    requires
        0 <= current < stacks.len(),
        1 <= i,
    ensures
        0 <= runner::dealer_after(current, stacks, i) < stacks.len(),
    decreases stacks.len() + 1 - i,
{
    if i <= stacks.len() {
        vstd::arithmetic::div_mod::lemma_mod_bound(current + i, stacks.len() as int);
        button_stays_at_table(current, stacks, i + 1);
    }
}

/// Stacks and totals move together: each outcome moves both of its seat by the same.
proof fn books_agree(
    stacks: Seq<u32>,
    deltas: Seq<int>,
    outcomes: Seq<model::SeatResult>,
    n: int,
)
    requires
        stacks.len() == deltas.len(),
        runner::seats_in_order(outcomes, stacks.len() as int),
        0 <= n <= outcomes.len(),
        forall|k: int|
            0 <= k < outcomes.len() ==> 0 <= stacks[(#[trigger] outcomes[k]).seat]
                + outcomes[k].chip_delta <= u32::MAX,
    ensures
        runner::stacks_after(stacks, outcomes, n).len() == stacks.len(),
        runner::deltas_after(deltas, outcomes, n).len() == deltas.len(),
        forall|i: int|
            0 <= i < stacks.len() ==> #[trigger] runner::stacks_after(stacks, outcomes, n)[i]
                - stacks[i] == runner::deltas_after(deltas, outcomes, n)[i] - deltas[i],
    decreases n,
{
    if n > 0 {
        books_agree(stacks, deltas, outcomes, n - 1);
        runner::stacks_move_once(stacks, outcomes, n - 1);
        let o = outcomes[n - 1];
        assert(n > 1 ==> outcomes[n - 2].seat < outcomes[n - 1].seat);
        let sb = runner::stacks_after(stacks, outcomes, n - 1);
        let db = runner::deltas_after(deltas, outcomes, n - 1);
        assert(sb[o.seat] == stacks[o.seat]);
        assert(db[o.seat] == deltas[o.seat]);
        assert forall|i: int| 0 <= i < stacks.len() implies #[trigger] runner::stacks_after(
            stacks,
            outcomes,
            n,
        )[i] - stacks[i] == runner::deltas_after(deltas, outcomes, n)[i] - deltas[i] by {
            assert(sb[i] - stacks[i] == db[i] - deltas[i]);
        }
    }
}

/// What one hand of a run leaves behind: a table that can play on, and books that
/// agree. Where stacks carry over, a stack moves by what its seat won or lost, and no
/// more seats have chips than before.
pub proof fn hands_keep_the_books<E: HandEvaluator, A: Agent, S: EventSink>(
    rules: BettingRules,
    e: E,
    config: SimConfig,
    hand_idx: int,
    answers: Seq<Action>,
    result: model::Outcome,
    before: Session<A, S>,
    after: Session<A, S>,
)
    requires
        runner::seated(rules, config, before.desk),
        before.deltas.len() == before.desk.stacks.len(),
        runner::hand_followed(rules, e, config, hand_idx, answers, result, before, after),
    ensures
        runner::seated(rules, config, after.desk),
        after.desk.stacks.len() == before.desk.stacks.len(),
        after.deltas.len() == before.deltas.len(),
        config.stack_policy == StackPolicy::Persistent ==> forall|i: int|
            0 <= i < before.desk.stacks.len() ==> #[trigger] after.desk.stacks[i]
                == before.desk.stacks[i] + (after.deltas[i] - before.deltas[i]),
        config.stack_policy == StackPolicy::Persistent ==> model::count(
            hand::funded(after.desk.stacks),
        ) <= model::count(hand::funded(before.desk.stacks)),
        config.stack_policy == StackPolicy::Reset ==> after.desk.stacks == before.desk.stacks,
{
    let s = runner::hand_setup(rules, config, before.desk, hand_idx);
    runner::setup_is_ok(rules, config, before.desk, hand_idx);
    runner::hand_books(
        s,
        e,
        answers,
        before.desk.agents,
        before.sink,
        result,
        after.desk.agents,
        after.sink,
    );
    let n = result.seats.len() as int;
    runner::deltas_move_once(before.deltas, result.seats, n);
    if config.stack_policy == StackPolicy::Persistent {
        books_agree(before.desk.stacks, before.deltas, result.seats, n);
    }
    button_stays_at_table(before.desk.dealer as int, after.desk.stacks, 1);
}

/// A run of any number of hands makes or loses no chip: the totals of all seats
/// together stay what they were. Where stacks carry over, each stack is what it was
/// and what its seat has won or lost since; where they are reset, it never changes.
pub proof fn runs_are_zero_sum<E: HandEvaluator, A: Agent, S: EventSink>(
    rules: BettingRules,
    e: E,
    config: SimConfig,
    before: Session<A, S>,
    n: nat,
    after: Session<A, S>,
)
    requires
        runner::seated(rules, config, before.desk),
        before.deltas.len() == before.desk.stacks.len(),
        runner::hands_followed(rules, e, config, before, n, after),
    ensures
        runner::seated(rules, config, after.desk),
        after.desk.stacks.len() == before.desk.stacks.len(),
        after.deltas.len() == before.deltas.len(),
        model::total(after.deltas) == model::total(before.deltas),
        config.stack_policy == StackPolicy::Persistent ==> forall|i: int|
            0 <= i < before.desk.stacks.len() ==> #[trigger] after.desk.stacks[i]
                == before.desk.stacks[i] + (after.deltas[i] - before.deltas[i]),
        config.stack_policy == StackPolicy::Reset ==> after.desk.stacks == before.desk.stacks,
    decreases n,
{
    if n > 0 {
        let (mid, answers, result) = choose|
            mid: Session<A, S>,
            answers: Seq<Action>,
            result: model::Outcome,
        |
            runner::hands_followed(rules, e, config, before, (n - 1) as nat, mid)
                && #[trigger] runner::hand_followed(
                rules,
                e,
                config,
                n - 1,
                answers,
                result,
                mid,
                after,
            );
        runs_are_zero_sum(rules, e, config, before, (n - 1) as nat, mid);
        hands_keep_the_books(rules, e, config, n - 1, answers, result, mid, after);
        hands_are_zero_sum(rules, e, config, n - 1, answers, result, mid, after);
        if config.stack_policy == StackPolicy::Persistent {
            assert forall|i: int| 0 <= i < before.desk.stacks.len() implies #[trigger]
                after.desk.stacks[i] == before.desk.stacks[i] + (after.deltas[i]
                - before.deltas[i]) by {
                assert(mid.desk.stacks[i] == before.desk.stacks[i] + (mid.deltas[i]
                    - before.deltas[i]));
            }
        }
    }
}

/// Where stacks carry over, the chips at the table stay what they were, however many
/// hands are played.
pub proof fn carried_chips_stay_at_the_table<E: HandEvaluator, A: Agent, S: EventSink>(
    rules: BettingRules,
    e: E,
    config: SimConfig,
    before: Session<A, S>,
    n: nat,
    after: Session<A, S>,
)
    requires
        config.stack_policy == StackPolicy::Persistent,
        runner::seated(rules, config, before.desk),
        before.deltas.len() == before.desk.stacks.len(),
        runner::hands_followed(rules, e, config, before, n, after),
    ensures
        runner::chips(after.desk.stacks) == runner::chips(before.desk.stacks),
{
    runs_are_zero_sum(rules, e, config, before, n, after);
    let m = before.desk.stacks.len();
    let s0: Seq<int> = Seq::new(m, |i: int| before.desk.stacks[i] as int);
    let s1: Seq<int> = Seq::new(m, |i: int| after.desk.stacks[i] as int);
    let moved: Seq<int> = Seq::new(m, |i: int| after.deltas[i] - before.deltas[i]);
    assert forall|i: int| 0 <= i < m implies s1[i] == s0[i] + moved[i] by {
        assert(after.desk.stacks[i] == before.desk.stacks[i] + (after.deltas[i]
            - before.deltas[i]));
    }
    model::total_sum(s0, moved, s1);
    model::total_sum(before.deltas, moved, after.deltas);
}

/// What a seat won in all results together sums up, over the seats, to the sum of what
/// the results sum up to.
proof fn merged_totals(results: Seq<SimResult>, n: int, m: nat)
    requires
        0 <= n <= results.len(),
        forall|k: int|
            0 <= k < results.len() ==> (#[trigger] results[k]).chip_deltas@.len() <= m
                && model::total(engine::deltas_view(results[k].chip_deltas@)) == 0,
    ensures
        model::total(Seq::new(m, |i: int| result::won_together(results, n, i))) == 0,
    decreases n,
{
    let all: Seq<int> = Seq::new(m, |i: int| result::won_together(results, n, i));
    if n > 0 {
        merged_totals(results, n - 1, m);
        let before: Seq<int> = Seq::new(m, |i: int| result::won_together(results, n - 1, i));
        assert(results[n - 1].chip_deltas@.len() <= m);
        let d = engine::deltas_view(results[n - 1].chip_deltas@);
        let padded: Seq<int> = Seq::new(
            m,
            |i: int|
                if i < d.len() {
                    d[i]
                } else {
                    0
                },
        );
        padding_adds_nothing(d, padded);
        model::total_sum(before, padded, all);
    } else {
        model::total_zeros(all);
    }
}

proof fn padding_adds_nothing(d: Seq<int>, padded: Seq<int>)
    requires
        d.len() <= padded.len(),
        forall|i: int| 0 <= i < d.len() ==> padded[i] == d[i],
        forall|i: int| d.len() <= i < padded.len() ==> padded[i] == 0,
    ensures
        model::total(padded) == model::total(d),
    decreases padded.len(),
{
    if d.len() == padded.len() {
        assert(padded =~= d);
    } else {
        padding_adds_nothing(d, padded.drop_last());
    }
}

/// Merging the results of parallel runs makes or loses no chip either: where each
/// run's totals cancel out, the merged ones do.
pub proof fn merged_runs_are_zero_sum(results: Seq<SimResult>, merged: SimResult)
    requires
        results.len() > 0,
        forall|k: int|
            0 <= k < results.len() ==> (#[trigger] results[k]).chip_deltas@.len()
                <= results[0].chip_deltas@.len() && model::total(
                engine::deltas_view(results[k].chip_deltas@),
            ) == 0,
        merged.chip_deltas@.len() == results[0].chip_deltas@.len(),
        forall|i: int|
            0 <= i < merged.chip_deltas@.len() ==> #[trigger] merged.chip_deltas@[i]
                == result::won_together(results, results.len() as int, i),
    ensures
        model::total(engine::deltas_view(merged.chip_deltas@)) == 0,
{
    let m = merged.chip_deltas@.len();
    merged_totals(results, results.len() as int, m);
    assert(engine::deltas_view(merged.chip_deltas@) =~= Seq::new(
        m,
        |i: int| result::won_together(results, results.len() as int, i),
    ));
}

/// The button never rests at an empty seat while somebody has chips.
pub proof fn button_finds_chips(current: int, stacks: Seq<u32>, seat: int)
    requires
        0 <= current < stacks.len(),
        0 <= seat < stacks.len(),
        stacks[seat] > 0,
    ensures
        0 <= runner::dealer_after(current, stacks, 1) < stacks.len(),
        stacks[runner::dealer_after(current, stacks, 1)] > 0,
{
    let n = stacks.len() as int;
    let k = if seat > current {
        seat - current
    } else {
        seat - current + n
    };
    assert((current + k) % n == seat) by {
        if seat > current {
            vstd::arithmetic::div_mod::lemma_small_mod(seat as nat, n as nat);
        } else {
            vstd::arithmetic::div_mod::lemma_mod_add_multiples_vanish(seat, n);
            vstd::arithmetic::div_mod::lemma_small_mod(seat as nat, n as nat);
        }
    }
    search_finds_chips(current, stacks, 1, k);
}

proof fn search_finds_chips(current: int, stacks: Seq<u32>, i: int, k: int)
    requires
        0 <= current < stacks.len(),
        1 <= i <= k <= stacks.len(),
        stacks[(current + k) % (stacks.len() as int)] > 0,
    ensures
        0 <= runner::dealer_after(current, stacks, i) < stacks.len(),
        stacks[runner::dealer_after(current, stacks, i)] > 0,
    decreases k - i,
{
    vstd::arithmetic::div_mod::lemma_mod_bound(current + i, stacks.len() as int);
    if stacks[(current + i) % (stacks.len() as int)] == 0 {
        search_finds_chips(current, stacks, i + 1, k);
    }
}

// ---------------------------------------------------------------------------
// Runs that repeat
// ---------------------------------------------------------------------------

/// Two desks from which runs go the same way: the agents cannot be told apart, and
/// stacks, button and hand ids are the same. Where seeds are drawn at random, so are
/// the generators.
pub open spec fn desks_alike<A>(
    config: SimConfig,
    like: spec_fn(A, A) -> bool,
    a: Desk<A>,
    b: Desk<A>,
) -> bool {
    &&& alike::all_alike(like, a.agents, b.agents)
    &&& a.stacks == b.stacks
    &&& a.starting_stacks == b.starting_stacks
    &&& a.dealer == b.dealer
    &&& a.next_hand_id == b.next_hand_id
    &&& config.seed == SeedMode::Random ==> a.rng == b.rng
}

/// Hand by hand, two sessions from desks that are alike go the same way: equal totals,
/// and desks that are still alike.
pub proof fn sessions_repeat<E: HandEvaluator, A: Agent, S: EventSink, T: EventSink>(
    rules: BettingRules,
    e: E,
    config: SimConfig,
    like: spec_fn(A, A) -> bool,
    n: nat,
    a: Session<A, S>,
    a1: Session<A, S>,
    b: Session<A, T>,
    b1: Session<A, T>,
)
    requires
        alike::indistinct(like),
        desks_alike(config, like, a.desk, b.desk),
        a.deltas == b.deltas,
        runner::hands_followed(rules, e, config, a, n, a1),
        runner::hands_followed(rules, e, config, b, n, b1),
    ensures
        desks_alike(config, like, a1.desk, b1.desk),
        a1.deltas == b1.deltas,
    decreases n,
{
    if n > 0 {
        let (am, x, result_a) = choose|
            mid: Session<A, S>,
            answers: Seq<Action>,
            result: model::Outcome,
        |
            runner::hands_followed(rules, e, config, a, (n - 1) as nat, mid)
                && #[trigger] runner::hand_followed(
                rules,
                e,
                config,
                n - 1,
                answers,
                result,
                mid,
                a1,
            );
        let (bm, y, result_b) = choose|
            mid: Session<A, T>,
            answers: Seq<Action>,
            result: model::Outcome,
        |
            runner::hands_followed(rules, e, config, b, (n - 1) as nat, mid)
                && #[trigger] runner::hand_followed(
                rules,
                e,
                config,
                n - 1,
                answers,
                result,
                mid,
                b1,
            );
        sessions_repeat(rules, e, config, like, (n - 1) as nat, a, am, b, bm);
        let s = runner::hand_setup(rules, config, am.desk, n - 1);
        assert(s == runner::hand_setup(rules, config, bm.desk, n - 1));
        repeat::hands_repeat(
            s,
            e,
            like,
            x,
            (am.desk.agents, am.sink),
            result_a,
            (a1.desk.agents, a1.sink),
            y,
            (bm.desk.agents, bm.sink),
            result_b,
            (b1.desk.agents, b1.sink),
        );
    }
}

/// Totals that look the same are the same.
proof fn same_totals(a: Seq<i64>, b: Seq<i64>)
    requires
        engine::deltas_view(a) == engine::deltas_view(b),
    ensures
        a == b,
{
    let da = engine::deltas_view(a);
    let db = engine::deltas_view(b);
    assert(a.len() == da.len() && b.len() == db.len());
    assert forall|i: int| 0 <= i < a.len() implies a[i] == b[i] by {
        assert(da[i] == db[i]);
    }
    assert(a =~= b);
}

/// Agents that cannot be told apart enter a run alike.
proof fn runs_open_alike<A: Agent>(
    like: spec_fn(A, A) -> bool,
    run_config: RunConfig,
    a: Seq<A>,
    opened_a: Seq<A>,
    b: Seq<A>,
    opened_b: Seq<A>,
)
    requires
        alike::indistinct(like),
        alike::all_alike(like, a, b),
        opened_a.len() == a.len(),
        opened_b.len() == b.len(),
        forall|i: int|
            0 <= i < a.len() ==> (#[trigger] a[i]).enters_run(run_config, &opened_a[i]),
        forall|i: int|
            0 <= i < b.len() ==> (#[trigger] b[i]).enters_run(run_config, &opened_b[i]),
    ensures
        alike::all_alike(like, opened_a, opened_b),
{
    assert forall|i: int| 0 <= i < opened_a.len() implies like(
        #[trigger] opened_a[i],
        opened_b[i],
    ) by {
        assert(like(a[i], b[i]));
        assert(a[i].enters_run(run_config, &opened_a[i]));
        assert(b[i].enters_run(run_config, &opened_b[i]));
    }
}

/// Agents that cannot be told apart leave a run alike.
proof fn runs_close_alike<A: Agent>(
    like: spec_fn(A, A) -> bool,
    a: Seq<A>,
    a1: Seq<A>,
    b: Seq<A>,
    b1: Seq<A>,
)
    requires
        alike::indistinct(like),
        alike::all_alike(like, a, b),
        a1.len() == a.len(),
        b1.len() == b.len(),
        forall|i: int| 0 <= i < a.len() ==> (#[trigger] a[i]).leaves_run(&a1[i]),
        forall|i: int| 0 <= i < b.len() ==> (#[trigger] b[i]).leaves_run(&b1[i]),
    ensures
        alike::all_alike(like, a1, b1),
{
    assert forall|i: int| 0 <= i < a1.len() implies like(#[trigger] a1[i], b1[i]) by {
        assert(like(a[i], b[i]));
        assert(a[i].leaves_run(&a1[i]));
        assert(b[i].leaves_run(&b1[i]));
    }
}

/// Two runs from desks that are alike go the same way.
#[verifier::spinoff_prover]
proof fn followed_runs_repeat<E: HandEvaluator, A: Agent, S: EventSink, T: EventSink>(
    rules: BettingRules,
    e: E,
    config: SimConfig,
    like: spec_fn(A, A) -> bool,
    hands: nat,
    a: (Desk<A>, S),
    opened_a: Seq<A>,
    last_a: Session<A, S>,
    a1: (Desk<A>, S),
    b: (Desk<A>, T),
    opened_b: Seq<A>,
    last_b: Session<A, T>,
    b1: (Desk<A>, T),
)
    requires
        alike::indistinct(like),
        a.0.agents.len() == a.0.stacks.len(),
        desks_alike(config, like, a.0, b.0),
        runner::run_followed(rules, e, config, hands, a, opened_a, last_a, a1),
        runner::run_followed(rules, e, config, hands, b, opened_b, last_b, b1),
    ensures
        last_a.deltas == last_b.deltas,
        desks_alike(config, like, a1.0, b1.0),
{
    let n = a.0.stacks.len();
    let run_config = RunConfig {
        small_blind: rules.small_blind,
        big_blind: rules.big_blind,
        max_players: n as usize,
    };
    runs_open_alike(like, run_config, a.0.agents, opened_a, b.0.agents, opened_b);
    let start_a = Session {
        desk: Desk { agents: opened_a, ..a.0 },
        sink: a.1,
        deltas: Seq::new(n, |i: int| 0),
    };
    let start_b = Session {
        desk: Desk { agents: opened_b, ..b.0 },
        sink: b.1,
        deltas: Seq::new(n, |i: int| 0),
    };
    sessions_repeat(rules, e, config, like, hands, start_a, last_a, start_b, last_b);
    runs_close_alike(like, last_a.desk.agents, a1.0.agents, last_b.desk.agents, b1.0.agents);
}

/// Runs are reproducible: two runs of as many hands, with the same seeds and with agents
/// that cannot be told apart, from the same stacks and button, have the same result,
/// whatever listens to them. They leave desks from which the next runs repeat too. With
/// sequential seeds the generators of the two runners need not agree.
pub proof fn deterministic_runs_repeat<E: HandEvaluator, A: Agent, S: EventSink, T: EventSink>(
    rules: BettingRules,
    e: E,
    config: SimConfig,
    like: spec_fn(A, A) -> bool,
    hands: nat,
    a: (Desk<A>, S),
    result_a: SimResult,
    a1: (Desk<A>, S),
    b: (Desk<A>, T),
    result_b: SimResult,
    b1: (Desk<A>, T),
)
    requires
        alike::indistinct(like),
        a.0.agents.len() == a.0.stacks.len(),
        desks_alike(config, like, a.0, b.0),
        runner::run_ended(rules, e, config, hands, a, result_a, a1),
        runner::run_ended(rules, e, config, hands, b, result_b, b1),
    ensures
        result_a.hands_played == result_b.hands_played,
        result_a.chip_deltas@ == result_b.chip_deltas@,
        result_a.final_stacks@ == result_b.final_stacks@,
        desks_alike(config, like, a1.0, b1.0),
{
    let (opened_a, last_a) = choose|opened: Seq<A>, last: Session<A, S>| #[trigger]
        runner::run_followed(rules, e, config, hands, a, opened, last, a1) && engine::deltas_view(
            result_a.chip_deltas@,
        ) == last.deltas;
    let (opened_b, last_b) = choose|opened: Seq<A>, last: Session<A, T>| #[trigger]
        runner::run_followed(rules, e, config, hands, b, opened, last, b1) && engine::deltas_view(
            result_b.chip_deltas@,
        ) == last.deltas;
    followed_runs_repeat(
        rules,
        e,
        config,
        like,
        hands,
        a,
        opened_a,
        last_a,
        a1,
        b,
        opened_b,
        last_b,
        b1,
    );
    same_totals(result_a.chip_deltas@, result_b.chip_deltas@);
}

// ---------------------------------------------------------------------------
// The button
// ---------------------------------------------------------------------------

/// The search from `i` places after `current` on skips empty seats, and stops at the
/// first with chips.
proof fn search_skips_empty_seats(current: int, stacks: Seq<u32>, i: int, k: int)
    requires
        0 <= current,
        1 <= i <= k <= stacks.len(),
        stacks[(current + k) % (stacks.len() as int)] > 0,
        forall|j: int|
            i <= j < k ==> #[trigger] stacks[(current + j) % (stacks.len() as int)] == 0,
    ensures
        runner::dealer_after(current, stacks, i) == (current + k) % (stacks.len() as int),
    decreases k - i,
{
    if i < k {
        assert(stacks[(current + i) % (stacks.len() as int)] == 0);
        search_skips_empty_seats(current, stacks, i + 1, k);
    }
}

/// Where nobody has chips the search ends where it began.
proof fn search_comes_back(current: int, stacks: Seq<u32>, i: int)
    requires
        0 <= current,
        1 <= i,
        forall|s: int| 0 <= s < stacks.len() ==> stacks[s] == 0,
    ensures
        runner::dealer_after(current, stacks, i) == current,
    decreases stacks.len() + 1 - i,
{
    if i <= stacks.len() {
        vstd::arithmetic::div_mod::lemma_mod_bound(current + i, stacks.len() as int);
        search_comes_back(current, stacks, i + 1);
    }
}

/// The button moves up around the table to the nearest seat with chips: whichever seat
/// has chips while all seats between it and `current` are empty is the next dealer. It
/// stays where nobody has chips.
pub proof fn button_moves_on(current: int, stacks: Seq<u32>)
    requires
        0 <= current,
    ensures
        forall|k: int| #[trigger]
            runner::chips_after(current, stacks, k) ==> runner::dealer_after(current, stacks, 1)
                == (current + k) % (stacks.len() as int),
        (forall|i: int| 0 <= i < stacks.len() ==> stacks[i] == 0) ==> runner::dealer_after(
            current,
            stacks,
            1,
        ) == current,
{
    assert forall|k: int| #[trigger] runner::chips_after(current, stacks, k) implies
        runner::dealer_after(current, stacks, 1) == (current + k) % (stacks.len() as int) by {
        search_skips_empty_seats(current, stacks, 1, k);
    }
    if forall|i: int| 0 <= i < stacks.len() ==> stacks[i] == 0 {
        search_comes_back(current, stacks, 1);
    }
}

/// Where everybody has chips, the button moves to the neighbour.
pub proof fn button_moves_to_the_neighbour(current: int, stacks: Seq<u32>)
    requires
        0 <= current < stacks.len(),
        forall|i: int| 0 <= i < stacks.len() ==> stacks[i] > 0,
    ensures
        runner::dealer_after(current, stacks, 1) == if current + 1 == stacks.len() {
            0
        } else {
            current + 1
        },
{
    let n = stacks.len() as int;
    vstd::arithmetic::div_mod::lemma_mod_bound(current + 1, n);
    search_skips_empty_seats(current, stacks, 1, 1);
    if current + 1 == n {
        vstd::arithmetic::div_mod::lemma_mod_self_0(n);
    } else {
        vstd::arithmetic::div_mod::lemma_small_mod((current + 1) as nat, n as nat);
    }
}

/// Between two hands of a run the button moves on to the next seat with chips: seats
/// with chips are dealt in turn, and none of them is passed over. Hands are numbered
/// one after the other.
pub proof fn hands_move_the_button<E: HandEvaluator, A: Agent, S: EventSink>(
    rules: BettingRules,
    e: E,
    config: SimConfig,
    hand_idx: int,
    answers: Seq<Action>,
    result: model::Outcome,
    before: Session<A, S>,
    after: Session<A, S>,
    k: int,
)
    requires
        runner::seated(rules, config, before.desk),
        before.deltas.len() == before.desk.stacks.len(),
        before.desk.next_hand_id < u64::MAX,
        runner::hand_followed(rules, e, config, hand_idx, answers, result, before, after),
        runner::chips_after(before.desk.dealer as int, after.desk.stacks, k),
    ensures
        after.desk.dealer == (before.desk.dealer + k) % (after.desk.stacks.len() as int),
        result.hand_id == before.desk.next_hand_id,
        after.desk.next_hand_id == before.desk.next_hand_id + 1,
{
    hands_keep_the_books(rules, e, config, hand_idx, answers, result, before, after);
    let n = after.desk.stacks.len() as int;
    search_skips_empty_seats(before.desk.dealer as int, after.desk.stacks, 1, k);
    vstd::arithmetic::div_mod::lemma_mod_bound(before.desk.dealer + k, n);
}

/// Each hand of a run is played at the desk as it stands: by its button, with its number,
/// and with the chips that carry over or the starting ones. Where seeds are random, each
/// hand draws a new one, and the next hand draws on from there.
pub proof fn hands_are_dealt_at_the_desk<E: HandEvaluator, A: Agent, S: EventSink>(
    rules: BettingRules,
    e: E,
    config: SimConfig,
    hand_idx: int,
    answers: Seq<Action>,
    result: model::Outcome,
    before: Session<A, S>,
    after: Session<A, S>,
)
    requires
        runner::hand_followed(rules, e, config, hand_idx, answers, result, before, after),
    ensures
        ({
            let s = runner::hand_setup(rules, config, before.desk, hand_idx);
            let drawn = crate::random::small_rng_u64(before.desk.rng);
            &&& s.rules == rules
            &&& s.hand_id == before.desk.next_hand_id
            &&& s.dealer == before.desk.dealer
            &&& s.kinds is None
            &&& config.stack_policy == StackPolicy::Persistent ==> s.stacks == before.desk.stacks
            &&& config.stack_policy == StackPolicy::Reset ==> s.stacks
                == before.desk.starting_stacks
            &&& config.seed == SeedMode::Random ==> s.deck_seed == drawn.0 && after.desk.rng
                == drawn.1
            &&& config.seed is Sequential ==> after.desk.rng == before.desk.rng
        }),
{
}

} // verus!
