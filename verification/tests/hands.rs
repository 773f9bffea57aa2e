//! Whole hands: scripted play, short all-ins, dead hands, side pots.

use poker::agent::builtin::{CallingStation, RandomAgent, ScriptedAgent};
use poker::agent::{Agent, Observation, RunConfig};
use poker::cards::{Card, HandEvaluator, NaiveEvaluator, RsPokerEvaluator};
use poker::game::{
    Action, BetVariant, BettingRules, Engine, EngineEvent, GameTree, HandId, HandResult, LegalActions, NodeKind,
    NullSink, SeatIndex, SeatKind, VecSink,
};
use poker::sim::{SeedMode, SimConfig, SimRunner, StackPolicy};

/// Plays a script, and notes every offer of legal actions it sees.
struct CapturingAgent {
    script: Vec<Action>,
    cursor: usize,
    captured: Vec<LegalActions>,
}

impl CapturingAgent {
    fn new(script: Vec<Action>) -> Self {
        CapturingAgent { script, cursor: 0, captured: Vec::new() }
    }

    fn answer(&mut self, obs: &Observation<'_>) -> Action {
        self.captured.push(obs.legal_actions);
        if self.cursor < self.script.len() {
            let action = self.script[self.cursor];
            self.cursor += 1;
            action
        } else if obs.legal_actions.can_check {
            Action::Check
        } else {
            Action::Call
        }
    }
}

/// The players of these tests.
enum Player {
    Scripted(ScriptedAgent),
    Calling(CallingStation),
    Random(RandomAgent),
    Capturing(CapturingAgent),
}

impl Agent for Player {
    fn act(&mut self, obs: &Observation<'_>) -> Action {
        match self {
            Player::Scripted(a) => a.act(obs),
            Player::Calling(a) => a.act(obs),
            Player::Random(a) => a.act(obs),
            Player::Capturing(a) => a.answer(obs),
        }
    }

    fn on_event(&mut self, _event: &EngineEvent) {}

    fn on_run_start(&mut self, _config: &RunConfig) {}

    fn on_run_end(&mut self) {}

    fn on_hand_start(&mut self, _hand_id: HandId) {}

    fn on_hand_end(&mut self, _result: &HandResult) {}
}

fn nlhe_rules() -> BettingRules {
    BettingRules::no_limit_holdem(1, 2, 6)
}

// Chip conservation: total chips in play must be constant after every hand.

fn assert_chips_conserved(starting: &[u32], result_deltas: &[i32], stacks_after: &[u32]) {
    let before: i32 = starting.iter().map(|&s| s as i32).sum();
    let after: i32 = stacks_after.iter().map(|&s| s as i32).sum();
    assert_eq!(
        before, after,
        "chip conservation violated: before={before}, after={after}"
    );
    let sum_deltas: i32 = result_deltas.iter().sum();
    assert_eq!(sum_deltas, 0, "deltas must sum to zero: {result_deltas:?}");
}

fn scripted(actions: Vec<Action>) -> Player {
    Player::Scripted(ScriptedAgent::new(actions))
}

fn calling() -> Player {
    Player::Calling(CallingStation)
}

fn capturing(script: Vec<Action>) -> Player {
    Player::Capturing(CapturingAgent::new(script))
}

/// The actions offered to a capturing player, turn by turn.
fn captured(player: &Player) -> &Vec<LegalActions> {
    match player {
        Player::Capturing(c) => &c.captured,
        _ => panic!("not a capturing player"),
    }
}

// Everyone folds to the big blind
#[test]
fn everyone_folds_to_bb() {
    let rules = nlhe_rules();
    let engine = Engine::new(rules, NaiveEvaluator);
    let stacks = [100u32, 100, 100]; // seats 0, 1, 2
    let dealer = 0;
    // SB = seat 1, BB = seat 2, UTG = seat 0
    // UTG folds, SB folds → BB wins
    let mut agents: Vec<Player> = vec![
        scripted(vec![Action::Fold]), // UTG (seat 0)
        scripted(vec![Action::Fold]), // SB  (seat 1)
        scripted(vec![]),             // BB  (seat 2) — not asked to act
    ];
    let mut sink = VecSink::default();
    let result = engine.run_hand(1, 42, &stacks, dealer, None, &mut agents, &mut sink);

    // Seat 2 (BB) should gain the 3 chips posted (SB=1, BB=2 → pot=3).
    let bb_outcome = result.seats.iter().find(|s| s.seat == 2).unwrap();
    assert_eq!(bb_outcome.chip_delta, 1, "BB wins SB's 1 chip: delta should be +1");

    // HandStarted + HandEnded events must be present.
    assert!(sink.events.iter().any(|e| matches!(e, EngineEvent::HandStarted { .. })));
    assert!(sink.events.iter().any(|e| matches!(e, EngineEvent::HandEnded { .. })));
}

// Simple full hand — all players call, best hand wins
#[test]
fn full_hand_all_call_chips_conserved() {
    let rules = nlhe_rules();
    let engine = Engine::new(rules, NaiveEvaluator);
    let stacks = [200u32, 200, 200];
    let dealer = 0;

    // Everyone calls/checks every street to reach showdown.
    let mut agents: Vec<Player> =
        vec![calling(), calling(), calling()];
    let mut sink = NullSink;
    let result = engine.run_hand(1, 99, &stacks, dealer, None, &mut agents, &mut sink);

    // Chip conservation.
    let deltas: Vec<i32> = result.seats.iter().map(|s| s.chip_delta).collect();
    let stacks_after: Vec<u32> = result
        .seats
        .iter()
        .map(|s| (stacks[s.seat] as i32 + s.chip_delta) as u32)
        .collect();
    assert_chips_conserved(&stacks, &deltas, &stacks_after);
    assert_eq!(result.board.len(), 5, "five community cards must be dealt");
}

// UTG raises, everyone folds → UTG wins uncontested
#[test]
fn utg_raise_fold_out() {
    let rules = nlhe_rules();
    let engine = Engine::new(rules, NaiveEvaluator);
    let stacks = [200u32, 200, 200]; // dealer=0, SB=1, BB=2, UTG=0
    // dealer=1 → SB=2, BB=0, UTG=1
    // UTG raises to 6, SB folds, BB folds
    let mut agents: Vec<Player> = vec![
        scripted(vec![Action::Fold]),     // seat 0 (BB)
        scripted(vec![Action::Raise(6)]), // seat 1 (UTG) — first to act
        scripted(vec![Action::Fold]),     // seat 2 (SB)
    ];
    let mut sink = NullSink;
    let result = engine.run_hand(2, 77, &stacks, 1, None, &mut agents, &mut sink);

    let deltas: Vec<i32> = (0..3)
        .map(|seat| result.seats.iter().find(|s| s.seat == seat).map(|s| s.chip_delta).unwrap_or(0))
        .collect();
    let stacks_after: Vec<u32> = (0..3)
        .map(|i| (stacks[i] as i32 + deltas[i]) as u32)
        .collect();
    assert_chips_conserved(&stacks, &deltas, &stacks_after);
    // UTG (seat 1) wins: delta should be positive.
    assert!(deltas[1] > 0, "UTG should win; deltas={deltas:?}");
}

// Split pot — two players tie at showdown (same hole cards isn't possible,
//    but identical board-play hand is). We verify conservation and that both
//    net zero when pot is split evenly.
#[test]
fn chip_conservation_heads_up_all_call() {
    let rules = BettingRules::no_limit_holdem(1, 2, 2);
    let engine = Engine::new(rules, NaiveEvaluator);
    let stacks = [100u32, 100];
    let dealer = 0;

    let mut agents: Vec<Player> =
        vec![calling(), calling()];
    let mut sink = NullSink;
    let result = engine.run_hand(3, 12345, &stacks, dealer, None, &mut agents, &mut sink);

    let deltas: Vec<i32> = result.seats.iter().map(|s| s.chip_delta).collect();
    let stacks_after: Vec<u32> = result
        .seats
        .iter()
        .map(|s| (stacks[s.seat] as i32 + s.chip_delta) as u32)
        .collect();
    assert_chips_conserved(&stacks, &deltas, &stacks_after);
}

// All-in pre-flop — side pot conservation
#[test]
fn short_stack_allin_chips_conserved() {
    let rules = nlhe_rules();
    let engine = Engine::new(rules, NaiveEvaluator);
    // Seat 1 (SB, 5 chips) goes all-in. SB's all-in re-opens action, so
    // UTG (seat 0) and BB (seat 2) each need to call again — use CallingStation.
    let stacks = [200u32, 5, 200]; // dealer=0, SB=1, BB=2
    let dealer = 0;

    let mut agents: Vec<Player> = vec![
        calling(),                     // seat 0 (UTG)
        scripted(vec![Action::AllIn]), // seat 1 (SB) — goes all-in
        calling(),                     // seat 2 (BB)
    ];
    let mut sink = NullSink;
    let result = engine.run_hand(4, 999, &stacks, dealer, None, &mut agents, &mut sink);

    let deltas: Vec<i32> = (0..3)
        .map(|seat| result.seats.iter().find(|s| s.seat == seat).map(|s| s.chip_delta).unwrap_or(0))
        .collect();
    let stacks_after: Vec<u32> = (0..3)
        .map(|i| (stacks[i] as i32 + deltas[i]) as u32)
        .collect();
    assert_chips_conserved(&stacks, &deltas, &stacks_after);
}

// Replay: same deck_seed produces identical board
#[test]
fn same_seed_identical_board() {
    let rules = nlhe_rules();
    let engine = Engine::new(rules, NaiveEvaluator);
    let stacks = [200u32, 200, 200];

    let run = |seed: u64| {
        let mut agents: Vec<Player> =
            vec![calling(), calling(), calling()];
        let mut sink = VecSink::default();
        engine.run_hand(1, seed, &stacks, 0, None, &mut agents, &mut sink);
        let ended = sink.events.into_iter().find_map(|e| {
            if let EngineEvent::HandEnded { result, .. } = e { Some(result) } else { None }
        }).unwrap();
        ended.board
    };

    assert_eq!(run(42), run(42), "same seed must produce same board");
    assert_ne!(run(42), run(43), "different seeds should differ");
}

// Partial all-in does NOT re-open raising for players who already acted.
//
// Post-flop setup (dealer=2, so post-flop order is seat 0, 1, 2):
//   Seat 0 (A, 200 chips): bets 10  → acted at current_bet=10, can re-raise later
//   Seat 1 (B, 200 chips): calls 10 → acted at current_bet=10
//   Seat 2 (C,  15 chips): all-in for 15  → increment=5 < min_raise(10): PARTIAL raise
//
// After C's partial all-in current_bet=15. A and B each owe 5 more.
// Because the raise was sub-minimum, A and B may only call — can_raise must be false.
#[test]
fn partial_allin_does_not_reopen_action() {
    let rules = BettingRules::no_limit_holdem(1, 2, 3);
    let engine = Engine::new(rules, NaiveEvaluator);
    // dealer=2: SB=0 posts 1, BB=1 posts 2. UTG=2 calls 2, SB calls 1 more, BB checks.
    // Post-flop: A bets 10, B calls 10, C all-in for 13 (increment=3 < min_raise=10).
    let stacks = [200u32, 200, 15];
    let dealer = 2;

    let a = capturing(vec![
        Action::Call,     // SB preflop: call 1 more
        Action::Raise(10), // A post-flop: bet 10
        Action::Call,     // A post-flop: call C's extra 3
    ]);
    let b = capturing(vec![
        Action::Check,    // BB option preflop
        Action::Call,     // B post-flop: call 10
        Action::Call,     // B post-flop: call C's extra 3
    ]);
    let c = capturing(vec![
        Action::Call,     // UTG preflop: call 2
        Action::AllIn,    // C post-flop: all-in for 13
    ]);


    let mut agents: Vec<Player> = vec![a, b, c];
    let mut sink = NullSink;
    let result = engine.run_hand(1, 42, &stacks, dealer, None, &mut agents, &mut sink);

    // Chip conservation.
    let deltas: Vec<i32> = (0..3)
        .map(|s| result.seats.iter().find(|o| o.seat == s).map(|o| o.chip_delta).unwrap_or(0))
        .collect();
    let stacks_after: Vec<u32> = (0..3)
        .map(|i| (stacks[i] as i32 + deltas[i]) as u32)
        .collect();
    assert_chips_conserved(&stacks, &deltas, &stacks_after);

    // A's captured legal actions: index 0 = SB preflop, index 1 = post-flop bet, index 2 = post-flop second act.
    let a_captured = captured(&agents[0]);
    let b_captured = captured(&agents[1]);

    // A's 3rd action (index 2): post-flop second act after C's partial all-in.
    // can_raise must be false — partial all-in does not re-open action.
    assert!(
        !a_captured[2].can_raise,
        "A must not be able to raise after a partial all-in: {:?}",
        a_captured[2]
    );
    // B's 3rd action (index 2): same requirement.
    assert!(
        !b_captured[2].can_raise,
        "B must not be able to raise after a partial all-in: {:?}",
        b_captured[2]
    );
}

// Full all-in DOES re-open raising.
//    Same setup, but C has 25 chips → all-in for 23 post-flop (increment=13 >= min_raise=10).
#[test]
fn full_allin_reopens_action() {
    let rules = BettingRules::no_limit_holdem(1, 2, 3);
    let engine = Engine::new(rules, NaiveEvaluator);
    // C(seat2) = 25 chips. Preflop UTG calls 2 → 23 left.
    // Post-flop: A bets 10, B calls 10, C all-in for 23 (increment 13 >= min_raise 10). FULL.
    let stacks = [200u32, 200, 25];
    let dealer = 2;

    // A: [Call(SB preflop), Raise(10)(post-flop), Call(call C's raise)]
    // B: [Check(BB option), Call(post-flop), Call]
    // C: [Call(UTG preflop), AllIn(post-flop)]
    let a = capturing(vec![
        Action::Call,
        Action::Raise(10),
        Action::Call,
    ]);
    let b = capturing(vec![
        Action::Check,
        Action::Call,
        Action::Call,
    ]);

    let mut agents: Vec<Player> = vec![
        a,
        b,
        capturing(vec![Action::Call, Action::AllIn]),
    ];
    let mut sink = NullSink;
    let result = engine.run_hand(1, 42, &stacks, dealer, None, &mut agents, &mut sink);

    let deltas: Vec<i32> = (0..3)
        .map(|s| result.seats.iter().find(|o| o.seat == s).map(|o| o.chip_delta).unwrap_or(0))
        .collect();
    let stacks_after: Vec<u32> = (0..3).map(|i| (stacks[i] as i32 + deltas[i]) as u32).collect();
    assert_chips_conserved(&stacks, &deltas, &stacks_after);

    let a_captured = captured(&agents[0]);
    let b_captured = captured(&agents[1]);

    // A and B's 3rd action: full raise by C re-opens action → can_raise must be true
    // (assuming they have enough chips, which they do at 190+ remaining).
    assert!(
        a_captured[2].can_raise,
        "A must be able to raise after a full all-in raise: {:?}",
        a_captured[2]
    );
    assert!(
        b_captured[2].can_raise,
        "B must be able to raise after a full all-in raise: {:?}",
        b_captured[2]
    );
}

// Multiple partial all-ins: cumulative chips correct, no phantom reopens.
//    Seat 2 (C=13) and seat 0 (A) both have short stacks that partially raise.
//    Uses CallingStation for simplicity; verifies chip conservation only.
#[test]
fn multiple_partial_allins_chips_conserved() {
    let rules = BettingRules::no_limit_holdem(1, 2, 4);
    let engine = Engine::new(rules, NaiveEvaluator);
    let stacks = [13u32, 13, 200, 200];
    let dealer = 3;

    let mut agents: Vec<Player> = vec![
        calling(),
        calling(),
        calling(),
        calling(),
    ];
    let mut sink = NullSink;
    let result = engine.run_hand(1, 7, &stacks, dealer, None, &mut agents, &mut sink);

    let deltas: Vec<i32> = (0..4)
        .map(|s| result.seats.iter().find(|o| o.seat == s).map(|o| o.chip_delta).unwrap_or(0))
        .collect();
    let stacks_after: Vec<u32> = (0..4).map(|i| (stacks[i] as i32 + deltas[i]) as u32).collect();
    assert_chips_conserved(&stacks, &deltas, &stacks_after);
}

// Per-seat starting stacks: verify the engine accepts different stacks
//     per seat and that the asymmetry is preserved in chip deltas.
#[test]
fn asymmetric_stacks_chips_conserved() {
    let rules = BettingRules::no_limit_holdem(1, 2, 3);
    let engine = Engine::new(rules, NaiveEvaluator);
    let stacks = [500u32, 20, 300];
    let dealer = 0;

    let mut agents: Vec<Player> = vec![calling(), calling(), calling()];
    let mut sink = NullSink;
    let result = engine.run_hand(1, 55, &stacks, dealer, None, &mut agents, &mut sink);

    let deltas: Vec<i32> = (0..3)
        .map(|s| result.seats.iter().find(|o| o.seat == s).map(|o| o.chip_delta).unwrap_or(0))
        .collect();
    let stacks_after: Vec<u32> = (0..3).map(|i| (stacks[i] as i32 + deltas[i]) as u32).collect();
    assert_chips_conserved(&stacks, &deltas, &stacks_after);
}

// Cumulative short all-ins reopen action (TDA Rule 47A).
//
// Two sequential short all-ins whose increments individually fall below the
// current min-raise but together meet or exceed it must reopen betting for
// players who previously closed the action.
//
// 4-player setup with dealer=3 (SB=0, BB=1, UTG=2, CO=3):
//   Stacks: [200, 200, 15, 22]
//   Preflop: UTG(2) calls 2, CO(3) calls 2, SB(0) calls 1 more, BB(1) checks.
//   Remaining: A=198, B=198, C=13, D=20.
// Post-flop order starts at seat 0 (A):
//   A bets 10              current_bet=10, min_raise_inc=10
//   B calls 10
//   C all-in for 13        increment=3 (short): cumulative=3
//   D all-in for 20        increment=7 (short): cumulative=10 >= 10 → reopens
//   A's next turn: can_raise must be TRUE.
//   B's next turn: can_raise must be TRUE.
#[test]
fn cumulative_short_all_ins_reopen_action() {
    let rules = BettingRules::no_limit_holdem(1, 2, 4);
    let engine = Engine::new(rules, NaiveEvaluator);
    let stacks = [200u32, 200, 15, 22];
    let dealer = 3;

    // A (seat 0, SB): preflop calls 1, post-flop bets 10, then calls the
    // cumulative bump to 20 on its reopened turn.
    let a = capturing(vec![
        Action::Call,
        Action::Raise(10),
        Action::Call,
    ]);
    // B (seat 1, BB): preflop checks option, post-flop calls 10, then calls
    // the bump to 20.
    let b = capturing(vec![
        Action::Check,
        Action::Call,
        Action::Call,
    ]);

    // C (seat 2, UTG): calls 2 preflop, all-in post-flop.
    // D (seat 3, CO): calls 2 preflop, all-in post-flop.
    let mut agents: Vec<Player> = vec![
        a,
        b,
        capturing(vec![Action::Call, Action::AllIn]),
        capturing(vec![Action::Call, Action::AllIn]),
    ];
    let mut sink = NullSink;
    let result = engine.run_hand(1, 42, &stacks, dealer, None, &mut agents, &mut sink);

    // Chip conservation.
    let deltas: Vec<i32> = (0..4)
        .map(|s| result.seats.iter().find(|o| o.seat == s).map(|o| o.chip_delta).unwrap_or(0))
        .collect();
    let stacks_after: Vec<u32> = (0..4).map(|i| (stacks[i] as i32 + deltas[i]) as u32).collect();
    assert_chips_conserved(&stacks, &deltas, &stacks_after);

    let a_captured = captured(&agents[0]);
    let b_captured = captured(&agents[1]);

    // Indices: [0]=preflop, [1]=post-flop initial, [2]=post-flop after shorts.
    assert!(
        a_captured[2].can_raise,
        "A must be able to raise after cumulative shorts meet min-raise: {:?}",
        a_captured[2]
    );
    assert!(
        b_captured[2].can_raise,
        "B must be able to raise after cumulative shorts meet min-raise: {:?}",
        b_captured[2]
    );
}

// Dead-hand blind: seat is dealt cards and posts BB as normal, but the
//     hand is automatically folded and excluded from stats / winnings.
#[test]
fn dead_hand_blind_posted_and_hand_excluded() {
    let rules = BettingRules::no_limit_holdem(1, 2, 3);
    let engine = Engine::new(rules, NaiveEvaluator);
    let stacks = [200u32, 200, 200];
    let dealer = 0; // SB=1, BB=2 → seat 2 is the dead BB

    let seat_kinds = [SeatKind::Live, SeatKind::Live, SeatKind::DeadHand];

    let mut agents: Vec<Player> = vec![calling(), calling(), calling()];
    let mut sink = NullSink;
    let result = engine.run_hand(
        1, 12345, &stacks, dealer, Some(&seat_kinds), &mut agents, &mut sink,
    );

    // Dead-hand seat must be flagged and may not net positive (they cannot
    // win the pot — at best they lose exactly what they posted).
    let dead = result.seats.iter().find(|s| s.seat == 2).unwrap();
    assert!(dead.sat_out, "dead-hand seat must have sat_out=true");
    assert_eq!(
        dead.chip_delta, -2,
        "dead-hand seat should lose exactly its BB post (2): got {}",
        dead.chip_delta
    );
    assert!(
        dead.hole_cards.is_some(),
        "dead hand is still dealt cards for audit"
    );

    // Chip conservation.
    let deltas: Vec<i32> = (0..3)
        .map(|s| result.seats.iter().find(|o| o.seat == s).map(|o| o.chip_delta).unwrap_or(0))
        .collect();
    let stacks_after: Vec<u32> = (0..3).map(|i| (stacks[i] as i32 + deltas[i]) as u32).collect();
    assert_chips_conserved(&stacks, &deltas, &stacks_after);
}

fn nlhe(seats: usize) -> BettingRules {
    BettingRules::no_limit_holdem(1, 2, seats)
}

fn assert_deltas_cancel(starting: &[u32], deltas: &[i32]) {
    let before: i64 = starting.iter().map(|&s| s as i64).sum();
    let total_delta: i64 = deltas.iter().map(|&d| d as i64).sum();
    let after: i64 = before + total_delta;
    assert_eq!(before, after, "chip conservation broken: before={before}, after={after}, deltas={deltas:?}");
}

// 6-max chip conservation over many hands with mixed agents.
//
// Six seats stress-test the dealer/blind rotation logic, persistent-stack handling across more
// players, and the side-pot path under deeper action sequences.
#[test]
fn six_max_mixed_agents_chip_conservation_long_run() {
    let starting = vec![300u32; 6];
    let mut agents: Vec<Player> = vec![
        Player::Random(RandomAgent::new(1)),
        calling(),
        Player::Random(RandomAgent::new(3)),
        calling(),
        Player::Random(RandomAgent::new(5)),
        calling(),
    ];
    let mut runner = SimRunner::new(
        Engine::new(nlhe(6), NaiveEvaluator),
        std::mem::take(&mut agents),
        starting.clone(),
    );

    let result = runner.run(500, &SimConfig::deterministic(2026), &mut NullSink);
    assert_eq!(result.hands_played, 500);

    let total: i64 = result.chip_deltas.iter().sum();
    assert_eq!(total, 0, "6-max chip total drifted: deltas={:?}", result.chip_deltas);
    // Note: with `StackPolicy::Reset`, per-seat cumulative deltas are
    // unbounded across many hands (each hand begins fresh at 300). The
    // single-stack floor check belongs in the persistent-stacks test.
}

// Property fuzz: many short runs with varied seat counts and seeds.
//
// We cover 2/3/4/6 seats with random agents across many seeds, asserting
// no panic and chip conservation per seed. This is the catch-all for
// silent breakage in dealer rotation, dead-button edges, and the
// uncontested path under random action sequences.
#[test]
fn fuzz_random_play_chip_conservation_across_seat_counts() {
    for &seats in &[2usize, 3, 4, 6] {
        let starting = vec![200u32; seats];
        for base_seed in 0..40u64 {
            let agents: Vec<Player> = (0..seats)
                .map(|i| -> Player {
                    Player::Random(RandomAgent::new(base_seed.wrapping_mul(31) + i as u64))
                })
                .collect();
            let mut runner = SimRunner::new(
                Engine::new(nlhe(seats), NaiveEvaluator),
                agents,
                starting.clone(),
            );
            let cfg = SimConfig {
                seed: SeedMode::Sequential(base_seed.wrapping_mul(101).wrapping_add(7)),
                stack_policy: StackPolicy::Reset,
            };
            let result = runner.run(60, &cfg, &mut NullSink);
            let total: i64 = result.chip_deltas.iter().sum();
            assert_eq!(
                total, 0,
                "fuzz {seats}-max seed={base_seed} drifted: deltas={:?}",
                result.chip_deltas
            );
        }
    }
}

// Three-way all-in cascade with three different stacks.
//
// Configures stacks 30/60/100 and forces all three players to commit
// their full stack preflop. Side-pot eligibility:
//   - Main pot: 30 × 3 = 90, all three eligible
//   - Side 1:   30 × 2 = 60, the two larger stacks eligible
//   - Side 2:   40 × 1 = 40, only the largest stack eligible (uncontested
//                 — they get their excess back)
// We don't pin a specific winner (deck is randomized), but we assert that
// every chip stays accounted for and that the largest stack at minimum
// gets back its uncontested 40 chips beyond any matched commitment.
#[test]
fn three_way_allin_cascade_distributes_correctly() {
    let rules = nlhe(3);
    let engine = Engine::new(rules, NaiveEvaluator);
    let stacks = [30u32, 60, 100];
    let dealer: SeatIndex = 0;
    // All three go all-in preflop. SB=1, BB=2 (already posted), UTG=0
    // acts first preflop.
    //
    // Action order preflop heads-up-to-3-max is UTG, SB, BB.
    // Each player goes all-in on their first action. After all three are
    // all-in, the engine should run out the board and resolve.
    let mut agents: Vec<Player> = vec![
        scripted(vec![Action::AllIn]),
        scripted(vec![Action::AllIn]),
        scripted(vec![Action::AllIn]),
    ];
    let mut sink = VecSink::default();
    let result = engine.run_hand(1, 99, &stacks, dealer, None, &mut agents, &mut sink);

    let deltas: Vec<i32> = (0..3)
        .map(|s| {
            result
                .seats
                .iter()
                .find(|o| o.seat == s)
                .map(|o| o.chip_delta)
                .unwrap_or(0)
        })
        .collect();
    assert_deltas_cancel(&stacks, &deltas);

    // Largest stack put 100 in. The most they can lose is everything they
    // could have been called for: 30 (main level) + 30 (mid level) = 60.
    // Their 40 chips of overcommitment had no contestants, so their delta
    // can never be worse than -60.
    assert!(
        deltas[2] >= -60,
        "seat 2 (largest stack) delta {} worse than the worst-case matched loss of -60",
        deltas[2]
    );

    // Main-level players (seat 0 and 1) cannot win more chips than the
    // total non-self contributions to the pots they can win. Concretely:
    // - seat 0 (30 stack) can win the main pot (90 total), so delta ≤ +60
    //   (they keep their own 30 plus opponents' 60).
    // - seat 1 (60 stack) can win main + side1 (90+60=150), so delta ≤ +90.
    assert!(
        deltas[0] <= 60,
        "seat 0 (30 stack) delta {} exceeds max possible +60",
        deltas[0]
    );
    assert!(
        deltas[1] <= 90,
        "seat 1 (60 stack) delta {} exceeds max possible +90",
        deltas[1]
    );
}

// Persistent stacks across many hands at 6-max: busted seats should
//    sit out cleanly, total chips remain conserved, and the runner
//    handles dealer rotation past sat-out players without panicking.
#[test]
fn six_max_busted_seats_handled_across_hands() {
    // Asymmetric starting stacks so at least one will likely bust early
    // under random play.
    let starting = vec![20u32, 40, 60, 80, 100, 200];
    let agents: Vec<Player> = (0..6)
        .map(|i| -> Player { Player::Random(RandomAgent::new(100 + i as u64)) })
        .collect();
    let mut runner = SimRunner::new(
        Engine::new(nlhe(6), NaiveEvaluator),
        agents,
        starting.clone(),
    );
    let cfg = SimConfig {
        seed: SeedMode::Sequential(7),
        stack_policy: StackPolicy::Persistent,
    };
    let result = runner.run(300, &cfg, &mut NullSink);

    let total: i64 = result.chip_deltas.iter().sum();
    assert_eq!(
        total, 0,
        "6-max chip total drifted with busted seats: deltas={:?}",
        result.chip_deltas
    );

    // No seat ended below zero stack.
    for (i, &delta) in result.chip_deltas.iter().enumerate() {
        let final_stack = starting[i] as i64 + delta as i64;
        assert!(
            final_stack >= 0,
            "seat {i} ended at stack {final_stack} (delta={delta}, start={})",
            starting[i]
        );
    }
}

// What holds of every hand, on concrete ones

fn spent(result: &HandResult) -> Vec<i32> {
    result.seats.iter().map(|s| s.chip_delta).collect()
}

#[test]
fn stepping_and_running_agree() {
    let engine = Engine::new(nlhe(3), NaiveEvaluator);
    let stacks = [100u32, 40, 70];
    for seed in 0..20u64 {
        let mut agents: Vec<Player> =
            (0..3).map(|i| Player::Random(RandomAgent::new(seed * 3 + i))).collect();
        let run = engine.run_hand(seed, seed, &stacks, 1, None, &mut agents, &mut NullSink);

        let mut agents: Vec<Player> =
            (0..3).map(|i| Player::Random(RandomAgent::new(seed * 3 + i))).collect();
        let mut tree = GameTree::new(&engine, seed, seed, &stacks, 1, None, &mut NullSink);
        while let NodeKind::Decision { seat, .. } = tree.current() {
            let owned = tree.observation_owned(&engine).unwrap();
            let action = agents[seat].act(&owned.as_observation());
            tree.apply_action(&engine, action, &mut NullSink);
        }
        let stepped = tree.into_result(seed);
        assert_eq!(spent(&run), spent(&stepped));
        assert_eq!(run.board, stepped.board);
    }
}

#[test]
fn no_card_is_dealt_twice() {
    let engine = Engine::new(nlhe(6), RsPokerEvaluator);
    let mut agents: Vec<Player> = (0..6).map(|_| calling()).collect();
    let mut sink = VecSink::default();
    engine.run_hand(1, 3, &[100; 6], 0, None, &mut agents, &mut sink);
    let mut dealt: Vec<Card> = Vec::new();
    for e in &sink.events {
        match e {
            EngineEvent::HoleCardsDealt { cards, .. } => dealt.extend(cards.iter().copied()),
            EngineEvent::BoardDealt { cards, .. } => dealt.extend(cards.iter().copied()),
            _ => {}
        }
    }
    assert_eq!(dealt.len(), 17);
    let mut numbers: Vec<usize> = dealt.iter().map(|c| c.index()).collect();
    numbers.sort();
    numbers.dedup();
    assert_eq!(numbers.len(), 17);
}

#[test]
fn nobody_loses_more_than_their_stack() {
    let engine = Engine::new(nlhe(4), NaiveEvaluator);
    let stacks = [5u32, 1, 40, 200];
    for seed in 0..50u64 {
        let mut agents: Vec<Player> =
            (0..4).map(|i| Player::Random(RandomAgent::new(seed + i))).collect();
        let result = engine.run_hand(seed, seed, &stacks, (seed % 4) as usize, None, &mut agents, &mut NullSink);
        assert_eq!(spent(&result).iter().sum::<i32>(), 0);
        for s in &result.seats {
            assert!(s.chip_delta >= -(stacks[s.seat] as i32));
        }
    }
}

#[test]
fn offers_are_legal_actions() {
    let engine = Engine::new(nlhe(3), NaiveEvaluator);
    let tree = GameTree::new(&engine, 1, 5, &[100, 100, 100], 0, None, &mut NullSink);
    let la = tree.legal_actions(&engine).unwrap();
    assert!(!la.can_check);
    assert!(la.can_call);
    assert_eq!(la.call_amount, 2);
    assert!(la.can_raise);
    assert_eq!(la.min_raise, 4);
    assert_eq!(la.max_raise, 100);
    assert_eq!(la.all_in_amount, 100);
}

#[test]
fn heads_up_the_dealer_is_the_small_blind() {
    let engine = Engine::new(nlhe(2), NaiveEvaluator);
    let mut tree = GameTree::new(&engine, 1, 5, &[100, 100], 1, None, &mut NullSink);
    assert_eq!(tree.state.players[1].bet_this_street, 1);
    assert_eq!(tree.state.players[0].bet_this_street, 2);
    // The dealer acts first before the flop, and last after it.
    assert_eq!(tree.current(), NodeKind::Decision { seat: 1 });
    tree.apply_action(&engine, Action::Call, &mut NullSink);
    tree.apply_action(&engine, Action::Check, &mut NullSink);
    assert_eq!(tree.current(), NodeKind::Decision { seat: 0 });
    // Two players left at a longer table are heads-up too, if the dealer is one.
    let tree = GameTree::new(&engine, 1, 5, &[100, 0, 100], 2, None, &mut NullSink);
    assert_eq!(tree.state.players[2].bet_this_street, 1);
    assert_eq!(tree.state.players[0].bet_this_street, 2);
    let tree = GameTree::new(&engine, 1, 5, &[100, 0, 100], 1, None, &mut NullSink);
    assert_eq!(tree.state.players[2].bet_this_street, 1);
}

#[test]
fn a_pot_limit_raise_is_the_call_and_the_pot_after_it() {
    let rules = BettingRules { variant: BetVariant::PotLimit, ..nlhe(3) };
    let engine = Engine::new(rules, NaiveEvaluator);
    let mut tree = GameTree::new(&engine, 1, 5, &[100; 3], 0, None, &mut NullSink);
    tree.apply_action(&engine, Action::Call, &mut NullSink);
    tree.apply_action(&engine, Action::Call, &mut NullSink);
    tree.apply_action(&engine, Action::Check, &mut NullSink);
    // Six chips in the pot and nothing to call.
    assert_eq!(tree.legal_actions(&engine).unwrap().max_raise, 6);
    tree.apply_action(&engine, Action::Raise(4), &mut NullSink);
    // Four to call, and ten in the pot after the call.
    assert_eq!(tree.legal_actions(&engine).unwrap().max_raise, 14);
}

#[test]
fn hands_with_antes_come_to_an_end() {
    let rules = BettingRules { ante: 1, ..nlhe(3) };
    let engine = Engine::new(rules, NaiveEvaluator);
    for seed in 0..20u64 {
        let mut agents: Vec<Player> = vec![calling(), calling(), calling()];
        let result = engine.run_hand(1, seed, &[50; 3], 0, None, &mut agents, &mut NullSink);
        assert_eq!(result.board.len(), 5);
        assert_eq!(spent(&result).iter().sum::<i32>(), 0);
    }
}

#[test]
fn who_is_above_the_bet_is_asked_once() {
    let rules = BettingRules { ante: 1, ..nlhe(3) };
    let engine = Engine::new(rules, NaiveEvaluator);
    let mut tree = GameTree::new(&engine, 1, 4, &[50; 3], 0, None, &mut NullSink);
    tree.apply_action(&engine, Action::Call, &mut NullSink);
    tree.apply_action(&engine, Action::Check, &mut NullSink);
    // The big blind has put in three chips where two are to match.
    assert_eq!(tree.current(), NodeKind::Decision { seat: 2 });
    assert_eq!(tree.state.action_on, Some(2));
    tree.apply_action(&engine, Action::Check, &mut NullSink);
    assert_eq!(tree.state.street, poker::game::Street::Flop);
    assert_eq!(tree.state.action_on, Some(1));
}

#[test]
fn all_in_from_the_blinds_goes_to_the_first_in_play() {
    let engine = Engine::new(nlhe(2), NaiveEvaluator);
    for seed in 0..30u64 {
        let mut sink = VecSink::default();
        let tree = GameTree::new(&engine, 1, seed, &[1, 1], 0, None, &mut sink);
        assert_eq!(tree.current(), NodeKind::Terminal);
        assert_eq!(tree.state.action_on, None);
        let stepped = tree.into_result(1);
        assert!(stepped.board.is_empty());
        assert_eq!(spent(&stepped), vec![1, -1]);

        let mut agents: Vec<Player> = vec![scripted(vec![]), scripted(vec![])];
        let mut run_sink = VecSink::default();
        let ran = engine.run_hand(1, seed, &[1, 1], 0, None, &mut agents, &mut run_sink);
        assert_eq!(spent(&ran), spent(&stepped));
        assert_eq!(ran.board, stepped.board);
        assert_eq!(run_sink.events.len(), sink.events.len() + 1);
    }
    // An empty seat is not in play: the pot goes to the next one.
    let engine = Engine::new(nlhe(3), NaiveEvaluator);
    let mut agents: Vec<Player> = vec![calling(), calling(), calling()];
    let ran = engine.run_hand(1, 4, &[0, 1, 2], 0, None, &mut agents, &mut NullSink);
    assert!(ran.board.is_empty());
    assert_eq!(spent(&ran), vec![2, -2]);
}

#[test]
fn odd_chips_go_left_of_the_dealer() {
    // The small blind folds one chip, and two hands that tie share five.
    let engine = Engine::new(nlhe(3), NaiveEvaluator);
    let mut ties = 0;
    for seed in 0..400u64 {
        let mut agents: Vec<Player> = vec![calling(), scripted(vec![Action::Fold]), calling()];
        let result = engine.run_hand(1, seed, &[50; 3], 0, None, &mut agents, &mut NullSink);
        let deltas = spent(&result);
        if deltas[0] != -2 && deltas[2] != -2 {
            ties += 1;
            assert_eq!(deltas, vec![0, -1, 1]);
        }
    }
    assert!(ties > 0);
}

#[test]
fn empty_seats_are_not_dealt_in() {
    let engine = Engine::new(nlhe(3), NaiveEvaluator);
    let mut agents: Vec<Player> = vec![calling(), calling(), calling()];
    let result = engine.run_hand(1, 9, &[100, 0, 100], 0, None, &mut agents, &mut NullSink);
    let empty = result.seats.iter().find(|s| s.seat == 1);
    assert!(empty.map(|s| s.chip_delta).unwrap_or(0) == 0);
    assert!(empty.and_then(|s| s.hole_cards).is_none());
    assert_eq!(spent(&result).iter().sum::<i32>(), 0);
}

#[test]
fn players_in_play_are_counted() {
    let engine = Engine::new(nlhe(4), NaiveEvaluator);
    let mut tree = GameTree::new(&engine, 1, 9, &[100, 0, 100, 2], 0, None, &mut NullSink);
    // Seat 2 is the small blind, seat 3 is all-in with the big blind.
    assert_eq!(tree.state.players_still_in(), 3);
    let active: Vec<usize> = tree.state.active_players().iter().map(|(i, _)| *i).collect();
    assert_eq!(active, vec![0, 2, 3]);
    tree.apply_action(&engine, Action::Fold, &mut NullSink);
    assert_eq!(tree.state.players_still_in(), 2);
}

#[test]
fn the_better_hand_takes_the_pot() {
    let engine = Engine::new(nlhe(3), NaiveEvaluator);
    for seed in 0..30u64 {
        let mut agents: Vec<Player> = vec![calling(), calling(), calling()];
        let result = engine.run_hand(1, seed, &[50; 3], 0, None, &mut agents, &mut NullSink);
        let rank = |seat: usize| {
            let [a, b] = result.seats[seat].hole_cards.unwrap();
            let c = &result.board;
            NaiveEvaluator.rank_7([a, b, c[0], c[1], c[2], c[3], c[4]])
        };
        let best = (0..3).map(rank).max().unwrap();
        for seat in 0..3 {
            if rank(seat) < best {
                assert_eq!(result.seats[seat].chip_delta, -2);
            } else {
                assert!(result.seats[seat].chip_delta >= 0);
            }
        }
    }
}
