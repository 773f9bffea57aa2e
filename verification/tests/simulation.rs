//! Runs of many hands, work split among workers, and statistics.

use poker::agent::builtin::{CallingStation, RandomAgent};
use poker::agent::{Agent, Observation, RunConfig};
use poker::cards::NaiveEvaluator;
use poker::game::{
    Action, BettingRules, Engine, EngineEvent, EventSink, HandId, HandResult, NullSink, SeatOutcome,
    Street, VecSink,
};
use poker::sim::config::{thread_config, thread_hands};
use poker::sim::runner::next_dealer;
use poker::sim::{SeedMode, SimConfig, SimResult, SimRunner, StackPolicy};
use poker::stats::{SeatStats, StatsSink};

/// The players of these tests.
enum Player {
    Calling(CallingStation),
    Random(RandomAgent),
}

impl Agent for Player {
    fn act(&mut self, obs: &Observation<'_>) -> Action {
        match self {
            Player::Calling(a) => a.act(obs),
            Player::Random(a) => a.act(obs),
        }
    }

    fn on_event(&mut self, _event: &EngineEvent) {}

    fn on_run_start(&mut self, _config: &RunConfig) {}

    fn on_run_end(&mut self) {}

    fn on_hand_start(&mut self, _hand_id: HandId) {}

    fn on_hand_end(&mut self, _result: &HandResult) {}
}

/// The shares of `threads` workers, one after the other, put together.
fn run_split(
    hands: usize,
    threads: usize,
    stacks: &Vec<u32>,
    engine: &dyn Fn() -> Engine<NaiveEvaluator>,
    agents: &dyn Fn() -> Vec<Player>,
    config: &SimConfig,
) -> SimResult {
    let results: Vec<SimResult> = (0..threads)
        .map(|t| {
            let share = thread_hands(hands, threads, t);
            let config = thread_config(config, t, hands / threads, hands % threads);
            let mut runner = SimRunner::new_seeded(engine(), agents(), stacks.clone(), t as u64);
            runner.run(share, &config, &mut NullSink)
        })
        .collect();
    SimResult::merge(&results)
}

fn chips_per_hand(result: &SimResult) -> Vec<f64> {
    result.chip_deltas.iter().map(|&d| d as f64 / result.hands_played as f64).collect()
}

fn percent(part: u64, whole: u64) -> f64 {
    100.0 * part as f64 / whole as f64
}

fn avg_pot(stats: &StatsSink) -> f64 {
    stats.seats[0].total_pot as f64 / stats.hands_played() as f64
}

fn calling_agents(n: usize) -> Vec<Player> {
    (0..n).map(|_| -> Player { Player::Calling(CallingStation) }).collect()
}

fn random_agents(n: usize, base_seed: u64) -> Vec<Player> {
    (0..n)
        .map(|i| -> Player { Player::Random(RandomAgent::new(base_seed + i as u64)) })
        .collect()
}

fn nlhe3() -> BettingRules {
    BettingRules::no_limit_holdem(1, 2, 3)
}

// Chip conservation over many hands
#[test]
fn chip_conservation_100_hands() {
    let mut runner = SimRunner::new(
        Engine::new(nlhe3(), NaiveEvaluator),
        calling_agents(3),
        vec![500u32; 3],
    );
    let result = runner.run(100, &SimConfig::deterministic(1), &mut NullSink);
    let sum: i64 = result.chip_deltas.iter().sum();
    assert_eq!(sum, 0, "chips must be conserved over 100 hands: {:?}", result.chip_deltas);
    assert_eq!(result.hands_played, 100);
}

// Determinism: identical config → identical deltas
#[test]
fn deterministic_runs_are_identical() {
    let config = SimConfig::deterministic(42);
    let run = || {
        let mut r = SimRunner::new_seeded(
            Engine::new(nlhe3(), NaiveEvaluator),
            calling_agents(3),
            vec![200u32; 3],
            0,
        );
        r.run(50, &config, &mut NullSink).chip_deltas
    };
    assert_eq!(run(), run());
}

// Different seeds produce different boards (not just different deltas)
#[test]
fn different_seeds_produce_different_boards() {
    let board_from_seed = |seed: u64| {
        let mut sink = VecSink::default();
        let mut r = SimRunner::new_seeded(
            Engine::new(nlhe3(), NaiveEvaluator),
            calling_agents(3),
            vec![200u32; 3],
            0,
        );
        r.run(1, &SimConfig::deterministic(seed), &mut sink);
        sink.events.into_iter().find_map(|e| {
            if let EngineEvent::HandEnded { result, .. } = e { Some(result.board) } else { None }
        }).unwrap()
    };
    assert_ne!(board_from_seed(1), board_from_seed(2));
}

// Persistent stacks carry over — running total reflects actual play
#[test]
fn persistent_stacks_carry_over() {
    let starting = vec![50u32; 3];
    let mut runner = SimRunner::new(
        Engine::new(nlhe3(), NaiveEvaluator),
        calling_agents(3),
        starting.clone(),
    );
    let config = SimConfig { seed: SeedMode::Sequential(10), stack_policy: StackPolicy::Persistent };
    let result = runner.run(20, &config, &mut NullSink);

    // Final stacks + cumulative losses = starting total chips in play
    let total_start: u32 = starting.iter().sum();
    let total_final: u32 = result.final_stacks.iter().sum();
    assert_eq!(
        total_start, total_final,
        "total chips in play must be conserved: start={total_start}, final={total_final}"
    );
}

// reset_stacks restores starting stacks
#[test]
fn reset_stacks_restores_starting() {
    let starting = vec![100u32; 3];
    let mut runner = SimRunner::new(
        Engine::new(nlhe3(), NaiveEvaluator),
        calling_agents(3),
        starting.clone(),
    );
    let config = SimConfig { seed: SeedMode::Sequential(1), stack_policy: StackPolicy::Persistent };
    runner.run(30, &config, &mut NullSink);
    runner.reset_stacks();
    let result = runner.run(1, &SimConfig::deterministic(999), &mut NullSink);
    // After reset, starting stacks are used for the next hand.
    assert_eq!(result.final_stacks.iter().sum::<u32>(), starting.iter().sum::<u32>());
}

// Parallel runner: aggregate chip conservation
#[test]
fn parallel_chip_conservation() {
    let stacks = vec![200u32; 3];
    let config = SimConfig::deterministic(77);
    let result = run_split(
        200,
        4,
        &stacks,
        &|| Engine::new(nlhe3(), NaiveEvaluator),
        &|| calling_agents(3),
        &config,
    );
    let sum: i64 = result.chip_deltas.iter().sum();
    assert_eq!(sum, 0, "parallel: chips must be conserved: {:?}", result.chip_deltas);
    assert_eq!(result.hands_played, 200);
}

// Parallel vs sequential: same total hands played
#[test]
fn parallel_correct_hand_count() {
    let stacks = vec![200u32; 3];
    let config = SimConfig::deterministic(1);
    for threads in [1, 2, 3, 5, 7] {
        let result = run_split(
            100, threads, &stacks,
            &|| Engine::new(nlhe3(), NaiveEvaluator),
            &|| calling_agents(3),
            &config,
        );
        assert_eq!(result.hands_played, 100, "threads={threads}");
    }
}

// Random agents also conserve chips (not a calling-station artifact)
#[test]
fn random_agents_chip_conservation() {
    let mut runner = SimRunner::new(
        Engine::new(nlhe3(), NaiveEvaluator),
        random_agents(3, 100),
        vec![200u32; 3],
    );
    let result = runner.run(100, &SimConfig::deterministic(5), &mut NullSink);
    let sum: i64 = result.chip_deltas.iter().sum();
    assert_eq!(sum, 0, "random agents: {:?}", result.chip_deltas);
}

// chips_per_hand sums to zero
#[test]
fn chips_per_hand_zero_sum() {
    let mut runner = SimRunner::new_seeded(
        Engine::new(nlhe3(), NaiveEvaluator),
        calling_agents(3),
        vec![200u32; 3],
        0,
    );
    let result = runner.run(200, &SimConfig::deterministic(1), &mut NullSink);
    let total: f64 = chips_per_hand(&result).iter().sum();
    assert!(total.abs() < 1e-9, "chips/hand must sum to 0: {total}");
}


fn make_runner(n_seats: usize) -> SimRunner<NaiveEvaluator, Player> {
    let engine = Engine::new(
        BettingRules::no_limit_holdem(1, 2, n_seats),
        NaiveEvaluator,
    );
    let agents: Vec<Player> = (0..n_seats).map(|_| {
        let b: Player = Player::Calling(CallingStation);
        b
    }).collect();
    let stacks = vec![200u32; n_seats];
    SimRunner::new(engine, agents, stacks)
}

#[test]
fn single_thread_chip_conservation() {
    let mut runner = make_runner(3);
    let config = SimConfig::deterministic(1);
    let result = runner.run(50, &config, &mut NullSink);
    assert_eq!(result.hands_played, 50);
    let sum_deltas: i64 = result.chip_deltas.iter().sum();
    assert_eq!(sum_deltas, 0, "chips must be conserved: {:?}", result.chip_deltas);
}

#[test]
fn sequential_seeds_deterministic() {
    let config = SimConfig::deterministic(42);
    let run = || {
        let mut runner = make_runner(3);
        runner.run(20, &config, &mut NullSink).chip_deltas
    };
    assert_eq!(run(), run(), "same seed must yield identical results");
}

#[test]
fn persistent_stacks_non_negative() {
    let engine = Engine::new(BettingRules::no_limit_holdem(1, 2, 3), NaiveEvaluator);
    let agents: Vec<Player> = (0..3).map(|_| {
        let b: Player = Player::Calling(CallingStation);
        b
    }).collect();
    let stacks = vec![20u32; 3]; // small stacks — will bust quickly
    let mut runner = SimRunner::new(engine, agents, stacks);
    let config = SimConfig {
        seed: SeedMode::Sequential(7),
        stack_policy: StackPolicy::Persistent,
    };
    let result = runner.run(30, &config, &mut NullSink);
    assert!(result.final_stacks.iter().all(|&s| s < u32::MAX),
        "no stack overflow: {:?}", result.final_stacks);
}

#[test]
fn chips_per_hand_sums_to_zero() {
    let mut runner = make_runner(4);
    let config = SimConfig::deterministic(99);
    let result = runner.run(100, &config, &mut NullSink);
    let total: f64 = chips_per_hand(&result).iter().sum();
    assert!(total.abs() < 1e-9, "chips/hand must sum to zero: {total}");
}

fn run_stats(n: usize, hands: usize, seed: u64) -> StatsSink {
    let engine = Engine::new(BettingRules::no_limit_holdem(1, 2, n), NaiveEvaluator);
    let agents: Vec<Player> = (0..n)
        .map(|_| -> Player { Player::Calling(CallingStation) })
        .collect();
    let mut runner = SimRunner::new(engine, agents, vec![200u32; n]);
    let mut stats = StatsSink::new(n);
    runner.run(hands, &SimConfig::deterministic(seed), &mut stats);
    stats
}

#[test]
fn hands_dealt_matches_run() {
    let stats = run_stats(3, 100, 1);
    for s in &stats.seats {
        assert_eq!(s.hands_dealt, 100, "every seat sees every hand");
    }
}

#[test]
fn win_pcts_sum_to_100_approx() {
    let stats = run_stats(3, 500, 2);
    let total: f64 = stats.seats.iter().map(|s| percent(s.hands_won, s.hands_dealt)).sum();
    // May slightly exceed 100 on split pots; should be within 1%.
    assert!(
        total >= 99.0 && total <= 120.0,
        "win% total={total:.1} should be ~100 (may exceed due to split pots)"
    );
}

#[test]
fn chip_ev_sums_to_zero() {
    let stats = run_stats(3, 200, 3);
    let total: f64 = stats.seats.iter().map(|s| s.chip_delta_total as f64 / s.hands_dealt as f64).sum();
    assert!(
        total.abs() < 1e-9,
        "chip EV must be zero-sum: {total}"
    );
}

#[test]
fn calling_station_has_zero_aggression() {
    let stats = run_stats(3, 100, 4);
    for s in &stats.seats {
        assert_eq!(
            s.aggressive_actions, 0,
            "CallingStation never raises"
        );
        assert_eq!(
            s.pfr_hands, 0,
            "CallingStation never PFRs"
        );
    }
}

#[test]
fn random_agent_has_nonzero_aggression() {
    let n = 3;
    let engine = Engine::new(BettingRules::no_limit_holdem(1, 2, n), NaiveEvaluator);
    let agents: Vec<Player> = vec![
        Player::Random(RandomAgent::new(1)),
        Player::Calling(CallingStation),
        Player::Calling(CallingStation),
    ];
    let mut runner = SimRunner::new(engine, agents, vec![200u32; n]);
    let mut stats = StatsSink::new(n);
    runner.run(200, &SimConfig::deterministic(5), &mut stats);
    assert!(
        stats.seats[0].aggressive_actions > 0,
        "RandomAgent should raise sometimes"
    );
    assert!(
        stats.seats[0].pfr_hands > 0,
        "RandomAgent should PFR sometimes"
    );
}

#[test]
fn avg_pot_positive() {
    let stats = run_stats(3, 100, 6);
    assert!(avg_pot(&stats) > 0.0, "average pot must be positive");
}

#[test]
fn vpip_calling_station_equals_hands_not_in_bb() {
    // CallingStation always calls; VPIP should be high but not 100%
    // (a player in the BB who faces no raise just checks — not VPIP).
    let stats = run_stats(3, 300, 7);
    for s in &stats.seats {
        // VPIP should be between 50% and 100% for a caller.
        assert!(
            percent(s.vpip_hands, s.hands_dealt) > 40.0 && percent(s.vpip_hands, s.hands_dealt) <= 100.0,
            "VPIP={:.1}% unexpected for CallingStation",
            percent(s.vpip_hands, s.hands_dealt)
        );
    }
}

// Shares of work

#[test]
fn workers_share_the_hands() {
    let shares: Vec<usize> = (0..3).map(|t| thread_hands(10, 3, t)).collect();
    assert_eq!(shares, vec![4, 3, 3]);
    let config = SimConfig::deterministic(100);
    let starts: Vec<SeedMode> = (0..3).map(|t| thread_config(&config, t, 3, 1).seed).collect();
    assert_eq!(
        starts,
        vec![SeedMode::Sequential(100), SeedMode::Sequential(104), SeedMode::Sequential(107)]
    );
    let random = SimConfig::standard();
    assert_eq!(thread_config(&random, 2, 3, 1).seed, SeedMode::Random);
}

#[test]
fn merged_results_add_up() {
    let a = SimResult { hands_played: 3, chip_deltas: vec![5, -5], final_stacks: vec![105, 95] };
    let b = SimResult { hands_played: 4, chip_deltas: vec![-2, 2], final_stacks: vec![98, 102] };
    let m = SimResult::merge(&vec![a.clone(), b]);
    assert_eq!(m.hands_played, 7);
    assert_eq!(m.chip_deltas, vec![3, -3]);
    assert_eq!(a.hands_played, 3);
}

#[test]
fn the_button_skips_empty_seats() {
    assert_eq!(next_dealer(0, &[10, 0, 10]), 2);
    assert_eq!(next_dealer(2, &[10, 0, 10]), 0);
    assert_eq!(next_dealer(0, &[10, 0, 0]), 0);
}

#[test]
fn sequential_seeds_count_up() {
    let mut sink = VecSink::default();
    let mut runner = make_runner(3);
    runner.run(3, &SimConfig::deterministic(40), &mut sink);
    let seeds: Vec<u64> = sink
        .events
        .iter()
        .filter_map(|e| match e {
            EngineEvent::HandStarted { deck_seed, .. } => Some(*deck_seed),
            _ => None,
        })
        .collect();
    assert_eq!(seeds, vec![40, 41, 42]);
}

#[test]
fn random_seeds_come_from_the_runners_generator() {
    let mut rng: rand::rngs::SmallRng = rand::SeedableRng::seed_from_u64(11);
    let expected: Vec<u64> = (0..3).map(|_| rand::Rng::gen(&mut rng)).collect();
    let mut sink = VecSink::default();
    let mut runner = SimRunner::new_seeded(
        Engine::new(nlhe3(), NaiveEvaluator),
        calling_agents(3),
        vec![200u32; 3],
        11,
    );
    runner.run(3, &SimConfig::standard(), &mut sink);
    let seeds: Vec<u64> = sink
        .events
        .iter()
        .filter_map(|e| match e {
            EngineEvent::HandStarted { deck_seed, .. } => Some(*deck_seed),
            _ => None,
        })
        .collect();
    assert_eq!(seeds, expected);
}

#[test]
fn carried_stacks_keep_the_total() {
    let mut runner = SimRunner::new_seeded(
        Engine::new(nlhe3(), NaiveEvaluator),
        random_agents(3, 8),
        vec![10u32, 20, 30],
        0,
    );
    let config = SimConfig { seed: SeedMode::Sequential(3), stack_policy: StackPolicy::Persistent };
    let result = runner.run(40, &config, &mut NullSink);
    assert_eq!(result.final_stacks.iter().sum::<u32>(), 60);
    for (i, start) in [10i64, 20, 30].into_iter().enumerate() {
        assert_eq!(result.final_stacks[i] as i64, start + result.chip_deltas[i]);
    }
}

#[test]
fn runs_with_antes_keep_every_chip() {
    let rules = BettingRules { ante: 1, ..nlhe3() };
    let mut runner = SimRunner::new_seeded(
        Engine::new(rules, NaiveEvaluator),
        calling_agents(3),
        vec![40u32, 50, 60],
        0,
    );
    let config = SimConfig { seed: SeedMode::Sequential(3), stack_policy: StackPolicy::Persistent };
    let result = runner.run(25, &config, &mut NullSink);
    assert_eq!(result.chip_deltas.iter().sum::<i64>(), 0);
    for (i, start) in [40i64, 50, 60].into_iter().enumerate() {
        assert_eq!(result.final_stacks[i] as i64, start + result.chip_deltas[i]);
    }
    let again = runner.run(25, &config, &mut NullSink);
    let merged = SimResult::merge(&vec![result, again]);
    assert_eq!(merged.hands_played, 50);
    assert_eq!(merged.chip_deltas.iter().sum::<i64>(), 0);
}

// Statistics event by event

fn taken(seat: usize, action: Action) -> EngineEvent {
    EngineEvent::ActionTaken { seat, action, pot_total: 9 }
}

#[test]
fn statistics_follow_the_events() {
    let mut sink = StatsSink::new(3);
    assert_eq!(sink.n_seats(), 3);
    sink.on_event(&EngineEvent::HandStarted { hand_id: 1, dealer: 0, deck_seed: 1 });
    sink.on_event(&taken(0, Action::Raise(6)));
    sink.on_event(&taken(0, Action::Raise(12)));
    sink.on_event(&taken(1, Action::Call));
    sink.on_event(&taken(2, Action::Fold));
    sink.on_event(&EngineEvent::BoardDealt { street: Street::Flop, cards: vec![] });
    sink.on_event(&taken(1, Action::AllIn));
    sink.on_event(&EngineEvent::HandEnded {
        hand_id: 1,
        result: HandResult {
            hand_id: 1,
            board: vec![],
            seats: vec![
                SeatOutcome { seat: 0, hole_cards: None, chip_delta: 10, sat_out: false },
                SeatOutcome { seat: 1, hole_cards: None, chip_delta: -8, sat_out: false },
                SeatOutcome { seat: 2, hole_cards: None, chip_delta: -2, sat_out: true },
            ],
        },
    });
    let s = &sink.seats;
    assert_eq!((s[0].vpip_hands, s[0].pfr_hands, s[0].aggressive_actions), (1, 1, 2));
    assert_eq!((s[1].vpip_hands, s[1].pfr_hands), (1, 0));
    assert_eq!((s[1].aggressive_actions, s[1].passive_actions), (1, 1));
    assert_eq!((s[0].hands_dealt, s[0].hands_won, s[0].chip_delta_total), (1, 1, 10));
    assert_eq!((s[1].hands_won, s[1].chip_delta_total), (0, -8));
    // A dead hand leaves no trace.
    let none = SeatStats::default();
    assert_eq!((s[2].hands_dealt, s[2].chip_delta_total), (none.hands_dealt, none.chip_delta_total));
    assert_eq!((s[2].vpip_hands, s[2].total_pot), (0, 0));
    assert_eq!(sink.hands_played(), 1);
}

#[test]
fn seats_that_are_left_go_on_counting() {
    let mut sink = StatsSink::new(3);
    sink.seats.truncate(2);
    assert_eq!(sink.n_seats(), 2);
    sink.on_event(&EngineEvent::HandStarted { hand_id: 1, dealer: 0, deck_seed: 1 });
    sink.on_event(&taken(0, Action::Raise(6)));
    sink.on_event(&taken(1, Action::Call));
    sink.on_event(&taken(2, Action::AllIn));
    sink.on_event(&EngineEvent::HandEnded {
        hand_id: 1,
        result: HandResult {
            hand_id: 1,
            board: vec![],
            seats: vec![
                SeatOutcome { seat: 0, hole_cards: None, chip_delta: 9, sat_out: false },
                SeatOutcome { seat: 1, hole_cards: None, chip_delta: -6, sat_out: false },
                SeatOutcome { seat: 2, hole_cards: None, chip_delta: -3, sat_out: false },
            ],
        },
    });
    let s = &sink.seats;
    assert_eq!(s.len(), 2);
    assert_eq!((s[0].hands_dealt, s[0].hands_won, s[0].chip_delta_total), (1, 1, 9));
    assert_eq!((s[0].vpip_hands, s[0].pfr_hands, s[0].aggressive_actions), (1, 1, 1));
    assert_eq!((s[1].vpip_hands, s[1].pfr_hands, s[1].passive_actions), (1, 0, 1));
    assert_eq!((s[1].hands_dealt, s[1].hands_won, s[1].total_pot), (1, 0, 9));
}

// The same seeds and the same players again, with another generator and another sink.
#[test]
fn runs_repeat_whatever_listens() {
    let players = || -> Vec<Player> {
        vec![
            Player::Random(RandomAgent::new(7)),
            Player::Calling(CallingStation),
            Player::Random(RandomAgent::new(8)),
        ]
    };
    for policy in [StackPolicy::Reset, StackPolicy::Persistent] {
        let config = SimConfig { seed: SeedMode::Sequential(90), stack_policy: policy };
        let stacks = vec![200u32; 3];
        let mut first =
            SimRunner::new_seeded(Engine::new(nlhe3(), NaiveEvaluator), players(), stacks.clone(), 1);
        let mut second = SimRunner::new(Engine::new(nlhe3(), NaiveEvaluator), players(), stacks);
        let mut sink = VecSink::default();
        // One run after the other.
        for hands in [12usize, 5] {
            let a = first.run(hands, &config, &mut NullSink);
            let b = second.run(hands, &config, &mut sink);
            assert_eq!(a.hands_played, b.hands_played);
            assert_eq!(a.chip_deltas, b.chip_deltas);
            assert_eq!(a.final_stacks, b.final_stacks);
        }
    }
    // Seeds that are drawn repeat with the generator.
    let drawn = |rng_seed: u64| {
        let mut runner = SimRunner::new_seeded(
            Engine::new(nlhe3(), NaiveEvaluator),
            players(),
            vec![200u32; 3],
            rng_seed,
        );
        let mut sink = VecSink::default();
        let deltas = runner.run(10, &SimConfig::standard(), &mut sink).chip_deltas;
        let seeds: Vec<u64> = sink
            .events
            .iter()
            .filter_map(|e| match e {
                EngineEvent::HandStarted { deck_seed, .. } => Some(*deck_seed),
                _ => None,
            })
            .collect();
        (deltas, seeds)
    };
    assert_eq!(drawn(5), drawn(5));
    assert_ne!(drawn(5).1, drawn(6).1);
}
