//! Built-in players, personas and the human's command line.

use poker::agent::builtin::{choices, CallingStation, RandomAgent, ScriptedAgent};
use poker::agent::human::{
    format_action, hand_lines, parse_input, parse_line, result_lines, state_lines, HumanAgent,
};
use poker::agent::personas::{
    best_category, evaluate, lag_action, maniac_action, nit_action, tag_action, tilt_action, Lag,
    Maniac, Nit, Strength, Tag, TiltProne, CHANCE_05, CHANCE_15, CHANCE_30, CHANCE_35, CHANCE_40,
    CHANCE_50, CHANCE_60, CHANCE_70, CHANCE_75, CHANCE_80, CHANCE_85,
};
use poker::agent::{Agent, Observation, PublicPlayerState};
use poker::cards::{Card, HandCategory, NaiveEvaluator, Rank, RsPokerEvaluator, Suit};
use poker::game::{
    Action, EngineEvent, HandResult, LegalActions, Pot, SeatOutcome, SidePots, Street,
};

fn cards(text: &str) -> Vec<Card> {
    if text.is_empty() {
        return Vec::new();
    }
    text.split(' ')
        .map(|t| {
            (0u8..52).map(|i| Card::from_index(i).unwrap()).find(|c| c.to_text() == t).unwrap()
        })
        .collect()
}

fn facing_bet() -> LegalActions {
    LegalActions {
        can_check: false,
        can_call: true,
        call_amount: 4,
        can_raise: true,
        min_raise: 8,
        max_raise: 100,
        all_in_amount: 100,
    }
}

fn unopened() -> LegalActions {
    LegalActions {
        can_check: true,
        can_call: false,
        call_amount: 0,
        can_raise: true,
        min_raise: 2,
        max_raise: 100,
        all_in_amount: 100,
    }
}

fn pot() -> Pot {
    Pot { main: 12, side: SidePots::from_vec(vec![]) }
}

fn seen<'a>(
    hole: &str,
    board: &'a [Card],
    pot: &'a Pot,
    legal: LegalActions,
    players: &'a [PublicPlayerState],
) -> Observation<'a> {
    let h = cards(hole);
    let street = match board.len() {
        0 => Street::Preflop,
        3 => Street::Flop,
        4 => Street::Turn,
        _ => Street::River,
    };
    Observation {
        hole_cards: [h[0], h[1]],
        board,
        pot,
        legal_actions: legal,
        players,
        street,
        position: 1,
        dealer: 0,
    }
}

// Built-in players

#[test]
fn random_choices_follow_the_offer() {
    assert_eq!(
        choices(&facing_bet()),
        vec![Action::Fold, Action::Call, Action::Raise(8), Action::AllIn]
    );
    assert_eq!(
        choices(&unopened()),
        vec![Action::Check, Action::Raise(2), Action::AllIn]
    );
}

#[test]
fn random_players_draw_from_their_seed() {
    let pot = pot();
    let obs = seen("As Kd", &[], &pot, facing_bet(), &[]);
    let offered = choices(&obs.legal_actions);
    let mut rng: rand::rngs::SmallRng = rand::SeedableRng::seed_from_u64(77);
    let mut agent = RandomAgent::new(77);
    for _ in 0..50 {
        let i = rand::Rng::gen_range(&mut rng, 0..offered.len());
        assert_eq!(agent.act(&obs), offered[i]);
    }
}

#[test]
fn calling_stations_check_or_call() {
    let pot = pot();
    assert_eq!(
        CallingStation.act(&seen("As Kd", &[], &pot, facing_bet(), &[])),
        Action::Call
    );
    assert_eq!(CallingStation.act(&seen("As Kd", &[], &pot, unopened(), &[])), Action::Check);
}

#[test]
fn scripts_are_played_in_order() {
    let pot = pot();
    let obs = seen("As Kd", &[], &pot, facing_bet(), &[]);
    let mut agent = ScriptedAgent::new(vec![Action::Call, Action::Raise(9)]);
    assert_eq!(agent.act(&obs), Action::Call);
    assert_eq!(agent.act(&obs), Action::Raise(9));
}

// Personas

#[test]
fn preflop_buckets() {
    let pot = pot();
    let bucket = |h: &str| evaluate(&seen(h, &[], &pot, facing_bet(), &[]), &RsPokerEvaluator);
    assert_eq!(bucket("As Ah"), Strength::Premium);
    // Fours are the last premium pair, threes the first strong one.
    assert_eq!(bucket("4s 4h"), Strength::Premium);
    assert_eq!(bucket("3s 3h"), Strength::Strong);
    assert_eq!(bucket("As Ks"), Strength::Strong);
    assert_eq!(bucket("7s 5s"), Strength::Weak);
    assert_eq!(bucket("3c 2d"), Strength::Trash);
}

#[test]
fn postflop_buckets() {
    let pot = pot();
    let bucket = |h: &str, b: &str| {
        let board = cards(b);
        evaluate(&seen(h, &board, &pot, facing_bet(), &[]), &RsPokerEvaluator)
    };
    assert_eq!(bucket("As Ah", "Ad Kc Kd"), Strength::Premium);
    assert_eq!(bucket("As Ks", "Qs 7s 2s"), Strength::Strong);
    assert_eq!(bucket("As Kh", "Ad Kc 2d 7h"), Strength::Medium);
    assert_eq!(bucket("As Kh", "Ad 3c 2d 7h 9c"), Strength::Weak);
    assert_eq!(bucket("As Kh", "Qd 3c 2d"), Strength::Trash);
}

#[test]
fn categories_with_three_four_and_five_board_cards() {
    let hole = cards("As Kh");
    let hole = [hole[0], hole[1]];
    assert_eq!(
        best_category(&NaiveEvaluator, hole, &cards("Qd Jc Td")),
        HandCategory::Straight
    );
    assert_eq!(
        best_category(&NaiveEvaluator, hole, &cards("Qd Jc 2d Td")),
        HandCategory::Straight
    );
    assert_eq!(
        best_category(&NaiveEvaluator, hole, &cards("Qd Jc 2d Td 2c")),
        HandCategory::Straight
    );
    assert_eq!(best_category(&NaiveEvaluator, hole, &[]), HandCategory::HighCard);
}

#[test]
fn chances_part_the_rolls_like_single_precision_numbers() {
    // A roll is a whole number of 24 bits; as a fraction of two to the 24th it is
    // compared with the chance.
    let below = |r: u32, p: f32| (r as f32) * (1.0 / 16_777_216.0) < p;
    for (chance, p) in [
        (CHANCE_05, 0.05f32),
        (CHANCE_15, 0.15),
        (CHANCE_30, 0.3),
        (CHANCE_35, 0.35),
        (CHANCE_40, 0.4),
        (CHANCE_50, 0.5),
        (CHANCE_60, 0.6),
        (CHANCE_70, 0.7),
        (CHANCE_75, 0.75),
        (CHANCE_80, 0.8),
        (CHANCE_85, 0.85),
    ] {
        assert!(below(chance - 1, p), "{chance} is too high for {p}");
        assert!(!below(chance, p), "{chance} is too low for {p}");
    }
}

#[test]
fn nits_fold_nearly_everything() {
    let la = facing_bet();
    assert_eq!(nit_action(Street::Preflop, Strength::Premium, 0, &la), Action::Raise(8));
    assert_eq!(nit_action(Street::Preflop, Strength::Premium, CHANCE_70, &la), Action::Call);
    assert_eq!(nit_action(Street::Preflop, Strength::Strong, 0, &la), Action::Call);
    assert_eq!(nit_action(Street::Preflop, Strength::Medium, 0, &la), Action::Fold);
    assert_eq!(nit_action(Street::Flop, Strength::Premium, CHANCE_50, &la), Action::Call);
    assert_eq!(nit_action(Street::Flop, Strength::Medium, 0, &la), Action::Call);
    assert_eq!(nit_action(Street::Flop, Strength::Weak, 0, &la), Action::Fold);
    assert_eq!(nit_action(Street::Flop, Strength::Weak, 0, &unopened()), Action::Check);
}

#[test]
fn tags_raise_when_they_enter() {
    let la = facing_bet();
    assert_eq!(tag_action(Street::Preflop, Strength::Premium, CHANCE_85, &la), Action::Raise(8));
    assert_eq!(tag_action(Street::Preflop, Strength::Strong, CHANCE_75 - 1, &la), Action::Raise(8));
    assert_eq!(tag_action(Street::Preflop, Strength::Strong, CHANCE_75, &la), Action::Call);
    assert_eq!(tag_action(Street::Preflop, Strength::Medium, 0, &la), Action::Fold);
    assert_eq!(tag_action(Street::River, Strength::Medium, CHANCE_60, &la), Action::Call);
    assert_eq!(tag_action(Street::River, Strength::Weak, 0, &la), Action::Call);
    assert_eq!(tag_action(Street::River, Strength::Trash, 0, &la), Action::Fold);
}

#[test]
fn lags_play_wider() {
    let la = facing_bet();
    assert_eq!(lag_action(Street::Preflop, Strength::Medium, 0, &la), Action::Raise(8));
    assert_eq!(lag_action(Street::Preflop, Strength::Weak, CHANCE_30 - 1, &la), Action::Raise(8));
    assert_eq!(lag_action(Street::Preflop, Strength::Weak, CHANCE_30, &la), Action::Fold);
    assert_eq!(lag_action(Street::Turn, Strength::Weak, CHANCE_35, &la), Action::Call);
    assert_eq!(lag_action(Street::Turn, Strength::Trash, CHANCE_15 - 1, &la), Action::Raise(8));
    assert_eq!(lag_action(Street::Turn, Strength::Trash, CHANCE_15, &la), Action::Fold);
}

#[test]
fn maniacs_shove_raise_and_call() {
    let la = facing_bet();
    assert_eq!(maniac_action(false, 0, &la), Action::AllIn);
    assert_eq!(maniac_action(false, CHANCE_05, &la), Action::Raise(8));
    assert_eq!(maniac_action(false, CHANCE_85, &la), Action::Call);
    assert_eq!(maniac_action(true, 0, &la), Action::Fold);
    assert_eq!(maniac_action(true, CHANCE_40, &la), Action::Raise(8));
}

#[test]
fn tilt_opens_the_range() {
    let la = facing_bet();
    assert_eq!(tilt_action(false, Street::Preflop, Strength::Medium, CHANCE_30, &la), Action::Fold);
    assert_eq!(
        tilt_action(true, Street::Preflop, Strength::Medium, CHANCE_30, &la),
        Action::Raise(8)
    );
    assert_eq!(tilt_action(true, Street::Preflop, Strength::Medium, CHANCE_85, &la), Action::Call);
    assert_eq!(tilt_action(true, Street::Preflop, Strength::Weak, 0, &la), Action::Raise(8));
    assert_eq!(tilt_action(false, Street::Preflop, Strength::Weak, 0, &la), Action::Fold);
    assert_eq!(tilt_action(true, Street::Flop, Strength::Medium, CHANCE_80, &la), Action::Call);
    assert_eq!(tilt_action(true, Street::Flop, Strength::Weak, CHANCE_40 - 1, &la), Action::Raise(8));
}

#[test]
fn personas_roll_the_seeded_generator() {
    let pot = pot();
    let obs = seen("As Ah", &[], &pot, facing_bet(), &[]);
    let mut rng: rand::rngs::SmallRng = rand::SeedableRng::seed_from_u64(5);
    let mut nit = Nit::new(5);
    for _ in 0..100 {
        let r: f32 = rand::Rng::gen(&mut rng);
        let expected = if r < 0.7 { Action::Raise(8) } else { Action::Call };
        assert_eq!(nit.act(&obs), expected);
    }
}

#[test]
fn personas_play_only_legal_actions() {
    let pot = pot();
    for hole in ["As Ah", "7s 5s", "3c 2d"] {
        for legal in [facing_bet(), unopened()] {
            let obs = seen(hole, &[], &pot, legal, &[]);
            let (mut a, mut b, mut c) = (Nit::new(1), Tag::new(2), Lag::new(3));
            let (mut d, mut e) = (Maniac::new(4), TiltProne::new(5));
            for _ in 0..40 {
                assert!(legal.is_legal(a.act(&obs)));
                assert!(legal.is_legal(b.act(&obs)));
                assert!(legal.is_legal(c.act(&obs)));
                assert!(legal.is_legal(d.act(&obs)));
                assert!(legal.is_legal(e.act(&obs)));
            }
        }
    }
}

fn lost(chips: i32) -> HandResult {
    HandResult {
        hand_id: 1,
        board: vec![],
        seats: vec![
            SeatOutcome { seat: 0, hole_cards: None, chip_delta: -chips, sat_out: false },
            SeatOutcome { seat: 1, hole_cards: None, chip_delta: chips, sat_out: false },
        ],
    }
}

#[test]
fn losses_put_a_player_on_tilt() {
    let pot = pot();
    // A weak hand is played only on tilt.
    let obs = seen("7s 5s", &[], &pot, facing_bet(), &[]);
    let raises = |agent: &mut TiltProne| (0..200).filter(|_| agent.act(&obs) != Action::Fold).count();
    let mut calm = TiltProne::new(9);
    assert_eq!(raises(&mut calm), 0);
    let mut steamed = TiltProne::new(9);
    for _ in 0..20 {
        steamed.on_hand_end(&lost(400));
    }
    assert!(raises(&mut steamed) > 50);
}

// The human player

#[test]
fn commands_become_actions() {
    let la = facing_bet();
    assert_eq!(parse_input("f", &la), Ok(Action::Fold));
    assert_eq!(parse_input("fold", &la), Ok(Action::Fold));
    assert_eq!(parse_input("c", &la), Ok(Action::Call));
    assert_eq!(parse_input("call", &la), Ok(Action::Call));
    assert_eq!(parse_input("c", &unopened()), Ok(Action::Check));
    assert_eq!(parse_input("check", &unopened()), Ok(Action::Check));
    assert_eq!(parse_input("a", &la), Ok(Action::AllIn));
    assert_eq!(parse_input("all-in", &la), Ok(Action::AllIn));
    assert_eq!(parse_input("r 8", &la), Ok(Action::Raise(8)));
    assert_eq!(parse_input("raise   100", &la), Ok(Action::Raise(100)));
    assert_eq!(parse_input("r +9", &la), Ok(Action::Raise(9)));
}

#[test]
fn commands_are_refused_with_a_reason() {
    let la = facing_bet();
    let no = |s: &str| parse_input(s, &la).unwrap_err();
    assert_eq!(no("check"), "neither check nor call is legal here");
    assert_eq!(no("r"), "usage: raise <amount>  (8 – 100)");
    assert_eq!(no("r ten"), "'ten' is not a valid chip amount");
    assert_eq!(no("r 7"), "raise amount must be between 8 and 100 (got 7)");
    assert_eq!(no("r 101"), "raise amount must be between 8 and 100 (got 101)");
    assert_eq!(no("r 4294967296"), "'4294967296' is not a valid chip amount");
    assert_eq!(
        no("jump"),
        "unknown command 'jump' — try: fold, check, call, raise <amount>, allin"
    );
    let broke = LegalActions { all_in_amount: 0, can_raise: false, ..la };
    assert_eq!(parse_input("allin", &broke).unwrap_err(), "you have no chips to go all-in with");
    assert_eq!(parse_input("raise 9", &broke).unwrap_err(), "raise is not legal here");
}

#[test]
fn lines_are_trimmed_and_lowercased() {
    assert_eq!(parse_line("  RAISE 20 \n", &facing_bet()), Ok(Action::Raise(20)));
    assert_eq!(parse_line("Call\r\n", &facing_bet()), Ok(Action::Call));
    // The Kelvin sign has an ordinary small k.
    assert_eq!(parse_line("chec\u{212A}\n", &unopened()), Ok(Action::Check));
}

#[test]
fn actions_in_the_third_person() {
    assert_eq!(format_action(&Action::Fold), "folds");
    assert_eq!(format_action(&Action::Check), "checks");
    assert_eq!(format_action(&Action::Call), "calls");
    assert_eq!(format_action(&Action::Raise(12)), "raises to 12");
    assert_eq!(format_action(&Action::AllIn), "goes all-in");
}

#[test]
fn humans_hear_of_others_only() {
    let mut me = HumanAgent::new();
    let event = EngineEvent::ActionTaken { seat: 2, action: Action::Raise(12), pot_total: 15 };
    assert_eq!(me.news(&event).as_deref(), Some("  Seat 2: raises to 12  (pot: 15)"));
    me.asked_at(2);
    assert_eq!(me.news(&event), None);
    let board = EngineEvent::BoardDealt { street: Street::Flop, cards: cards("As Kd 2c") };
    assert_eq!(me.news(&board).as_deref(), Some("\n  [Flop] Board: As Kd 2c"));
    assert_eq!(me.news(&EngineEvent::PlayerAllIn { seat: 0, total_committed: 9 }), None);
}

#[test]
fn the_table_as_the_human_sees_it() {
    let board = cards("As Kd 2c");
    let pot = pot();
    let players = [
        PublicPlayerState { seat: 0, stack: 90, bet_this_street: 10, is_folded: false, is_all_in: false },
        PublicPlayerState { seat: 1, stack: 100, bet_this_street: 6, is_folded: false, is_all_in: false },
        PublicPlayerState { seat: 2, stack: 0, bet_this_street: 3, is_folded: false, is_all_in: true },
        PublicPlayerState { seat: 3, stack: 5, bet_this_street: 0, is_folded: true, is_all_in: false },
    ];
    let lines = state_lines(&seen("Qh Qs", &board, &pot, facing_bet(), &players));
    let text = lines.join("\n");
    let bar = "─".repeat(34);
    let expected = format!(
        "\n── Flop ─────────────────────────────────────────\n  Board:  As Kd 2c\n  \
         Your hand:  Qh Qs  (seat 1)\n\n  Seat     Stack     Bet  Status\n  {bar}\n  \
         0           90      10  active\n  1          100       6  active ← you\n  \
         2            0       3  all-in\n  3            5       0  folded\n\n  Pot: 12\n\n  Actions:\n    \
         [c]all  (4 chips)\n    [r]aise <amount>  (8 – 100 total)\n    [a]ll-in  (100 chips)\n    [f]old"
    );
    assert_eq!(text, expected);
}

#[test]
fn results_are_shown_seat_by_seat() {
    let hole = [Card::new(Rank::Ace, Suit::Spades), Card::new(Rank::King, Suit::Diamonds)];
    let result = HandResult {
        hand_id: 3,
        board: cards("2c 3c 4c"),
        seats: vec![
            SeatOutcome { seat: 0, hole_cards: Some(hole), chip_delta: 7, sat_out: false },
            SeatOutcome { seat: 1, hole_cards: None, chip_delta: -7, sat_out: false },
        ],
    };
    let lines = result_lines(&result);
    assert_eq!(lines[0], "\n── Result ──────────────────────────────────────");
    assert_eq!(lines[1], "  Board: 2c 3c 4c");
    assert_eq!(lines[2], "  Seat 0  [As Kd]  \u{1b}[32m+7\u{1b}[0m");
    assert_eq!(lines[3], "  Seat 1  [folded]  \u{1b}[31m-7\u{1b}[0m");
    assert_eq!(lines[4], "─".repeat(50));
    assert_eq!(lines.len(), 5);
    let bar = "═".repeat(50);
    assert_eq!(hand_lines(12), format!("\n{bar}\n  Hand #12\n{bar}"));
}
