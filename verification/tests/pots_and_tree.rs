//! Pots, and hands that are stepped through action by action.

use poker::cards::{Card, NaiveEvaluator, Rank, Suit};
use poker::game::{
    build_showdown_pots, collect_street_bets, Action, ActionError, BettingRules, Engine, GameTree,
    LegalActions, NodeKind, NullSink, PlayerState, PlayerStatus, Pot, SeatList, SidePot, SidePots,
    VecSink,
};

fn player(committed: u32, status: PlayerStatus) -> PlayerState {
    PlayerState {
        stack: 0,
        hole_cards: None,
        bet_this_street: 0,
        total_committed: committed,
        status,
    }
}

#[test]
fn no_side_pots_all_equal() {
    let players = vec![
        player(100, PlayerStatus::Active),
        player(100, PlayerStatus::Active),
        player(100, PlayerStatus::Active),
    ];
    let pots = build_showdown_pots(&players).to_vec();
    assert_eq!(pots.len(), 1);
    assert_eq!(pots[0].0, 300);
    assert_eq!(pots[0].1.as_slice(), &[0, 1, 2]);
}

#[test]
fn one_short_all_in() {
    let players = vec![
        player(50, PlayerStatus::AllIn),
        player(100, PlayerStatus::Active),
        player(100, PlayerStatus::Active),
    ];
    let pots = build_showdown_pots(&players).to_vec();
    assert_eq!(pots.len(), 2);
    assert_eq!(pots[0].0, 150);
    assert_eq!(pots[0].1.as_slice(), &[0, 1, 2]);
    assert_eq!(pots[1].0, 100);
    assert_eq!(pots[1].1.as_slice(), &[1, 2]);
}

#[test]
fn dead_money_from_fold() {
    let players = vec![
        player(100, PlayerStatus::Active),
        player(200, PlayerStatus::Active),
        player(50, PlayerStatus::Folded),
    ];
    let pots = build_showdown_pots(&players).to_vec();
    assert_eq!(pots.len(), 3);
    assert_eq!(pots[0].0, 150);
    assert_eq!(pots[0].1.as_slice(), &[0, 1]);
    assert_eq!(pots[1].0, 100);
    assert_eq!(pots[1].1.as_slice(), &[0, 1]);
    assert_eq!(pots[2].0, 100);
    assert_eq!(pots[2].1.as_slice(), &[1]);
}

#[test]
fn uncontested_excess_returned_via_pot() {
    let players = vec![
        player(100, PlayerStatus::Active),
        player(50, PlayerStatus::AllIn),
    ];
    let pots = build_showdown_pots(&players).to_vec();
    assert_eq!(pots.len(), 2);
    assert_eq!(pots[0].0, 100);
    assert_eq!(pots[0].1.len(), 2);
    assert_eq!(pots[1].0, 50);
    assert_eq!(pots[1].1.as_slice(), &[0]);
}

#[test]
fn collect_street_bets_moves_to_pot() {
    let mut players = vec![
        PlayerState { stack: 900, hole_cards: None, bet_this_street: 50, total_committed: 50, status: PlayerStatus::Active },
        PlayerState { stack: 900, hole_cards: None, bet_this_street: 50, total_committed: 50, status: PlayerStatus::Active },
    ];
    let mut pot = Pot::default();
    collect_street_bets(&mut players, &mut pot);
    assert_eq!(pot.main, 100);
    assert!(players.iter().all(|p| p.bet_this_street == 0));
    assert!(players.iter().all(|p| p.total_committed == 50));
}

#[test]
fn folded_chips_beyond_every_live_player_go_to_the_last_pot() {
    let players = vec![
        player(100, PlayerStatus::AllIn),
        player(100, PlayerStatus::Active),
        player(300, PlayerStatus::Folded),
    ];
    let pots = build_showdown_pots(&players).to_vec();
    let total: u32 = pots.iter().map(|p| p.0).sum();
    assert_eq!(total, 500);
    assert!(pots.iter().all(|p| p.1.iter().all(|&s| s != 2)));
}

#[test]
fn pot_totals_count_side_pots() {
    let pot = Pot {
        main: 40,
        side: SidePots::from_vec(vec![
            SidePot { amount: 10, eligible_seats: SeatList::from_vec(&vec![0, 2]) },
            SidePot { amount: 5, eligible_seats: SeatList::from_vec(&vec![2]) },
        ]),
    };
    assert_eq!(pot.total(), 55);
    assert_eq!(pot.clone().total(), 55);
}

#[test]
fn legal_actions_judge_actions() {
    let la = LegalActions {
        can_check: false,
        can_call: true,
        call_amount: 4,
        can_raise: true,
        min_raise: 8,
        max_raise: 20,
        all_in_amount: 0,
    };
    assert!(la.is_legal(Action::Fold));
    assert!(!la.is_legal(Action::Check));
    assert!(la.is_legal(Action::Call));
    assert!(la.is_legal(Action::Raise(8)));
    assert!(la.is_legal(Action::Raise(20)));
    assert!(!la.is_legal(Action::Raise(7)));
    assert!(!la.is_legal(Action::Raise(21)));
    assert!(!la.is_legal(Action::AllIn));
}

#[test]
fn action_errors_in_words() {
    assert_eq!(
        ActionError::Illegal(Action::Raise(12), "too small").to_text(),
        "illegal action Raise(12): too small"
    );
    assert_eq!(ActionError::NoActingPlayer.to_text(), "no player to act");
}

fn mk_engine() -> Engine<NaiveEvaluator> {
    Engine::new(BettingRules::no_limit_holdem(1, 2, 3), NaiveEvaluator)
}

fn play_always_call(tree: &mut GameTree, engine: &Engine<NaiveEvaluator>) {
    let mut sink = NullSink;
    while let NodeKind::Decision { .. } = tree.current() {
        let legal = tree.legal_actions(engine).unwrap();
        let action = if legal.can_check {
            Action::Check
        } else if legal.can_call {
            Action::Call
        } else {
            Action::AllIn
        };
        tree.apply_action(engine, action, &mut sink);
    }
}

#[test]
fn all_call_chip_conservation_three_handed() {
    let engine = mk_engine();
    let stacks = [200u32, 200, 200];
    let mut tree = GameTree::new(&engine, 1, 42, &stacks, 0, None, &mut NullSink);
    play_always_call(&mut tree, &engine);
    let utils = tree.utilities().expect("should be terminal");
    let sum: i64 = utils.iter().sum();
    let committed: i64 = tree.state.players.iter().map(|p| p.total_committed as i64).sum();
    assert_eq!(sum, committed, "awarded chips must match committed chips");
}

#[test]
fn clone_branch_reaches_same_terminal_with_same_actions() {
    let engine = mk_engine();
    let stacks = [200u32, 200, 200];
    let mut a = GameTree::new(&engine, 1, 1337, &stacks, 0, None, &mut NullSink);
    let mut b = a.clone();
    play_always_call(&mut a, &engine);
    play_always_call(&mut b, &engine);
    assert_eq!(a.utilities(), b.utilities());
    assert_eq!(a.state.board.to_vec(), b.state.board.to_vec());
}

#[test]
fn clone_then_diverge_produces_different_outcomes() {
    let engine = mk_engine();
    let stacks = [200u32, 200, 200];
    let base = GameTree::new(&engine, 1, 7, &stacks, 0, None, &mut NullSink);
    let mut a = base.clone();
    let mut b = base.clone();
    a.apply_action(&engine, Action::Fold, &mut NullSink);
    b.apply_action(&engine, Action::Call, &mut NullSink);
    play_always_call(&mut a, &engine);
    play_always_call(&mut b, &engine);
    let committed_a: u32 = a.state.players.iter().map(|p| p.total_committed).sum();
    let committed_b: u32 = b.state.players.iter().map(|p| p.total_committed).sum();
    assert!(committed_b > committed_a);
}

#[test]
fn fold_out_immediately_terminal() {
    let engine = mk_engine();
    let stacks = [200u32, 200, 200];
    let mut tree = GameTree::new(&engine, 1, 11, &stacks, 0, None, &mut NullSink);
    tree.apply_action(&engine, Action::Fold, &mut NullSink);
    tree.apply_action(&engine, Action::Fold, &mut NullSink);
    assert_eq!(tree.current(), NodeKind::Terminal);
    assert!(tree.state.board.to_vec().is_empty());
}

#[test]
fn observations_show_only_ones_own_cards() {
    let engine = mk_engine();
    let stacks = [200u32, 150, 100];
    let tree = GameTree::new(&engine, 1, 3, &stacks, 0, None, &mut NullSink);
    let owned = tree.observation_owned(&engine).unwrap();
    let obs = owned.as_observation();
    let own: [Card; 2] = tree.state.players[obs.position].hole_cards.unwrap();
    assert_eq!(obs.hole_cards, own);
    assert_eq!(obs.dealer, 0);
    assert_eq!(obs.players.len(), 3);
    assert_eq!(obs.players[1].stack, 149);
    assert_eq!(obs.players[2].bet_this_street, 2);
    assert!(obs.board.is_empty());
}

#[test]
fn stepping_tells_the_sink_what_happens() {
    let engine = mk_engine();
    let stacks = [200u32, 200, 200];
    let mut sink = VecSink::default();
    let mut tree = GameTree::new(&engine, 9, 11, &stacks, 0, None, &mut sink);
    // Hole cards for three players.
    let opening = sink.events.len();
    assert!(opening >= 3);
    tree.apply_action(&engine, Action::Fold, &mut sink);
    assert!(sink.events.len() > opening);
    tree.apply_action(&engine, Action::Fold, &mut sink);
    let result = tree.into_result(9);
    assert_eq!(result.hand_id, 9);
    let deltas: Vec<i32> = result.seats.iter().map(|s| s.chip_delta).collect();
    assert_eq!(deltas, vec![0, -1, 1]);
}

#[test]
fn seat_lists_keep_their_seats() {
    let list = SeatList::from_vec(&vec![4, 0, 7]);
    assert_eq!(list.to_vec(), vec![4, 0, 7]);
    assert_eq!(list.clone().to_vec(), vec![4, 0, 7]);
    let board = poker::game::Board::from_vec(&vec![Card::new(Rank::Ace, Suit::Clubs)]);
    assert_eq!(board.to_vec(), vec![Card::new(Rank::Ace, Suit::Clubs)]);
    assert_eq!(board.len(), 1);
}

// Showdowns at a table that stands still: what the pots let each seat win.

#[test]
fn uncalled_chips_are_a_pot_of_ones_own() {
    let players = vec![
        player(30, PlayerStatus::AllIn),
        player(60, PlayerStatus::AllIn),
        player(100, PlayerStatus::Active),
    ];
    let pots = build_showdown_pots(&players).to_vec();
    assert_eq!(pots, vec![(90, vec![0, 1, 2]), (60, vec![1, 2]), (40, vec![2])]);
}

#[test]
fn antes_are_posted_before_the_blinds() {
    let rules = BettingRules { ante: 1, ..BettingRules::no_limit_holdem(1, 2, 3) };
    let engine = Engine::new(rules, NaiveEvaluator);
    let mut tree = GameTree::new(&engine, 1, 4, &[50, 50, 50], 0, None, &mut NullSink);
    let bets: Vec<u32> = tree.state.players.iter().map(|p| p.bet_this_street).collect();
    assert_eq!(bets, vec![1, 2, 3]);
    tree.apply_action(&engine, Action::AllIn, &mut NullSink);
    tree.apply_action(&engine, Action::Fold, &mut NullSink);
    tree.apply_action(&engine, Action::Fold, &mut NullSink);
    assert_eq!(tree.current(), NodeKind::Terminal);
    let result = tree.into_result(1);
    let deltas: Vec<i32> = result.seats.iter().map(|s| s.chip_delta).collect();
    assert_eq!(deltas, vec![5, -2, -3]);
}

#[test]
fn a_lone_seat_with_chips_ends_the_hand_at_once() {
    let engine = mk_engine();
    let tree = GameTree::new(&engine, 1, 4, &[0, 50, 0], 0, None, &mut NullSink);
    assert_eq!(tree.current(), NodeKind::Terminal);
    let result = tree.into_result(1);
    assert!(result.seats.iter().all(|s| s.chip_delta == 0));
}

#[test]
fn pots_lie_one_on_top_of_the_other() {
    let players = vec![
        player(30, PlayerStatus::AllIn),
        player(50, PlayerStatus::Folded),
        player(70, PlayerStatus::AllIn),
        player(70, PlayerStatus::Active),
    ];
    let pots = build_showdown_pots(&players).to_vec();
    assert_eq!(pots, vec![(120, vec![0, 2, 3]), (60, vec![2, 3]), (40, vec![2, 3])]);
    for w in pots.windows(2) {
        assert!(w[1].0 > 0);
        assert!(w[1].1.iter().all(|s| w[0].1.contains(s)));
    }
}

#[test]
fn turns_are_marked_until_the_end() {
    let engine = mk_engine();
    let mut tree = GameTree::new(&engine, 1, 11, &[60, 60, 60], 0, None, &mut NullSink);
    loop {
        match tree.current() {
            NodeKind::Decision { seat } => {
                assert_eq!(tree.state.action_on, Some(seat));
                assert!(tree.utilities().is_none());
                let legal = tree.legal_actions(&engine).unwrap();
                let action = if legal.can_check { Action::Check } else { Action::Call };
                tree.apply_action(&engine, action, &mut NullSink);
            }
            NodeKind::Terminal => break,
        }
    }
    assert_eq!(tree.state.action_on, None);
    assert!(tree.legal_actions(&engine).is_none());
    let committed: i64 = tree.state.players.iter().map(|p| p.total_committed as i64).sum();
    let awards = tree.utilities().unwrap();
    assert_eq!(awards.len(), 3);
    assert_eq!(awards.iter().sum::<i64>(), committed);
}
