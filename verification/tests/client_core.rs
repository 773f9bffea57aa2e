//! The client's state machine, driven by intents and messages.

use poker::cards::{Card, Rank, Suit};
use poker::client::{ClientCore, CurrentHand, Effect, Intent, LogLevel, Phase};
use poker::game::{Action, EngineEvent, HandResult, LegalActions, SeatOutcome, Street};
use poker::net::protocol::{
    ClientMessage, LifetimeStats, SeatInfo, ServerMessage, TableInfo, PROTOCOL_VERSION,
};

fn welcome(core: &mut ClientCore) {
    core.handle_inbound(ServerMessage::Welcome {
        protocol_version: PROTOCOL_VERSION,
        player_id: 1,
        username: "alice".into(),
        session_key: "abc".into(),
        stats: LifetimeStats::default(),
    });
}

fn seat_alice(core: &mut ClientCore) {
    welcome(core);
    core.handle_inbound(ServerMessage::JoinedTable {
        table_id: 1,
        seat: 0,
        seats: vec![
            SeatInfo { seat: 0, player_id: 1, username: "alice".into(), stack: 200 },
            SeatInfo { seat: 1, player_id: 2, username: "bob".into(), stack: 200 },
        ],
    });
}

fn matches_send(eff: &Effect) -> Option<&ClientMessage> {
    if let Effect::Send(m) = eff { Some(m) } else { None }
}

fn legal_check_only() -> LegalActions {
    LegalActions {
        can_check: true, can_call: false, call_amount: 0,
        can_raise: false, min_raise: 0, max_raise: 0,
        all_in_amount: 0,
    }
}

// Connection lifecycle

#[test]
fn connect_intent_emits_open_connection_and_phase_advances() {
    let mut core = ClientCore::new(None);
    let effects = core.handle_intent(Intent::Connect {
        addr: "127.0.0.1:7878".into(),
    });
    assert_eq!(core.snapshot().phase, Phase::Connecting);
    assert!(effects.iter().any(|e| matches!(
        e, Effect::OpenConnection { addr } if addr == "127.0.0.1:7878"
    )));
}

#[test]
fn handshake_before_connection_open_is_queued_and_flushed_later() {
    let mut core = ClientCore::new(None);
    core.handle_intent(Intent::Connect { addr: "x".into() });
    let effects = core.handle_intent(Intent::AuthenticateSession {
        key: "k".into(),
        device_label: None,
    });
    // Nothing sent yet — connection isn't open.
    assert!(effects.iter().filter_map(matches_send).next().is_none());
    assert_eq!(core.snapshot().phase, Phase::Connecting);

    let effects = core.handle_intent(Intent::ConnectionOpened);
    assert_eq!(core.snapshot().phase, Phase::Authenticating);
    let sent = effects.iter().filter_map(matches_send).next();
    assert!(matches!(sent, Some(ClientMessage::Authenticate { .. })));
}

#[test]
fn handshake_after_connection_open_sends_immediately() {
    // Edge case the boolean `connection_open` flag was added to
    // fix: phase stays `Connecting` until the first handshake
    // message lands, so a Register issued *after* ConnectionOpened
    // has to look at connection-open state, not phase.
    let mut core = ClientCore::new(None);
    core.handle_intent(Intent::Connect { addr: "x".into() });
    core.handle_intent(Intent::ConnectionOpened); // no pending handshake
    assert_eq!(core.snapshot().phase, Phase::Connecting);

    let effects = core.handle_intent(Intent::Register {
        email: "e@x.com".into(),
        username: "alice".into(),
        password: "hunter2hunter".into(),
        device_label: None,
    });
    let sent = effects.iter().filter_map(matches_send).next();
    assert!(
        matches!(sent, Some(ClientMessage::Register { .. })),
        "Register issued after ConnectionOpened must send immediately"
    );
    assert_eq!(core.snapshot().phase, Phase::Authenticating);
}

#[test]
fn welcome_lands_us_in_lobby_and_persists_session_key() {
    let mut core = ClientCore::new(None);
    core.handle_intent(Intent::Connect { addr: "x".into() });
    let effects = core.handle_inbound(ServerMessage::Welcome {
        protocol_version: PROTOCOL_VERSION,
        player_id: 42,
        username: "alice".into(),
        session_key: "abc".into(),
        stats: LifetimeStats::default(),
    });
    assert_eq!(core.snapshot().phase, Phase::Lobby);
    assert_eq!(core.session_key(), Some("abc"));
    assert!(effects.iter().any(|e| matches!(
        e, Effect::PersistSessionKey(Some(k)) if k == "abc"
    )));
}

#[test]
fn rejected_lands_us_in_ended_and_closes() {
    let mut core = ClientCore::new(None);
    let effects = core.handle_inbound(ServerMessage::Rejected {
        protocol_version: PROTOCOL_VERSION,
        reason: "bad credentials".into(),
    });
    assert!(matches!(core.snapshot().phase, Phase::Ended { .. }));
    assert!(effects.iter().any(|e| matches!(e, Effect::CloseConnection)));
}

#[test]
fn connection_lost_clears_view_and_marks_ended() {
    let mut core = ClientCore::new(None);
    welcome(&mut core);
    core.handle_intent(Intent::ConnectionLost { reason: "EOF".into() });
    let v = core.snapshot();
    assert!(matches!(v.phase, Phase::Ended { .. }));
    assert!(v.player_id.is_none(), "view must be cleared on connection loss");
}

// Lobby state

#[test]
fn list_tables_emits_send() {
    let mut core = ClientCore::new(None);
    let effects = core.handle_intent(Intent::ListTables);
    let sent = effects.iter().filter_map(matches_send).next();
    assert!(matches!(sent, Some(ClientMessage::ListTables)));
}

#[test]
fn table_list_lands_in_view() {
    let mut core = ClientCore::new(None);
    welcome(&mut core);
    core.handle_inbound(ServerMessage::TableList {
        tables: vec![TableInfo {
            table_id: 1, name: "Main".into(),
            small_blind: 1, big_blind: 2, max_seats: 6,
            seated: 0, default_buy_in: 200,
        }],
    });
    let v = core.snapshot();
    assert_eq!(v.tables.len(), 1);
    assert_eq!(v.tables[0].name, "Main");
}

#[test]
fn joined_table_advances_to_seated() {
    let mut core = ClientCore::new(None);
    seat_alice(&mut core);
    let v = core.snapshot();
    assert!(matches!(v.phase, Phase::Seated { table_id: 1, seat: 0 }));
    assert_eq!(v.seats.len(), 2);
    assert_eq!(v.our_seat(), Some(0));
}

#[test]
fn left_table_returns_to_lobby() {
    let mut core = ClientCore::new(None);
    seat_alice(&mut core);
    core.handle_inbound(ServerMessage::LeftTable { table_id: 1 });
    let v = core.snapshot();
    assert_eq!(v.phase, Phase::Lobby);
    assert!(v.seats.is_empty());
}

#[test]
fn table_state_updates_seats_and_button() {
    let mut core = ClientCore::new(None);
    seat_alice(&mut core);
    core.handle_inbound(ServerMessage::TableState {
        table_id: 1,
        seats: vec![
            SeatInfo { seat: 0, player_id: 1, username: "alice".into(), stack: 195 },
            SeatInfo { seat: 1, player_id: 2, username: "bob".into(), stack: 205 },
        ],
        button: 1,
    });
    let v = core.snapshot();
    assert_eq!(v.seats[0].stack, 195);
    assert_eq!(v.button, Some(1));
}

// In-hand projection

fn fire_event(core: &mut ClientCore, ev: EngineEvent) -> Vec<Effect> {
    core.handle_inbound(ServerMessage::TableEvent { table_id: 1, event: ev })
}

#[test]
fn hand_started_initialises_current_hand() {
    let mut core = ClientCore::new(None);
    seat_alice(&mut core);
    fire_event(&mut core, EngineEvent::HandStarted {
        hand_id: 7, dealer: 1, deck_seed: 42,
    });
    let h = core.snapshot().current_hand.expect("current_hand should be set");
    assert_eq!(h.hand_id, 7);
    assert_eq!(h.dealer, 1);
    assert_eq!(h.street, Street::Preflop);
    assert!(h.hole_cards.is_none());
}

#[test]
fn hole_cards_dealt_to_self_lands_in_view() {
    let mut core = ClientCore::new(None);
    seat_alice(&mut core);
    fire_event(&mut core, EngineEvent::HandStarted {
        hand_id: 1, dealer: 1, deck_seed: 0,
    });
    let cards = [
        Card::new(Rank::Ace, Suit::Spades),
        Card::new(Rank::King, Suit::Hearts),
    ];
    fire_event(&mut core, EngineEvent::HoleCardsDealt { seat: 0, cards });
    let h = core.snapshot().current_hand.unwrap();
    assert_eq!(h.hole_cards, Some([cards[0].index() as u8, cards[1].index() as u8]));
}

#[test]
fn hole_cards_for_other_seat_are_ignored() {
    let mut core = ClientCore::new(None);
    seat_alice(&mut core);
    fire_event(&mut core, EngineEvent::HandStarted {
        hand_id: 1, dealer: 1, deck_seed: 0,
    });
    // Server normally masks these; defence-in-depth check that
    // we still don't store another seat's cards if one leaks.
    fire_event(&mut core, EngineEvent::HoleCardsDealt {
        seat: 1,
        cards: [Card::new(Rank::Two, Suit::Clubs), Card::new(Rank::Three, Suit::Clubs)],
    });
    assert!(core.snapshot().current_hand.unwrap().hole_cards.is_none());
}

#[test]
fn board_dealt_appends_cards_and_advances_street() {
    let mut core = ClientCore::new(None);
    seat_alice(&mut core);
    fire_event(&mut core, EngineEvent::HandStarted {
        hand_id: 1, dealer: 1, deck_seed: 0,
    });
    let flop = vec![
        Card::new(Rank::Ace, Suit::Spades),
        Card::new(Rank::King, Suit::Hearts),
        Card::new(Rank::Queen, Suit::Diamonds),
    ];
    fire_event(&mut core, EngineEvent::BoardDealt {
        street: Street::Flop,
        cards: flop.clone(),
    });
    let h = core.snapshot().current_hand.unwrap();
    assert_eq!(h.street, Street::Flop);
    assert_eq!(h.board.len(), 3);
}

#[test]
fn action_taken_updates_pot_and_records_folds() {
    let mut core = ClientCore::new(None);
    seat_alice(&mut core);
    fire_event(&mut core, EngineEvent::HandStarted {
        hand_id: 1, dealer: 1, deck_seed: 0,
    });
    fire_event(&mut core, EngineEvent::ActionTaken {
        seat: 1, action: Action::Fold, pot_total: 30,
    });
    let h = core.snapshot().current_hand.unwrap();
    assert_eq!(h.pot_total, 30);
    assert_eq!(h.folded_seats, vec![1]);
}

#[test]
fn hand_ended_clears_current_hand() {
    let mut core = ClientCore::new(None);
    seat_alice(&mut core);
    fire_event(&mut core, EngineEvent::HandStarted {
        hand_id: 1, dealer: 1, deck_seed: 0,
    });
    fire_event(&mut core, EngineEvent::HandEnded {
        hand_id: 1,
        result: HandResult {
            hand_id: 1, board: Vec::new(),
            seats: vec![SeatOutcome {
                seat: 0, hole_cards: None, chip_delta: -2, sat_out: false,
            }],
        },
    });
    assert!(core.snapshot().current_hand.is_none());
}

// Prompt + SubmitAction

#[test]
fn prompt_marks_us_awaiting_with_legal_actions() {
    let mut core = ClientCore::new(None);
    seat_alice(&mut core);
    fire_event(&mut core, EngineEvent::HandStarted {
        hand_id: 7, dealer: 1, deck_seed: 0,
    });
    core.handle_inbound(ServerMessage::Prompt {
        table_id: 1, hand_id: 7, seat: 0,
        legal: legal_check_only(), deadline_ms: 5000,
    });
    let h = core.snapshot().current_hand.unwrap();
    assert!(h.awaiting_action);
    assert!(h.legal_actions.unwrap().can_check);
    assert_eq!(h.action_deadline_ms, Some(5000));
}

#[test]
fn prompts_for_others_arm_nothing() {
    let mut core = ClientCore::new(None);
    seat_alice(&mut core);
    fire_event(&mut core, EngineEvent::HandStarted {
        hand_id: 7, dealer: 1, deck_seed: 0,
    });
    for (table_id, seat) in [(1, 1), (2, 0)] {
        let effects = core.handle_inbound(ServerMessage::Prompt {
            table_id, hand_id: 7, seat,
            legal: legal_check_only(), deadline_ms: 5000,
        });
        assert!(matches!(&effects[..], [Effect::Log { level: LogLevel::Warn, .. }]));
        let h = core.snapshot().current_hand.unwrap();
        assert!(!h.awaiting_action);
        assert!(h.legal_actions.is_none());
        let sent = core.handle_intent(Intent::SubmitAction { action: Action::Check });
        assert!(sent.iter().filter_map(matches_send).next().is_none());
    }
    // An open prompt of ours stays open.
    core.handle_inbound(ServerMessage::Prompt {
        table_id: 1, hand_id: 7, seat: 0,
        legal: legal_check_only(), deadline_ms: 5000,
    });
    core.handle_inbound(ServerMessage::Prompt {
        table_id: 1, hand_id: 7, seat: 1,
        legal: legal_check_only(), deadline_ms: 9000,
    });
    let h = core.snapshot().current_hand.unwrap();
    assert!(h.awaiting_action);
    assert_eq!(h.action_deadline_ms, Some(5000));
}

#[test]
fn submit_action_with_active_prompt_emits_send_and_clears_awaiting() {
    let mut core = ClientCore::new(None);
    seat_alice(&mut core);
    fire_event(&mut core, EngineEvent::HandStarted {
        hand_id: 7, dealer: 1, deck_seed: 0,
    });
    core.handle_inbound(ServerMessage::Prompt {
        table_id: 1, hand_id: 7, seat: 0,
        legal: legal_check_only(), deadline_ms: 5000,
    });
    let effects = core.handle_intent(Intent::SubmitAction { action: Action::Check });
    let sent = effects.iter().filter_map(matches_send).next();
    assert!(matches!(
        sent,
        Some(ClientMessage::SubmitAction { table_id: 1, hand_id: 7, action: Action::Check })
    ));
    // Optimistic clear: UI should flip out of "awaiting".
    assert!(!core.snapshot().current_hand.unwrap().awaiting_action);
}

#[test]
fn submit_action_with_no_active_prompt_is_a_noop() {
    let mut core = ClientCore::new(None);
    seat_alice(&mut core);
    let effects = core.handle_intent(Intent::SubmitAction { action: Action::Fold });
    assert!(effects.iter().filter_map(matches_send).next().is_none(),
        "no Send should fire when no prompt is active");
}

#[test]
fn submit_action_failing_legality_is_a_noop() {
    let mut core = ClientCore::new(None);
    seat_alice(&mut core);
    fire_event(&mut core, EngineEvent::HandStarted {
        hand_id: 7, dealer: 1, deck_seed: 0,
    });
    // Legal: only Check. Try to Raise — must be rejected client-side.
    core.handle_inbound(ServerMessage::Prompt {
        table_id: 1, hand_id: 7, seat: 0,
        legal: legal_check_only(), deadline_ms: 5000,
    });
    let effects = core.handle_intent(Intent::SubmitAction {
        action: Action::Raise(50),
    });
    assert!(effects.iter().filter_map(matches_send).next().is_none(),
        "illegal action must not reach the wire");
    assert!(core.snapshot().current_hand.unwrap().awaiting_action,
        "prompt should remain open");
}

#[test]
fn action_rejected_re_arms_awaiting_and_records_reason() {
    let mut core = ClientCore::new(None);
    seat_alice(&mut core);
    fire_event(&mut core, EngineEvent::HandStarted {
        hand_id: 7, dealer: 1, deck_seed: 0,
    });
    core.handle_inbound(ServerMessage::Prompt {
        table_id: 1, hand_id: 7, seat: 0,
        legal: legal_check_only(), deadline_ms: 5000,
    });
    core.handle_intent(Intent::SubmitAction { action: Action::Check });
    // Optimistic clear has fired; now the server bounces us.
    core.handle_inbound(ServerMessage::ActionRejected {
        reason: "stale prompt".into(),
    });
    let v = core.snapshot();
    assert!(v.current_hand.unwrap().awaiting_action,
        "should re-arm so the user can try again");
    assert_eq!(v.last_action_rejection.as_deref(), Some("stale prompt"));
}

// bet_this_street projection

fn start_hand(core: &mut ClientCore) {
    fire_event(core, EngineEvent::HandStarted { hand_id: 1, dealer: 0, deck_seed: 0 });
}

fn bet_entry(h: &CurrentHand, seat: usize) -> Option<u32> {
    h.bet_this_street.iter().find(|&&(s, _)| s == seat).map(|&(_, b)| b)
}

#[test]
fn bet_this_street_resets_on_new_hand() {
    let mut core = ClientCore::new(None);
    seat_alice(&mut core);
    start_hand(&mut core);
    // Populate some bets from a first hand.
    fire_event(&mut core, EngineEvent::ActionTaken {
        seat: 0, action: Action::Raise(10), pot_total: 10,
    });
    fire_event(&mut core, EngineEvent::ActionTaken {
        seat: 1, action: Action::Call, pot_total: 20,
    });
    // Verify bets were set.
    assert!(core.snapshot().current_hand.as_ref().unwrap().bet_this_street.len() >= 1);

    // Start a new hand — bet_this_street must be empty.
    fire_event(&mut core, EngineEvent::HandEnded {
        hand_id: 1,
        result: HandResult { hand_id: 1, board: vec![], seats: vec![] },
    });
    start_hand(&mut core);
    let h = core.snapshot().current_hand.unwrap();
    assert!(h.bet_this_street.is_empty(), "bet_this_street must reset on HandStarted");
}

#[test]
fn bet_this_street_resets_on_new_street() {
    let mut core = ClientCore::new(None);
    seat_alice(&mut core);
    start_hand(&mut core);
    fire_event(&mut core, EngineEvent::ActionTaken {
        seat: 0, action: Action::Raise(10), pot_total: 10,
    });
    fire_event(&mut core, EngineEvent::ActionTaken {
        seat: 1, action: Action::Call, pot_total: 20,
    });
    // New street.
    fire_event(&mut core, EngineEvent::BoardDealt {
        street: Street::Flop,
        cards: vec![],
    });
    let h = core.snapshot().current_hand.unwrap();
    assert!(h.bet_this_street.is_empty(), "bet_this_street must clear on BoardDealt");
}

#[test]
fn bet_this_street_raise_sets_exact() {
    let mut core = ClientCore::new(None);
    seat_alice(&mut core);
    start_hand(&mut core);
    // Seat 0 raises to 30, seat 1 had 10 from blind.
    fire_event(&mut core, EngineEvent::ActionTaken {
        seat: 1, action: Action::Raise(10), pot_total: 10,
    });
    fire_event(&mut core, EngineEvent::ActionTaken {
        seat: 0, action: Action::Raise(30), pot_total: 40,
    });
    let h = core.snapshot().current_hand.unwrap();
    assert_eq!(bet_entry(&h, 0), Some(30), "seat 0 bet should be 30 after Raise(30)");
    assert_eq!(bet_entry(&h, 1), Some(10), "seat 1 bet should remain 10");
}

#[test]
fn bet_this_street_call_matches_max() {
    let mut core = ClientCore::new(None);
    seat_alice(&mut core);
    start_hand(&mut core);
    // Seat 0 raises to 30; seat 1 calls → should match 30.
    fire_event(&mut core, EngineEvent::ActionTaken {
        seat: 0, action: Action::Raise(30), pot_total: 30,
    });
    fire_event(&mut core, EngineEvent::ActionTaken {
        seat: 1, action: Action::Call, pot_total: 60,
    });
    let h = core.snapshot().current_hand.unwrap();
    assert_eq!(bet_entry(&h, 1), Some(30), "seat 1 Call should match max (30)");
}

#[test]
fn bet_this_street_fold_keeps_entry() {
    let mut core = ClientCore::new(None);
    seat_alice(&mut core);
    start_hand(&mut core);
    // Seat 1 has bet 10; seat 1 folds — entry must remain.
    fire_event(&mut core, EngineEvent::ActionTaken {
        seat: 1, action: Action::Raise(10), pot_total: 10,
    });
    fire_event(&mut core, EngineEvent::ActionTaken {
        seat: 1, action: Action::Fold, pot_total: 10,
    });
    let h = core.snapshot().current_hand.unwrap();
    assert_eq!(bet_entry(&h, 1), Some(10), "Fold must not remove bet_this_street entry");
    assert!(h.folded_seats.contains(&1), "seat 1 should appear in folded_seats");
}
