//! The viewer, the scripted client, the command line and text helpers.

use poker::cards::{Card, Rank, Suit};
use poker::cli::{
    parse_agents, parse_blinds, parse_pair, parse_stacks, stack_label, AgentSpec, PairError,
};
use poker::client::{Effect, Intent, Phase};
use poker::game::{Action, EngineEvent, HandResult, LegalActions, SeatOutcome, Street};
use poker::headless::{discriminant_name, step_one_line, HeadlessClient, Step};
use poker::net::protocol::{
    AuthMode, ClientMessage, LifetimeStats, ServerMessage, TableInfo, PROTOCOL_VERSION,
};
use poker::report::{report_lines, Figures, Setting};
use poker::solver::{iteration, net_utility, AbstractAction};
use poker::text;
use poker::viewer::live::{FIRST_BUY_IN, TOAST_MS};
use poker::viewer::live_net::{first_message, turn};
use poker::viewer::page::card_chip;
use poker::viewer::{
    describe_event, fmt_action, pick_mode, Cli, LiveApp, LiveEvent, LivePhase, LoginRequest, Mode,
    NetAction, NetEvent, Panel, ReplayApp, Screen, Snapshot,
};

fn card(r: Rank, s: Suit) -> Card {
    Card::new(r, s)
}

fn welcome() -> ServerMessage {
    ServerMessage::Welcome {
        protocol_version: PROTOCOL_VERSION,
        player_id: 1,
        username: "alice".into(),
        session_key: "abc".into(),
        stats: LifetimeStats::default(),
    }
}

// The scripted client

#[test]
fn fresh_harness_starts_disconnected() {
    let h = HeadlessClient::new(None);
    h.assert_phase(&Phase::Disconnected);
}

#[test]
fn drive_to_lobby_via_welcome() {
    let mut h = HeadlessClient::new(None);
    h.intent(Intent::Connect { addr: "addr".into() });
    h.assert_phase(&Phase::Connecting);

    h.inbound(welcome());
    h.assert_phase(&Phase::Lobby);
    assert_eq!(h.view().username.as_deref(), Some("alice"));
}

#[test]
fn a_wrong_phase_is_reported() {
    let h = HeadlessClient::new(None);
    assert!(!h.view().phase.is_same(&Phase::Lobby));
}

#[test]
fn scripts_run_step_by_step() {
    let mut h = HeadlessClient::new(None);
    h.run(vec![
        Step::Issue(Intent::Connect { addr: "addr".into() }),
        Step::Receive(welcome()),
        Step::Issue(Intent::ListTables),
    ]);
    assert_eq!(h.snapshot_log().len(), 4);
    assert_eq!(h.snapshot_log()[0].phase, Phase::Disconnected);
    assert_eq!(h.snapshot_log()[1].phase, Phase::Connecting);
    assert_eq!(h.snapshot_log()[2].phase, Phase::Lobby);
    assert!(matches!(h.effect_log()[0], Effect::OpenConnection { .. }));
    assert!(matches!(h.effect_log().last(), Some(Effect::Send(ClientMessage::ListTables))));
}

#[test]
fn steps_in_one_line() {
    assert_eq!(step_one_line(&Step::Issue(Intent::Connect { addr: "h:1".into() })), "Issue Connect(h:1)");
    assert_eq!(
        step_one_line(&Step::Issue(Intent::JoinTable { table_id: 7, buy_in: 200 })),
        "Issue JoinTable(7, buy_in=200)"
    );
    assert_eq!(
        step_one_line(&Step::Issue(Intent::SubmitAction { action: Action::Raise(12) })),
        "Issue SubmitAction(Raise(12))"
    );
    assert_eq!(step_one_line(&Step::Receive(ServerMessage::Heartbeat)), "Receive \"Heartbeat\"");
    assert_eq!(discriminant_name(&welcome()), "Welcome");
}

// The picture of a hand

fn hand() -> Vec<EngineEvent> {
    let hole = [card(Rank::Ace, Suit::Spades), card(Rank::King, Suit::Diamonds)];
    vec![
        EngineEvent::HandStarted { hand_id: 5, dealer: 1, deck_seed: 42 },
        EngineEvent::HoleCardsDealt { seat: 0, cards: hole },
        EngineEvent::ActionTaken { seat: 0, action: Action::Raise(6), pot_total: 8 },
        EngineEvent::ActionTaken { seat: 2, action: Action::Fold, pot_total: 8 },
        EngineEvent::PlayerAllIn { seat: 1, total_committed: 50 },
        EngineEvent::BoardDealt {
            street: Street::Flop,
            cards: vec![
                card(Rank::Two, Suit::Clubs),
                card(Rank::Three, Suit::Hearts),
                card(Rank::Four, Suit::Spades),
            ],
        },
        EngineEvent::HandEnded {
            hand_id: 5,
            result: HandResult {
                hand_id: 5,
                board: vec![],
                seats: vec![
                    SeatOutcome { seat: 0, hole_cards: Some(hole), chip_delta: 3, sat_out: false },
                    SeatOutcome { seat: 1, hole_cards: None, chip_delta: -3, sat_out: true },
                ],
            },
        },
    ]
}

#[test]
fn events_add_up_to_a_picture() {
    let s = Snapshot::derive(&hand());
    assert_eq!(s.hand_id, Some(5));
    assert_eq!(s.dealer, Some(1));
    assert_eq!(s.street, Some(Street::Flop));
    assert_eq!(s.board.len(), 3);
    assert_eq!(s.pot_total, 8);
    assert_eq!(s.players.len(), 3);
    assert!(s.players[0].hole_cards.is_some());
    assert!(s.players[2].folded);
    assert!(s.players[1].all_in);
    assert_eq!(s.players[1].total_committed, 50);
    assert_eq!(s.action_log[0], "seat 0 Raise(6) (pot 8)");
    assert!(s.terminal.is_some());
}

#[test]
fn pictures_can_be_built_in_pieces() {
    let events = hand();
    let whole = Snapshot::derive(&events);
    let mut pieces = Snapshot::derive(&events[..3]);
    for e in &events[3..] {
        pieces.apply(e);
    }
    assert_eq!(whole.action_log, pieces.action_log);
    assert_eq!(whole.players.len(), pieces.players.len());
    assert_eq!(whole.pot_total, pieces.pot_total);
}

#[test]
fn a_new_hand_wipes_the_table() {
    let mut s = Snapshot::derive(&hand());
    s.apply(&EngineEvent::HandStarted { hand_id: 6, dealer: 2, deck_seed: 43 });
    assert_eq!(s.hand_id, Some(6));
    assert!(s.board.is_empty());
    assert!(s.terminal.is_none());
    assert!(s.action_log.is_empty());
}

#[test]
fn events_in_one_line() {
    let lines: Vec<String> = hand().iter().map(describe_event).collect();
    assert_eq!(lines[0], "HandStarted · hand=5 dealer=1 seed=42");
    assert_eq!(lines[1], "HoleCardsDealt · seat=0 [As Kd]");
    assert_eq!(lines[2], "ActionTaken · seat=0 Raise(6) pot=8");
    assert_eq!(lines[4], "PlayerAllIn · seat=1 total=50");
    assert_eq!(lines[5], "BoardDealt · Flop [2c 3h 4s]");
    assert_eq!(lines[6], "HandEnded · hand=5 deltas=[0:+3, 1:-3]");
    assert_eq!(fmt_action(Action::Fold), "Fold");
    assert_eq!(fmt_action(Action::AllIn), "AllIn");
}

#[test]
fn pages_are_ready_to_draw() {
    let page = Snapshot::derive(&hand()).page();
    assert_eq!(page.heading, "Hand #5");
    assert_eq!(page.dealer, "dealer: 1");
    assert_eq!(page.street, "street: Flop");
    assert_eq!(page.pot, "pot: 8");
    assert_eq!(page.board[1].text, "3h");
    assert!(page.board[1].red);
    assert_eq!(page.players[1].committed.as_deref(), Some("committed 50"));
    assert_eq!(page.players[0].committed, None);
    let result = page.result.unwrap();
    assert_eq!(result[0].delta, "+3");
    assert!(result[0].won);
    assert!(!result[1].won);
    assert!(result[1].sat_out);
    let empty = Snapshot::new().page();
    assert_eq!(empty.heading, "No hand started");
    assert_eq!(empty.dealer, "dealer: —");
    assert_eq!(empty.street, "street: —");
    assert!(empty.result.is_none());
}

#[test]
fn chips_show_rank_and_suit() {
    let chip = card_chip(card(Rank::Ten, Suit::Spades));
    assert_eq!(chip.text, "Ts");
    assert!(!chip.red);
}

// Scrubbing

#[test]
fn scrubbing_moves_within_the_log() {
    let mut app = ReplayApp::open("log.bin", hand());
    assert_eq!(app.source(), Some("log.bin"));
    assert_eq!(app.len(), 7);
    assert_eq!(app.cursor(), 6);
    app.back();
    assert_eq!(app.cursor(), 5);
    app.to_first();
    app.back();
    assert_eq!(app.cursor(), 0);
    app.forward();
    assert_eq!(app.cursor(), 1);
    app.to_last();
    assert_eq!(app.cursor(), 6);
    app.forward();
    assert_eq!(app.cursor(), 6);
    assert_eq!(app.position(), "event 7/7");
    app.jump(2);
    assert_eq!(app.snapshot().pot_total, 8);
    assert_eq!(app.snapshot().street, Some(Street::Preflop));
    app.to_first();
    assert_eq!(app.cursor(), 0);
    assert!(matches!(app.screen(), Screen::Table));
    assert!(matches!(ReplayApp::empty().screen(), Screen::NoEvents));
    match ReplayApp::error("no such file".into()).screen() {
        Screen::Error(msg) => assert_eq!(msg, "no such file"),
        _ => panic!("expected an error"),
    }
}

// Live play

fn prompt(seat: usize) -> ServerMessage {
    ServerMessage::Prompt {
        table_id: 3,
        hand_id: 8,
        seat,
        legal: LegalActions {
            can_check: false,
            can_call: true,
            call_amount: 4,
            can_raise: true,
            min_raise: 8,
            max_raise: 100,
            all_in_amount: 100,
        },
        deadline_ms: 1000,
    }
}

fn seated() -> LiveApp {
    let mut app = LiveApp::new("h:1".into(), "alice".into());
    app.handle_event(LiveEvent::Server(welcome()), 0);
    app.handle_event(
        LiveEvent::Server(ServerMessage::JoinedTable { table_id: 3, seat: 1, seats: vec![] }),
        0,
    );
    app
}

#[test]
fn the_lobby_is_asked_for_tables() {
    let mut app = LiveApp::new("h:1".into(), "alice".into());
    assert_eq!(app.status(), "connecting…");
    let reply = app.handle_event(LiveEvent::Server(welcome()), 0);
    assert!(matches!(reply, Some(ClientMessage::ListTables)));
    assert_eq!(app.status(), "lobby");
    assert_eq!(app.player_id(), Some(1));
    let table = TableInfo {
        table_id: 3,
        name: "one".into(),
        small_blind: 1,
        big_blind: 2,
        max_seats: 6,
        seated: 0,
        default_buy_in: 200,
    };
    app.handle_event(LiveEvent::Server(ServerMessage::TableList { tables: vec![table] }), 0);
    assert_eq!(app.tables().len(), 1);
    assert_eq!(FIRST_BUY_IN, 200);
}

#[test]
fn prompts_are_answered_once() {
    let mut app = seated();
    assert_eq!(app.status(), "table 3 · seat 1");
    assert!(matches!(app.panel(1, 0), Panel::Idle));
    app.handle_event(LiveEvent::Server(prompt(1)), 100);
    match app.panel(1, 400) {
        Panel::Turn { prompt, remaining_ms } => {
            assert_eq!(remaining_ms, 700);
            assert_eq!(prompt.raise_to, 8);
        }
        _ => panic!("expected our turn"),
    }
    assert!(matches!(app.panel(2, 400), Panel::WaitingOn(1)));
    match app.panel(1, 9000) {
        Panel::Turn { remaining_ms, .. } => assert_eq!(remaining_ms, 0),
        _ => panic!("expected our turn"),
    }
    app.set_raise(20);
    match app.submit(Action::Raise(20)) {
        Some(ClientMessage::SubmitAction { table_id: 3, hand_id: 8, action: Action::Raise(20) }) => {}
        other => panic!("expected an action, got {other:?}"),
    }
    assert!(app.submit(Action::Fold).is_none());
}

#[test]
fn leaving_and_losing_the_connection_drop_the_prompt() {
    let mut app = seated();
    app.handle_event(LiveEvent::Server(prompt(1)), 0);
    app.handle_event(LiveEvent::Server(ServerMessage::LeftTable { table_id: 3 }), 0);
    assert!(app.submit(Action::Fold).is_none());
    let mut app = seated();
    app.handle_event(LiveEvent::Server(prompt(1)), 0);
    app.handle_event(LiveEvent::Disconnected("gone".into()), 0);
    assert!(app.submit(Action::Fold).is_none());
    assert_eq!(app.status(), "disconnected");
    match app.phase() {
        LivePhase::Ended(why) => assert_eq!(why, "gone"),
        _ => panic!("expected the end"),
    }
}

#[test]
fn refusals_are_shown_for_a_while() {
    let mut app = seated();
    app.handle_event(
        LiveEvent::Server(ServerMessage::ActionRejected { reason: "too small".into() }),
        1000,
    );
    assert_eq!(app.error_line().as_deref(), Some("server: too small"));
    app.expire_error(1000 + TOAST_MS);
    assert!(app.error_line().is_some());
    app.expire_error(1001 + TOAST_MS);
    assert!(app.error_line().is_none());
}

#[test]
fn rejection_and_goodbye_end_live_play() {
    let ended = |msg: ServerMessage| {
        let mut app = seated();
        app.handle_event(LiveEvent::Server(msg), 0);
        match app.phase() {
            LivePhase::Ended(why) => why.clone(),
            _ => panic!("expected the end"),
        }
    };
    assert_eq!(
        ended(ServerMessage::Rejected { protocol_version: 1, reason: "bad".into() }),
        "rejected: bad"
    );
    assert_eq!(ended(ServerMessage::Goodbye { reason: "bye".into() }), "server goodbye: bye");
}

#[test]
fn the_network_side_decides_turn_by_turn() {
    assert!(matches!(
        turn(NetEvent::Outbound(Some(ClientMessage::Disconnect))),
        NetAction::Send { msg: ClientMessage::Disconnect, disconnect: true }
    ));
    assert!(matches!(
        turn(NetEvent::Outbound(Some(ClientMessage::ListTables))),
        NetAction::Send { msg: ClientMessage::ListTables, disconnect: false }
    ));
    assert!(matches!(
        turn(NetEvent::Sent { disconnect: true, result: Ok(()) }),
        NetAction::Drain
    ));
    assert!(matches!(
        turn(NetEvent::Inbound(Ok(ServerMessage::Goodbye { reason: "x".into() }))),
        NetAction::Deliver { goodbye: true, .. }
    ));
    match turn(NetEvent::Drained) {
        NetAction::Finish(LiveEvent::Disconnected(why)) => assert_eq!(why, "disconnected"),
        _ => panic!("expected the end"),
    }
    assert!(matches!(
        turn(NetEvent::Dialed { addr: "h:1".into(), result: Err("refused".into()) }),
        NetAction::Finish(LiveEvent::Disconnected(_))
    ));
}

#[test]
fn logins_open_the_conversation() {
    let register = LoginRequest::Register {
        email: "a@b.co".into(),
        username: "alice".into(),
        password: "hunter2hunter".into(),
    };
    match first_message(register) {
        ClientMessage::Register { protocol_version, email, .. } => {
            assert_eq!(protocol_version, PROTOCOL_VERSION);
            assert_eq!(email, "a@b.co");
        }
        other => panic!("expected Register, got {other:?}"),
    }
    let password = LoginRequest::Password { identifier: "alice".into(), password: "pw".into() };
    match first_message(password) {
        ClientMessage::Authenticate { mode: AuthMode::Password { identifier, .. }, .. } => {
            assert_eq!(identifier, "alice")
        }
        other => panic!("expected Authenticate, got {other:?}"),
    }
}

// Modes

fn cli() -> Cli {
    Cli {
        replay: None,
        connect: Some("h:1".into()),
        username: Some("alice".into()),
        password: Some("hunter2hunter".into()),
        register: false,
        email: None,
    }
}

#[test]
fn arguments_pick_the_mode() {
    assert!(matches!(pick_mode(Cli { connect: None, ..cli() }), Ok(Mode::Replay(None))));
    match pick_mode(Cli { connect: None, replay: Some("x".into()), ..cli() }) {
        Ok(Mode::Replay(Some(path))) => assert_eq!(path, "x"),
        _ => panic!("expected a replay"),
    }
    assert!(matches!(pick_mode(cli()), Ok(Mode::Live { login: LoginRequest::Password { .. }, .. })));
    let register = Cli { register: true, email: Some("a@b.co".into()), ..cli() };
    assert!(matches!(
        pick_mode(register),
        Ok(Mode::Live { login: LoginRequest::Register { .. }, .. })
    ));
}

#[test]
fn arguments_are_refused_with_a_reason() {
    let no = |c: Cli| match pick_mode(c) {
        Err(why) => why,
        Ok(_) => panic!("expected a refusal"),
    };
    assert_eq!(no(Cli { username: None, ..cli() }), "--connect requires --username");
    assert_eq!(no(Cli { password: None, ..cli() }), "--connect requires --password");
    assert_eq!(
        no(Cli { username: Some("ab".into()), ..cli() }),
        "invalid username 'ab': must be 3..=24 ASCII chars, [a-z0-9_.-], starting with alnum"
    );
    assert_eq!(
        no(Cli { password: Some("short".into()), ..cli() }),
        "invalid password: must be 8..=128 chars"
    );
    assert_eq!(no(Cli { register: true, ..cli() }), "--register requires --email");
    assert_eq!(
        no(Cli { register: true, email: Some("a@b".into()), ..cli() }),
        "invalid email 'a@b'"
    );
    assert_eq!(
        no(Cli { email: Some("a@b.co".into()), ..cli() }),
        "--email is only meaningful with --register"
    );
}

// The report's command line

#[test]
fn agents_are_read_from_text() {
    let specs = parse_agents("calling, random:7 ,human", 1).unwrap();
    let names: Vec<String> = specs.iter().map(|s| s.name()).collect();
    assert_eq!(names, vec!["calling", "random:7", "human"]);
    assert!(specs[2].is_human());
    let no = |s: &str, t: usize| match parse_agents(s, t) {
        Err(why) => why,
        Ok(_) => panic!("expected a refusal"),
    };
    assert_eq!(no("calling", 1), "need at least 2 agents");
    assert_eq!(
        no("human,human", 1),
        "at most one human seat is supported (multiple humans share a terminal)"
    );
    assert_eq!(no("human,calling", 2), "human agent is not compatible with --threads > 1");
    assert_eq!(no("calling,random:x", 1), "invalid random seed in 'random:x'");
    assert_eq!(
        no("calling,shark", 1),
        "unknown agent 'shark' — valid options: calling, random:<seed>, human, nit:<seed>, \
         tag:<seed>, lag:<seed>, maniac:<seed>, tilt:<seed>"
    );
    assert_eq!(no("calling,tilt:", 1), "invalid tilt seed in 'tilt:'");
    assert!(matches!(AgentSpec::parse("nit:3"), Ok(AgentSpec::Nit(3))));
    assert!(matches!(AgentSpec::parse("tag:4"), Ok(AgentSpec::Tag(4))));
    assert!(matches!(AgentSpec::parse("tilt:5"), Ok(AgentSpec::Tilt(5))));
    for name in ["calling", "human", "random:18446744073709551615", "lag:1", "maniac:2"] {
        match AgentSpec::parse(name) {
            Ok(spec) => assert_eq!(spec.name(), name),
            Err(why) => panic!("{why}"),
        }
    }
}

#[test]
fn blinds_are_read_from_text() {
    assert_eq!(parse_blinds("1/2"), Ok((1, 2)));
    assert_eq!(parse_blinds(" 5 / 10 "), Ok((5, 10)));
    let no = |s: &str| parse_blinds(s).unwrap_err();
    assert_eq!(no("12"), "expected small/big format, got '12'");
    assert_eq!(no("x/2"), "invalid small blind 'x'");
    assert_eq!(no("1/y"), "invalid big blind 'y'");
    assert_eq!(no("2/2"), "blinds must satisfy 0 < sb < bb, got 2/2");
    assert_eq!(no("0/2"), "blinds must satisfy 0 < sb < bb, got 0/2");
}

#[test]
fn stacks_are_read_from_text() {
    assert_eq!(parse_stacks("500, 200,50", 3), Ok(vec![500, 200, 50]));
    assert_eq!(
        parse_stacks("500,x", 2).unwrap_err(),
        "invalid stack value 'x' in --stacks"
    );
    assert_eq!(
        parse_stacks("500,200", 3).unwrap_err(),
        "--stacks has 2 values but there are 3 agents"
    );
    assert_eq!(stack_label(&vec![200, 200]), "200");
    assert_eq!(stack_label(&vec![200, 50]), "200/50");
}

#[test]
fn pairs_are_read_from_text() {
    assert!(matches!(parse_pair("1/2", '/'), Ok((1, 2))));
    assert!(matches!(parse_pair("1", '/'), Err(PairError::Count(1))));
    assert!(matches!(parse_pair("1/2/3", '/'), Err(PairError::Count(3))));
    assert!(matches!(parse_pair("x/2", '/'), Err(PairError::First(why)) if why == "x"));
    assert!(matches!(parse_pair("1/x", '/'), Err(PairError::Second(why)) if why == "x"));
}

// The report

#[test]
fn reports_are_tables() {
    let figures = |n: u64, aggression: Option<&str>| Figures {
        hands_dealt: n,
        win: "33.3".into(),
        chip_ev: "-0.25".into(),
        vpip: "100.0".into(),
        pfr: "0.0".into(),
        aggression: aggression.map(String::from),
    };
    let setting = Setting {
        hands: 50,
        small_blind: 1,
        big_blind: 2,
        stack_label: "200",
        threads: 4,
        avg_pot: "6.5",
    };
    let names = vec!["calling".to_string(), "random:123456".to_string()];
    let rows = vec![figures(50, Some("1.50")), figures(49, None), figures(48, None)];
    let lines = report_lines(&setting, &names, &rows);
    let sep = format!(" {}", "─".repeat(69));
    let expected: Vec<String> = vec![
        String::new(),
        "poker_report  ·  50 hands  ·  1/2 NL Hold'em  ·  200bb starting stacks  ·  4 threads".into(),
        String::new(),
        sep.clone(),
        format!(
            " {:<4}  {:<13}  {:>6}  {:>6}  {:>8}  {:>6}  {:>6}  {:>5}",
            "Seat", "Agent", "Hands", "Win%", "Chip EV", "VPIP", "PFR", "AF"
        ),
        sep.clone(),
        format!(
            " {:<4}  {:<13}  {:>6}  {:>5.1}%  {:>+8.2}  {:>5.1}%  {:>5.1}%  {:>5}",
            0, "calling", 50, 33.3, -0.25, 100.0, 0.0, "1.50"
        ),
        format!(
            " {:<4}  {:<13}  {:>6}  {:>5.1}%  {:>+8.2}  {:>5.1}%  {:>5.1}%  {:>5}",
            1, "random:123456", 49, 33.3, -0.25, 100.0, 0.0, "∞"
        ),
        format!(
            " {:<4}  {:<13}  {:>6}  {:>5.1}%  {:>+8.2}  {:>5.1}%  {:>5.1}%  {:>5}",
            2, "?", 48, 33.3, -0.25, 100.0, 0.0, "∞"
        ),
        sep,
        "  Avg pot: 6.5 chips".into(),
        String::new(),
    ];
    assert_eq!(lines, expected);
}

// Solver

#[test]
fn abstract_actions_round_trip() {
    for i in 0..AbstractAction::COUNT {
        assert_eq!(AbstractAction::from_index(i).unwrap().index(), i);
    }
    assert!(AbstractAction::from_index(AbstractAction::COUNT).is_none());
    assert_eq!(AbstractAction::from_action(Action::Fold), AbstractAction::Fold);
}

#[test]
fn iterations_draw_dealer_and_deck() {
    assert_eq!(iteration(1, 0), iteration(1, 0));
    assert_ne!(iteration(1, 0).1, iteration(1, 1).1);
    assert_eq!(net_utility(&vec![150, 0], 0, 100), 50);
    assert_eq!(net_utility(&vec![150, 0], 1, 50), -50);
}

// Text

#[test]
fn numbers_in_text() {
    assert_eq!(text::number(0), "0");
    assert_eq!(text::number(u64::MAX), "18446744073709551615");
    assert_eq!(text::parse_number("18446744073709551615", u64::MAX), Some(u64::MAX));
    assert_eq!(text::parse_number("18446744073709551616", u64::MAX), None);
    assert_eq!(text::parse_number("+12", 100), Some(12));
    assert_eq!(text::parse_number("101", 100), None);
    assert_eq!(text::parse_number("", 100), None);
    assert_eq!(text::parse_number("+", 100), None);
    let mut s = String::new();
    text::push_signed(&mut s, -7);
    text::push_plus(&mut s, 7);
    text::push_plus(&mut s, 0);
    assert_eq!(s, "-7+7+0");
}

#[test]
fn pieces_of_text() {
    assert_eq!(text::trim(" \t a b \u{2003}"), "a b");
    assert_eq!(text::split_white("raise  12"), ("raise", Some(" 12")));
    assert_eq!(text::split_white("fold"), ("fold", None));
    assert_eq!(text::split_once("1/2/3", '/'), ("1", Some("2/3")));
    assert_eq!(text::split("a,,b", ','), vec!["a", "", "b"]);
    let mut s = String::new();
    text::push_left(&mut s, "ab", 4);
    text::push_right(&mut s, "cd", 4);
    text::push_repeated(&mut s, "-", 3);
    assert_eq!(s, "ab    cd---");
    assert!(text::same("abc", "abc"));
    assert!(!text::same("abc", "abd"));
}
