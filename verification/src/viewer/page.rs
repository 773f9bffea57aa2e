//! A snapshot laid out for drawing: every text, row and colour that is shown.

use vstd::prelude::*;

use super::snapshot;
use super::snapshot::{PlayerSight, PlayerView, SnapSight, Snapshot};
use crate::cards::{Card, Suit};
use crate::game::event::{HandResult, SeatOutcome};
use crate::game::model;
use crate::text;

verus! {

/// A card as it is drawn: its name, and whether it is red.
#[derive(Debug)]
pub struct CardChip {
    pub text: String,
    pub red: bool,
}

/// A drawn card.
#[verifier::ext_equal]
pub struct ChipSight {
    pub text: Seq<char>,
    pub red: bool,
}

impl View for CardChip {
    type V = ChipSight;

    open spec fn view(&self) -> ChipSight {
        ChipSight { text: self.text@, red: self.red }
    }
}

/// How `card` is drawn: hearts and diamonds are red.
pub open spec fn chip(card: Card) -> ChipSight {
    ChipSight {
        text: card.text(),
        red: card.spec_suit() == Suit::Hearts || card.spec_suit() == Suit::Diamonds,
    }
}

/// Draws a card.
pub fn card_chip(card: Card) -> (c: CardChip)
    ensures
        c@ == chip(card),
{
    let suit = card.suit();
    CardChip { text: card.to_text(), red: suit == Suit::Hearts || suit == Suit::Diamonds }
}

/// One player's row.
#[derive(Debug)]
pub struct PlayerRow {
    pub label: String,
    /// The two cards, if they are known.
    pub cards: Option<(CardChip, CardChip)>,
    pub folded: bool,
    pub all_in: bool,
    /// Shown only where chips were committed.
    pub committed: Option<String>,
}

/// One player's row.
#[verifier::ext_equal]
pub struct PlayerRowSight {
    pub label: Seq<char>,
    pub cards: Option<(ChipSight, ChipSight)>,
    pub folded: bool,
    pub all_in: bool,
    pub committed: Option<Seq<char>>,
}

/// Two drawn cards, if there are any.
pub open spec fn chips_seen(cards: Option<(CardChip, CardChip)>) -> Option<(ChipSight, ChipSight)> {
    match cards {
        Some((a, b)) => Some((a@, b@)),
        None => None,
    }
}

/// A text, if there is one.
pub open spec fn text_seen(t: Option<String>) -> Option<Seq<char>> {
    match t {
        Some(s) => Some(s@),
        None => None,
    }
}

impl View for PlayerRow {
    type V = PlayerRowSight;

    open spec fn view(&self) -> PlayerRowSight {
        PlayerRowSight {
            label: self.label@,
            cards: chips_seen(self.cards),
            folded: self.folded,
            all_in: self.all_in,
            committed: text_seen(self.committed),
        }
    }
}

/// How two hole cards are drawn.
pub open spec fn hole_chips(hole: Option<(Card, Card)>) -> Option<(ChipSight, ChipSight)> {
    match hole {
        Some((a, b)) => Some((chip(a), chip(b))),
        None => None,
    }
}

/// The row of player `i`.
pub open spec fn player_row(i: int, p: PlayerSight) -> PlayerRowSight {
    PlayerRowSight {
        label: "seat "@ + text::right(text::decimal(i as nat), 2),
        cards: hole_chips(p.hole),
        folded: p.folded,
        all_in: p.all_in,
        committed: if p.committed > 0 {
            Some("committed "@ + text::decimal(p.committed as nat))
        } else {
            None
        },
    }
}

/// One line of a hand's result.
#[derive(Debug)]
pub struct ResultRow {
    pub label: String,
    /// What was won or lost, with its sign.
    pub delta: String,
    /// Nothing was lost.
    pub won: bool,
    pub sat_out: bool,
    pub cards: Option<(CardChip, CardChip)>,
}

/// One line of a hand's result.
#[verifier::ext_equal]
pub struct ResultRowSight {
    pub label: Seq<char>,
    pub delta: Seq<char>,
    pub won: bool,
    pub sat_out: bool,
    pub cards: Option<(ChipSight, ChipSight)>,
}

impl View for ResultRow {
    type V = ResultRowSight;

    open spec fn view(&self) -> ResultRowSight {
        ResultRowSight {
            label: self.label@,
            delta: self.delta@,
            won: self.won,
            sat_out: self.sat_out,
            cards: chips_seen(self.cards),
        }
    }
}

/// The line of one seat's outcome.
pub open spec fn result_row(o: model::SeatResult) -> ResultRowSight {
    ResultRowSight {
        label: "seat "@ + text::decimal(o.seat as nat),
        delta: text::plus_decimal(o.chip_delta),
        won: o.chip_delta >= 0,
        sat_out: o.sat_out,
        cards: hole_chips(o.hole),
    }
}

/// Everything that is drawn of a hand.
#[derive(Debug)]
pub struct Page {
    pub heading: String,
    pub dealer: String,
    pub street: String,
    pub pot: String,
    pub board: Vec<CardChip>,
    pub players: Vec<PlayerRow>,
    /// The result, once the hand is over.
    pub result: Option<Vec<ResultRow>>,
}

/// Everything that is drawn of a hand, apart from the action log.
#[verifier::ext_equal]
pub struct PageSight {
    pub heading: Seq<char>,
    pub dealer: Seq<char>,
    pub street: Seq<char>,
    pub pot: Seq<char>,
    pub board: Seq<ChipSight>,
    pub players: Seq<PlayerRowSight>,
    pub result: Option<Seq<ResultRowSight>>,
}

/// The result's lines one by one.
pub open spec fn result_rows_seen(rows: Option<Vec<ResultRow>>) -> Option<Seq<ResultRowSight>> {
    match rows {
        Some(v) => Some(Seq::new(v@.len(), |i: int| v@[i]@)),
        None => None,
    }
}

impl View for Page {
    type V = PageSight;

    open spec fn view(&self) -> PageSight {
        PageSight {
            heading: self.heading@,
            dealer: self.dealer@,
            street: self.street@,
            pot: self.pot@,
            board: Seq::new(self.board@.len(), |i: int| self.board@[i]@),
            players: Seq::new(self.players@.len(), |i: int| self.players@[i]@),
            result: result_rows_seen(self.result),
        }
    }
}

/// The lines of an outcome.
pub open spec fn result_rows(o: model::Outcome) -> Seq<ResultRowSight> {
    Seq::new(o.seats.len(), |i: int| result_row(o.seats[i]))
}

/// How a snapshot is laid out.
pub open spec fn layout(s: SnapSight) -> PageSight {
    PageSight {
        heading: match s.hand_id {
            Some(h) => "Hand #"@ + text::decimal(h as nat),
            None => "No hand started"@,
        },
        dealer: "dealer: "@ + match s.dealer {
            Some(d) => text::decimal(d as nat),
            None => "—"@,
        },
        street: "street: "@ + match s.street {
            Some(street) => street.name(),
            None => "—"@,
        },
        pot: "pot: "@ + text::decimal(s.pot_total as nat),
        board: Seq::new(s.board.len(), |i: int| chip(s.board[i])),
        players: Seq::new(s.players.len(), |i: int| player_row(i, s.players[i])),
        result: match s.terminal {
            Some(o) => Some(result_rows(o)),
            None => None,
        },
    }
}

fn draw_hole(hole: Option<[Card; 2]>) -> (chips: Option<(CardChip, CardChip)>)
    ensures
        chips_seen(chips) == hole_chips(crate::game::state::hole_pair(hole)),
{
    match hole {
        Some(cards) => Some((card_chip(cards[0]), card_chip(cards[1]))),
        None => None,
    }
}

fn draw_player(i: usize, p: &PlayerView) -> (row: PlayerRow)
    ensures
        row@ == player_row(i as int, p@),
{
    let mut label = String::new();
    label.append("seat ");
    text::push_right(&mut label, text::number(i as u64).as_str(), 2);
    assert(label@ =~= "seat "@ + text::right(text::decimal(i as nat), 2));
    let committed = if p.total_committed > 0 {
        let mut c = String::new();
        c.append("committed ");
        text::push_decimal(&mut c, p.total_committed as u64);
        assert(c@ =~= "committed "@ + text::decimal(p.total_committed as nat));
        Some(c)
    } else {
        None
    };
    PlayerRow {
        label,
        cards: draw_hole(p.hole_cards),
        folded: p.folded,
        all_in: p.all_in,
        committed,
    }
}

fn draw_outcome(o: &SeatOutcome) -> (row: ResultRow)
    ensures
        row@ == result_row(o@),
{
    let mut label = String::new();
    label.append("seat ");
    text::push_decimal(&mut label, o.seat as u64);
    assert(label@ =~= "seat "@ + text::decimal(o.seat as nat));
    let mut delta = String::new();
    text::push_plus(&mut delta, o.chip_delta as i64);
    assert(delta@ =~= text::plus_decimal(o.chip_delta as int));
    ResultRow {
        label,
        delta,
        won: o.chip_delta >= 0,
        sat_out: o.sat_out,
        cards: draw_hole(o.hole_cards),
    }
}

fn draw_result(result: &HandResult) -> (rows: Vec<ResultRow>)
    ensures
        result_rows_seen(Some(rows)) == Some(result_rows(result@)),
{
    let mut rows: Vec<ResultRow> = Vec::new();
    let mut i: usize = 0;
    while i < result.seats.len()
        invariant
            i <= result.seats@.len(),
            rows@.len() == i,
            forall|k: int| 0 <= k < i ==> (#[trigger] rows@[k])@ == result_row(result@.seats[k]),
        decreases result.seats@.len() - i,
    {
        assert(result@.seats[i as int] == result.seats@[i as int]@);
        rows.push(draw_outcome(&result.seats[i]));
        i = i + 1;
    }
    assert(Seq::new(rows@.len(), |i: int| rows@[i]@) =~= result_rows(result@));
    rows
}

impl Snapshot {
    /// Lays the snapshot out for drawing.
    pub fn page(&self) -> (page: Page)
        ensures
            page@ == layout(self@),
    {
        let mut heading = String::new();
        match self.hand_id {
            Some(h) => {
                heading.append("Hand #");
                text::push_decimal(&mut heading, h);
            },
            None => heading.append("No hand started"),
        }
        assert(heading@ =~= layout(self@).heading);
        let mut dealer = String::new();
        dealer.append("dealer: ");
        match self.dealer {
            Some(d) => text::push_decimal(&mut dealer, d as u64),
            None => dealer.append("—"),
        }
        assert(dealer@ =~= layout(self@).dealer);
        let mut street = String::new();
        street.append("street: ");
        match self.street {
            Some(st) => street.append(st.as_str()),
            None => street.append("—"),
        }
        assert(street@ =~= layout(self@).street);
        let mut pot = String::new();
        pot.append("pot: ");
        text::push_decimal(&mut pot, self.pot_total as u64);
        assert(pot@ =~= layout(self@).pot);
        let mut board: Vec<CardChip> = Vec::new();
        let mut i: usize = 0;
        while i < self.board.len()
            invariant
                i <= self.board@.len(),
                board@.len() == i,
                forall|k: int| 0 <= k < i ==> (#[trigger] board@[k])@ == chip(self.board@[k]),
            decreases self.board@.len() - i,
        {
            board.push(card_chip(self.board[i]));
            i = i + 1;
        }
        let mut players: Vec<PlayerRow> = Vec::new();
        let mut i: usize = 0;
        while i < self.players.len()
            invariant
                i <= self.players@.len(),
                players@.len() == i,
                forall|k: int|
                    0 <= k < i ==> (#[trigger] players@[k])@ == player_row(k, self.players@[k]@),
            decreases self.players@.len() - i,
        {
            players.push(draw_player(i, &self.players[i]));
            i = i + 1;
        }
        let result = match &self.terminal {
            Some(r) => Some(draw_result(r)),
            None => None,
        };
        let page = Page { heading, dealer, street, pot, board, players, result };
        proof {
            assert(page@.board =~= layout(self@).board);
            assert(page@.players =~= layout(self@).players);
            assert(self@.terminal == snapshot::outcome_of(self.terminal));
            assert(page@.result =~= layout(self@).result);
        }
        page
    }
}

} // verus!
