//! The report that ends a simulation: one line for each seat.
//!
//! Percentages and averages come in as text, so that a report is laid out without
//! computing them.

use vstd::prelude::*;

use crate::text;

verus! {

/// What the report shows of one seat.
pub struct Figures {
    pub hands_dealt: u64,
    /// Hands won, in percent.
    pub win: String,
    /// Chips won or lost per hand, with its sign.
    pub chip_ev: String,
    /// Hands entered voluntarily, in percent.
    pub vpip: String,
    /// Hands raised before the flop, in percent.
    pub pfr: String,
    /// Aggressive actions per call; `None` where nothing was called.
    pub aggression: Option<String>,
}

/// The figures as text.
#[verifier::ext_equal]
pub struct FiguresSight {
    pub hands_dealt: nat,
    pub win: Seq<char>,
    pub chip_ev: Seq<char>,
    pub vpip: Seq<char>,
    pub pfr: Seq<char>,
    pub aggression: Seq<char>,
}

impl View for Figures {
    type V = FiguresSight;

    open spec fn view(&self) -> FiguresSight {
        FiguresSight {
            hands_dealt: self.hands_dealt as nat,
            win: self.win@,
            chip_ev: self.chip_ev@,
            vpip: self.vpip@,
            pfr: self.pfr@,
            aggression: match self.aggression {
                Some(a) => a@,
                None => "∞"@,
            },
        }
    }
}

/// The figures seat by seat.
pub open spec fn figures_of(rows: Seq<Figures>) -> Seq<FiguresSight> {
    Seq::new(rows.len(), |i: int| rows[i]@)
}

/// What the whole report is about.
pub struct Setting<'a> {
    pub hands: u64,
    pub small_blind: u32,
    pub big_blind: u32,
    pub stack_label: &'a str,
    pub threads: usize,
    /// The average pot.
    pub avg_pot: &'a str,
}

/// The line above the table.
pub open spec fn title_of(setting: Setting<'_>) -> Seq<char> {
    "poker_report  ·  "@ + text::decimal(setting.hands as nat) + " hands  ·  "@ + text::decimal(
        setting.small_blind as nat,
    ) + "/"@ + text::decimal(setting.big_blind as nat) + " NL Hold'em  ·  "@
        + setting.stack_label@ + "bb starting stacks"@ + if setting.threads > 1 {
        "  ·  "@ + text::decimal(setting.threads as nat) + " threads"@
    } else {
        Seq::empty()
    }
}

/// How wide the column of names is: as wide as the longest name in bytes, and never
/// under seven.
pub open spec fn name_width(names: Seq<String>) -> int
    decreases names.len(),
{
    if names.len() == 0 {
        7
    } else {
        let before = name_width(names.drop_last());
        let last = vstd::utf8::encode_utf8(names.last()@).len() as int;
        if last > before {
            last
        } else {
            before
        }
    }
}

/// The names of the columns.
pub open spec fn header_of(width: int) -> Seq<char> {
    " "@ + text::left("Seat"@, 4) + "  "@ + text::left("Agent"@, width) + "  "@ + text::right(
        "Hands"@,
        6,
    ) + "  "@ + text::right("Win%"@, 6) + "  "@ + text::right("Chip EV"@, 8) + "  "@ + text::right(
        "VPIP"@,
        6,
    ) + "  "@ + text::right("PFR"@, 6) + "  "@ + text::right("AF"@, 5)
}

/// The line of `seat`.
pub open spec fn row_of(seat: int, name: Seq<char>, width: int, f: FiguresSight) -> Seq<char> {
    " "@ + text::left(text::decimal(seat as nat), 4) + "  "@ + text::left(name, width) + "  "@
        + text::right(text::decimal(f.hands_dealt), 6) + "  "@ + text::right(f.win, 5) + "%  "@
        + text::right(f.chip_ev, 8) + "  "@ + text::right(f.vpip, 5) + "%  "@ + text::right(
        f.pfr,
        5,
    ) + "%  "@ + text::right(f.aggression, 5)
}

/// The name of `seat`, or a question mark where it has none.
pub open spec fn name_at(names: Seq<String>, seat: int) -> Seq<char> {
    if seat < names.len() {
        names[seat]@
    } else {
        "?"@
    }
}

/// The lines of the seats.
pub open spec fn rows_of(names: Seq<String>, rows: Seq<FiguresSight>) -> Seq<Seq<char>> {
    Seq::new(rows.len(), |i: int| row_of(i, name_at(names, i), name_width(names), rows[i]))
}

/// A line across the table, as long as its header.
pub open spec fn rule_of(width: int) -> Seq<char> {
    " "@ + text::repeated("─"@, header_of(width).len() as int)
}

/// The whole report.
pub open spec fn report_of(
    setting: Setting<'_>,
    names: Seq<String>,
    rows: Seq<FiguresSight>,
) -> Seq<Seq<char>> {
    let width = name_width(names);
    seq![
        ""@,
        title_of(setting),
        ""@,
        rule_of(width),
        header_of(width),
        rule_of(width),
    ] + rows_of(names, rows) + seq![
        rule_of(width),
        "  Avg pot: "@ + setting.avg_pot@ + " chips"@,
        ""@,
    ]
}

fn title(setting: &Setting<'_>) -> (s: String)
    ensures
        s@ == title_of(*setting),
{
    let mut s = "poker_report  ·  ".to_owned();
    text::push_decimal(&mut s, setting.hands);
    s.append(" hands  ·  ");
    text::push_decimal(&mut s, setting.small_blind as u64);
    s.append("/");
    text::push_decimal(&mut s, setting.big_blind as u64);
    s.append(" NL Hold'em  ·  ");
    s.append(setting.stack_label);
    s.append("bb starting stacks");
    if setting.threads > 1 {
        let ghost before = s@;
        s.append("  ·  ");
        text::push_decimal(&mut s, setting.threads as u64);
        s.append(" threads");
        assert(s@ =~= before + ("  ·  "@ + text::decimal(setting.threads as nat) + " threads"@));
    }
    assert(s@ =~= title_of(*setting));
    s
}

fn width_of(names: &Vec<String>) -> (width: usize)
    ensures
        width == name_width(names@),
{
    let mut width: usize = 7;
    let mut i: usize = 0;
    while i < names.len()
        invariant
            i <= names@.len(),
            width == name_width(names@.take(i as int)),
        decreases names@.len() - i,
    {
        let n: usize = names[i].as_str().as_bytes().len();
        assert(names@.take(i + 1).drop_last() =~= names@.take(i as int));
        if n > width {
            width = n;
        }
        i = i + 1;
    }
    assert(names@.take(i as int) =~= names@);
    width
}

fn header(width: usize) -> (s: String)
    ensures
        s@ == header_of(width as int),
{
    let mut s = " ".to_owned();
    text::push_left(&mut s, "Seat", 4);
    s.append("  ");
    text::push_left(&mut s, "Agent", width);
    s.append("  ");
    text::push_right(&mut s, "Hands", 6);
    s.append("  ");
    text::push_right(&mut s, "Win%", 6);
    s.append("  ");
    text::push_right(&mut s, "Chip EV", 8);
    s.append("  ");
    text::push_right(&mut s, "VPIP", 6);
    s.append("  ");
    text::push_right(&mut s, "PFR", 6);
    s.append("  ");
    text::push_right(&mut s, "AF", 5);
    s
}

fn rule(width: usize) -> (s: String)
    ensures
        s@ == rule_of(width as int),
{
    let names = header(width);
    let mut s = " ".to_owned();
    text::push_repeated(&mut s, "─", names.as_str().unicode_len());
    s
}

fn row(seat: usize, name: &str, width: usize, f: &Figures) -> (s: String)
    ensures
        s@ == row_of(seat as int, name@, width as int, f@),
{
    let mut s = " ".to_owned();
    text::push_left(&mut s, text::number(seat as u64).as_str(), 4);
    s.append("  ");
    text::push_left(&mut s, name, width);
    s.append("  ");
    text::push_right(&mut s, text::number(f.hands_dealt).as_str(), 6);
    s.append("  ");
    text::push_right(&mut s, f.win.as_str(), 5);
    s.append("%  ");
    text::push_right(&mut s, f.chip_ev.as_str(), 8);
    s.append("  ");
    text::push_right(&mut s, f.vpip.as_str(), 5);
    s.append("%  ");
    text::push_right(&mut s, f.pfr.as_str(), 5);
    s.append("%  ");
    match &f.aggression {
        Some(a) => text::push_right(&mut s, a.as_str(), 5),
        None => text::push_right(&mut s, "∞", 5),
    }
    s
}

/// The lines of the report: the title, the table and the average pot.
pub fn report_lines(setting: &Setting<'_>, names: &Vec<String>, rows: &Vec<Figures>) -> (lines: Vec<
    String,
>)
    ensures
        text::lines(lines@) == report_of(*setting, names@, figures_of(rows@)),
{
    let width: usize = width_of(names);
    let mut lines: Vec<String> = Vec::new();
    text::push_line(&mut lines, "".to_owned());
    text::push_line(&mut lines, title(setting));
    text::push_line(&mut lines, "".to_owned());
    text::push_line(&mut lines, rule(width));
    text::push_line(&mut lines, header(width));
    text::push_line(&mut lines, rule(width));
    let ghost head = text::lines(lines@);
    let ghost table = rows_of(names@, figures_of(rows@));
    assert(head =~= seq![
        ""@,
        title_of(*setting),
        ""@,
        rule_of(width as int),
        header_of(width as int),
        rule_of(width as int),
    ]);
    let mut i: usize = 0;
    assert(head + table.take(0) =~= head);
    while i < rows.len()
        invariant
            i <= rows@.len(),
            width == name_width(names@),
            table == rows_of(names@, figures_of(rows@)),
            text::lines(lines@) == head + table.take(i as int),
        decreases rows@.len() - i,
    {
        let line = if i < names.len() {
            row(i, names[i].as_str(), width, &rows[i])
        } else {
            row(i, "?", width, &rows[i])
        };
        assert(line@ == table[i as int]);
        text::push_line(&mut lines, line);
        i = i + 1;
        assert(table.take(i as int) =~= table.take(i - 1).push(table[i - 1]));
        assert(text::lines(lines@) =~= head + table.take(i as int));
    }
    assert(table.take(i as int) =~= table);
    text::push_line(&mut lines, rule(width));
    let mut pot = "  Avg pot: ".to_owned();
    pot.append(setting.avg_pot);
    pot.append(" chips");
    text::push_line(&mut lines, pot);
    text::push_line(&mut lines, "".to_owned());
    assert(text::lines(lines@) =~= report_of(*setting, names@, figures_of(rows@)));
    lines
}

/// The column of names holds every name, and is no wider than the longest one asks for.
pub proof fn names_fit_their_column(names: Seq<String>, i: int)
    ensures
        name_width(names) >= 7,
        0 <= i < names.len() ==> vstd::utf8::encode_utf8(names[i]@).len() <= name_width(names),
        name_width(names) == 7 || exists|k: int|
            0 <= k < names.len() && vstd::utf8::encode_utf8((#[trigger] names[k])@).len()
                == name_width(names),
    decreases names.len(),
{
    if names.len() > 0 {
        let head = names.drop_last();
        names_fit_their_column(head, i);
        if 0 <= i < head.len() {
            assert(head[i] == names[i]);
        }
        if name_width(names) != 7 {
            if name_width(names) == name_width(head) {
                let k = choose|k: int|
                    0 <= k < head.len() && vstd::utf8::encode_utf8((#[trigger] head[k])@).len()
                        == name_width(head);
                assert(names[k] == head[k]);
            } else {
                assert(names[names.len() - 1] == names.last());
            }
        }
    }
}

/// The figures stand under their names: where everything fits its column, each line is as
/// long as the header, and each column of it holds the figure that the header names.
pub proof fn figures_stand_under_their_names(
    seat: int,
    name: Seq<char>,
    width: int,
    f: FiguresSight,
)
    requires
        0 <= seat,
        text::decimal(seat as nat).len() <= 4,
        5 <= width,
        name.len() <= width,
        text::decimal(f.hands_dealt).len() <= 6,
        f.win.len() <= 5,
        f.chip_ev.len() <= 8,
        f.vpip.len() <= 5,
        f.pfr.len() <= 5,
        f.aggression.len() <= 5,
    ensures
        ({
            let row = row_of(seat, name, width, f);
            let head = header_of(width);
            let w = width + 9;
            &&& row.len() == head.len() == w + 47
            &&& head.subrange(1, 5) == text::left("Seat"@, 4)
            &&& row.subrange(1, 5) == text::left(text::decimal(seat as nat), 4)
            &&& head.subrange(7, 7 + width) == text::left("Agent"@, width)
            &&& row.subrange(7, 7 + width) == text::left(name, width)
            &&& head.subrange(w, w + 6) == text::right("Hands"@, 6)
            &&& row.subrange(w, w + 6) == text::right(text::decimal(f.hands_dealt), 6)
            &&& head.subrange(w + 8, w + 14) == text::right("Win%"@, 6)
            &&& row.subrange(w + 8, w + 13) == text::right(f.win, 5)
            &&& row[w + 13] == '%'
            &&& head.subrange(w + 16, w + 24) == text::right("Chip EV"@, 8)
            &&& row.subrange(w + 16, w + 24) == text::right(f.chip_ev, 8)
            &&& head.subrange(w + 26, w + 32) == text::right("VPIP"@, 6)
            &&& row.subrange(w + 26, w + 31) == text::right(f.vpip, 5)
            &&& row[w + 31] == '%'
            &&& head.subrange(w + 34, w + 40) == text::right("PFR"@, 6)
            &&& row.subrange(w + 34, w + 39) == text::right(f.pfr, 5)
            &&& row[w + 39] == '%'
            &&& head.subrange(w + 42, w + 47) == text::right("AF"@, 5)
            &&& row.subrange(w + 42, w + 47) == text::right(f.aggression, 5)
        }),
{
    reveal_strlit(" ");
    reveal_strlit("  ");
    reveal_strlit("%  ");
    reveal_strlit("Seat");
    reveal_strlit("Agent");
    reveal_strlit("Hands");
    reveal_strlit("Win%");
    reveal_strlit("Chip EV");
    reveal_strlit("VPIP");
    reveal_strlit("PFR");
    reveal_strlit("AF");
    let row = row_of(seat, name, width, f);
    let head = header_of(width);
    let w = width + 9;
    text::fields_are_filled(text::decimal(seat as nat), 4);
    text::fields_are_filled(name, width);
    text::fields_are_filled("Agent"@, width);
    assert(head.subrange(1, 5) =~= text::left("Seat"@, 4));
    assert(row.subrange(1, 5) =~= text::left(text::decimal(seat as nat), 4));
    assert(head.subrange(7, 7 + width) =~= text::left("Agent"@, width));
    assert(row.subrange(7, 7 + width) =~= text::left(name, width));
    assert(head.subrange(w, w + 6) =~= text::right("Hands"@, 6));
    assert(row.subrange(w, w + 6) =~= text::right(text::decimal(f.hands_dealt), 6));
    assert(head.subrange(w + 8, w + 14) =~= text::right("Win%"@, 6));
    assert(row.subrange(w + 8, w + 13) =~= text::right(f.win, 5));
    assert(head.subrange(w + 16, w + 24) =~= text::right("Chip EV"@, 8));
    assert(row.subrange(w + 16, w + 24) =~= text::right(f.chip_ev, 8));
    assert(head.subrange(w + 26, w + 32) =~= text::right("VPIP"@, 6));
    assert(row.subrange(w + 26, w + 31) =~= text::right(f.vpip, 5));
    assert(head.subrange(w + 34, w + 40) =~= text::right("PFR"@, 6));
    assert(row.subrange(w + 34, w + 39) =~= text::right(f.pfr, 5));
    assert(head.subrange(w + 42, w + 47) =~= text::right("AF"@, 5));
    assert(row.subrange(w + 42, w + 47) =~= text::right(f.aggression, 5));
}

} // verus!
