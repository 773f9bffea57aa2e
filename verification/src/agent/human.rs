//! A human at a terminal: what is shown, and what a typed line means. Printing and
//! reading are the host's.

use vstd::prelude::*;

use super::{Observation, PublicPlayerState, Sight};
use crate::game::action::{Action, LegalActions};
use crate::game::event::{EngineEvent, HandResult, SeatOutcome};
use crate::game::model;
use crate::game::state::{HandId, SeatIndex};
use crate::text;
use crate::viewer::snapshot;

verus! {

/// An interactive player. Not suitable for parallel simulation.
pub struct HumanAgent {
    my_seat: Option<SeatIndex>,
}

// ---------------------------------------------------------------------------
// What a typed line means
// ---------------------------------------------------------------------------

/// The commands for folding.
pub open spec fn means_fold(cmd: Seq<char>) -> bool {
    cmd == "f"@ || cmd == "fold"@
}

/// The commands for going all-in.
pub open spec fn means_all_in(cmd: Seq<char>) -> bool {
    cmd == "a"@ || cmd == "allin"@ || cmd == "all-in"@ || cmd == "all_in"@
}

/// The commands for raising.
pub open spec fn means_raise(cmd: Seq<char>) -> bool {
    cmd == "r"@ || cmd == "raise"@
}

/// The smallest and the largest raise, in words.
pub open spec fn raise_range(legal: LegalActions) -> Seq<char> {
    text::decimal(legal.min_raise as nat) + " – "@ + text::decimal(legal.max_raise as nat)
}

/// The answer to a command to raise with argument `arg`.
pub open spec fn understood_raise(arg: Option<Seq<char>>, legal: LegalActions) -> Result<
    Action,
    Seq<char>,
> {
    if !legal.can_raise {
        Err("raise is not legal here"@)
    } else {
        match arg {
            None => Err("usage: raise <amount>  ("@ + raise_range(legal) + ")"@),
            Some(a) => match text::number_in(a) {
                Some(n) => if n > u32::MAX {
                    Err("'"@ + a + "' is not a valid chip amount"@)
                } else if n < legal.min_raise || n > legal.max_raise {
                    Err(
                        "raise amount must be between "@ + text::decimal(legal.min_raise as nat)
                            + " and "@ + text::decimal(legal.max_raise as nat) + " (got "@
                            + text::decimal(n) + ")"@,
                    )
                } else {
                    Ok(Action::Raise(n as u32))
                },
                None => Err("'"@ + a + "' is not a valid chip amount"@),
            },
        }
    }
}

/// What `input` means where `legal` is open: an action, or what is wrong with it.
pub open spec fn understood(input: Seq<char>, legal: LegalActions) -> Result<Action, Seq<char>> {
    let at = text::first_white(input);
    let cmd = input.take(at);
    let arg = if at < input.len() {
        Some(text::trimmed(input.skip(at + 1)))
    } else {
        None
    };
    if means_fold(cmd) {
        Ok(Action::Fold)
    } else if (cmd == "c"@ || cmd == "check"@) && legal.can_check {
        Ok(Action::Check)
    } else if (cmd == "c"@ || cmd == "call"@) && legal.can_call {
        Ok(Action::Call)
    } else if cmd == "c"@ || cmd == "check"@ || cmd == "call"@ {
        Err("neither check nor call is legal here"@)
    } else if means_all_in(cmd) {
        if legal.all_in_amount > 0 {
            Ok(Action::AllIn)
        } else {
            Err("you have no chips to go all-in with"@)
        }
    } else if means_raise(cmd) {
        understood_raise(arg, legal)
    } else {
        Err(
            "unknown command '"@ + cmd
                + "' — try: fold, check, call, raise <amount>, allin"@,
        )
    }
}

/// The same answer, with the message as characters.
pub open spec fn answers_with(r: Result<Action, String>, said: Result<Action, Seq<char>>) -> bool {
    match said {
        Ok(a) => r == Ok::<Action, String>(a),
        Err(msg) => r matches Err(m) && m@ == msg,
    }
}

fn push_range(s: &mut String, la: &LegalActions)
    ensures
        final(s)@ == old(s)@ + raise_range(*la),
{
    text::push_decimal(s, la.min_raise as u64);
    s.append(" – ");
    text::push_decimal(s, la.max_raise as u64);
    assert(s@ =~= old(s)@ + raise_range(*la));
}

fn parse_raise(arg: Option<&str>, la: &LegalActions) -> (r: Result<Action, String>)
    ensures
        answers_with(
            r,
            understood_raise(
                match arg {
                    Some(a) => Some(a@),
                    None => None,
                },
                *la,
            ),
        ),
{
    if !la.can_raise {
        return Err("raise is not legal here".to_owned());
    }
    let amount_str = match arg {
        None => {
            let mut msg = "usage: raise <amount>  (".to_owned();
            push_range(&mut msg, la);
            msg.append(")");
            assert(msg@ =~= "usage: raise <amount>  ("@ + raise_range(*la) + ")"@);
            return Err(msg);
        },
        Some(a) => a,
    };
    let amount: u64 = match text::parse_number(amount_str, u32::MAX as u64) {
        None => {
            let mut msg = "'".to_owned();
            msg.append(amount_str);
            msg.append("' is not a valid chip amount");
            assert(msg@ =~= "'"@ + amount_str@ + "' is not a valid chip amount"@);
            return Err(msg);
        },
        Some(n) => n,
    };
    if amount < la.min_raise as u64 || amount > la.max_raise as u64 {
        let mut msg = "raise amount must be between ".to_owned();
        text::push_decimal(&mut msg, la.min_raise as u64);
        msg.append(" and ");
        text::push_decimal(&mut msg, la.max_raise as u64);
        msg.append(" (got ");
        text::push_decimal(&mut msg, amount);
        msg.append(")");
        assert(msg@ =~= "raise amount must be between "@ + text::decimal(la.min_raise as nat)
            + " and "@ + text::decimal(la.max_raise as nat) + " (got "@ + text::decimal(
            amount as nat,
        ) + ")"@);
        return Err(msg);
    }
    Ok(Action::Raise(amount as u32))
}

/// What a command means where `la` is open: an action, or what is wrong with it. The
/// command is in lower case.
pub fn parse_input(input: &str, la: &LegalActions) -> (r: Result<Action, String>)
    ensures
        answers_with(r, understood(input@, *la)),
{
    let (cmd, rest) = text::split_white(input);
    let arg = match rest {
        Some(t) => Some(text::trim(t)),
        None => None,
    };
    if text::same(cmd, "f") || text::same(cmd, "fold") {
        return Ok(Action::Fold);
    }
    let either = text::same(cmd, "c");
    let check = text::same(cmd, "check");
    let call = text::same(cmd, "call");
    if (either || check) && la.can_check {
        return Ok(Action::Check);
    }
    if (either || call) && la.can_call {
        return Ok(Action::Call);
    }
    if either || check || call {
        return Err("neither check nor call is legal here".to_owned());
    }
    if text::same(cmd, "a") || text::same(cmd, "allin") || text::same(cmd, "all-in") || text::same(
        cmd,
        "all_in",
    ) {
        return if la.all_in_amount > 0 {
            Ok(Action::AllIn)
        } else {
            Err("you have no chips to go all-in with".to_owned())
        };
    }
    if text::same(cmd, "r") || text::same(cmd, "raise") {
        return parse_raise(arg, la);
    }
    let mut msg = "unknown command '".to_owned();
    msg.append(cmd);
    msg.append("' — try: fold, check, call, raise <amount>, allin");
    assert(msg@ =~= "unknown command '"@ + cmd@
        + "' — try: fold, check, call, raise <amount>, allin"@);
    Err(msg)
}

/// What a line that was typed means: letter case and white space around it do not
/// matter.
pub fn parse_line(line: &str, la: &LegalActions) -> (r: Result<Action, String>)
    ensures
        answers_with(r, understood(text::lowercased(text::trimmed(line@)), *la)),
{
    let input = text::to_lowercase(text::trim(line));
    parse_input(input.as_str(), la)
}

/// A human cannot choose what is not open to them.
pub proof fn humans_play_legally(input: Seq<char>, legal: LegalActions)
    ensures
        understood(input, legal) matches Ok(action) ==> legal.allows(action),
{
}

/// What the one-word commands do, where they are open.
pub proof fn words_mean_actions(legal: LegalActions)
    ensures
        understood("f"@, legal) == Ok::<Action, Seq<char>>(Action::Fold),
        understood("fold"@, legal) == Ok::<Action, Seq<char>>(Action::Fold),
        legal.can_check ==> understood("check"@, legal) == Ok::<Action, Seq<char>>(Action::Check),
        legal.can_call ==> understood("call"@, legal) == Ok::<Action, Seq<char>>(Action::Call),
        legal.can_check ==> understood("c"@, legal) == Ok::<Action, Seq<char>>(Action::Check),
        !legal.can_check && legal.can_call ==> understood("c"@, legal) == Ok::<Action, Seq<char>>(
            Action::Call,
        ),
        legal.all_in_amount > 0 ==> {
            &&& understood("a"@, legal) == Ok::<Action, Seq<char>>(Action::AllIn)
            &&& understood("allin"@, legal) == Ok::<Action, Seq<char>>(Action::AllIn)
            &&& understood("all-in"@, legal) == Ok::<Action, Seq<char>>(Action::AllIn)
            &&& understood("all_in"@, legal) == Ok::<Action, Seq<char>>(Action::AllIn)
        },
        understood("check"@, legal) is Ok <==> legal.can_check,
        understood("call"@, legal) is Ok <==> legal.can_call,
        understood("c"@, legal) is Ok <==> legal.can_check || legal.can_call,
        understood("allin"@, legal) is Ok <==> legal.all_in_amount > 0,
        understood("r"@, legal) is Err,
        understood("raise"@, legal) is Err,
{
    reveal_strlit("f");
    reveal_strlit("fold");
    reveal_strlit("c");
    reveal_strlit("check");
    reveal_strlit("call");
    reveal_strlit("a");
    reveal_strlit("allin");
    reveal_strlit("all-in");
    reveal_strlit("all_in");
    reveal_strlit("r");
    reveal_strlit("raise");
    text::words_have_no_white("f"@);
    text::words_have_no_white("fold"@);
    text::words_have_no_white("c"@);
    text::words_have_no_white("check"@);
    text::words_have_no_white("call"@);
    text::words_have_no_white("a"@);
    text::words_have_no_white("allin"@);
    text::words_have_no_white("all-in"@);
    text::words_have_no_white("all_in"@);
    text::words_have_no_white("r"@);
    text::words_have_no_white("raise"@);
    assert("f"@[0] != "c"@[0]);
    assert("fold"@[0] == 'f' && "check"@[0] == 'c' && "call"@[0] == 'c' && "c"@[0] == 'c');
    assert("a"@[0] == 'a' && "allin"@[0] == 'a' && "all-in"@[0] == 'a' && "all_in"@[0] == 'a');
    assert("r"@[0] == 'r' && "raise"@[0] == 'r' && "f"@[0] == 'f');
    assert("check"@[1] == 'h' && "call"@[1] == 'a');
    assert("c"@.len() == 1 && "check"@.len() == 5 && "call"@.len() == 4);
}

/// A raise is typed as the command, a space and the amount in digits. It is understood
/// exactly if a raise of that size is open, and then as that raise.
pub proof fn typed_raises_stand(n: u32, legal: LegalActions)
    ensures
        ({
            let open = legal.can_raise && legal.min_raise <= n <= legal.max_raise;
            let long = understood("raise "@ + text::decimal(n as nat), legal);
            let short = understood("r "@ + text::decimal(n as nat), legal);
            &&& open ==> long == Ok::<Action, Seq<char>>(Action::Raise(n))
            &&& open ==> short == Ok::<Action, Seq<char>>(Action::Raise(n))
            &&& !open ==> long is Err && short is Err
        }),
{
    reveal_strlit("raise ");
    reveal_strlit("r ");
    reveal_strlit("r");
    reveal_strlit("raise");
    reveal_strlit("f");
    reveal_strlit("fold");
    reveal_strlit("c");
    reveal_strlit("check");
    reveal_strlit("call");
    reveal_strlit("a");
    reveal_strlit("allin");
    reveal_strlit("all-in");
    reveal_strlit("all_in");
    let d = text::decimal(n as nat);
    text::number_is_trimmed(n as nat);
    text::numbers_read_back(n as nat);
    let long = "raise "@ + d;
    let short = "r "@ + d;
    text::word_before_space("raise"@, d);
    text::word_before_space("r"@, d);
    assert("raise"@ + seq![' '] + d =~= long);
    assert("r"@ + seq![' '] + d =~= short);
    assert("raise"@[0] == 'r' && "r"@[0] == 'r');
    assert("f"@[0] == 'f' && "fold"@[0] == 'f' && "check"@[0] == 'c' && "call"@[0] == 'c' && "c"@[0]
        == 'c');
    assert("a"@[0] == 'a' && "allin"@[0] == 'a' && "all-in"@[0] == 'a' && "all_in"@[0] == 'a');
}

// ---------------------------------------------------------------------------
// What is shown
// ---------------------------------------------------------------------------

/// What an action is called in the news.
pub open spec fn told_action(action: Action) -> Seq<char> {
    match action {
        Action::Fold => "folds"@,
        Action::Check => "checks"@,
        Action::Call => "calls"@,
        Action::Raise(amount) => "raises to "@ + text::decimal(amount as nat),
        Action::AllIn => "goes all-in"@,
    }
}

/// What an action is called in the news.
pub fn format_action(action: &Action) -> (s: String)
    ensures
        s@ == told_action(*action),
{
    match action {
        Action::Fold => "folds".to_owned(),
        Action::Check => "checks".to_owned(),
        Action::Call => "calls".to_owned(),
        Action::Raise(amount) => {
            let mut s = "raises to ".to_owned();
            text::push_decimal(&mut s, *amount as u64);
            s
        },
        Action::AllIn => "goes all-in".to_owned(),
    }
}

/// The news that `event` is to the player at `my_seat`: board cards, and what others
/// do.
pub open spec fn news_of(my_seat: Option<usize>, event: model::Event) -> Option<Seq<char>> {
    match event {
        model::Event::BoardDealt { street, cards } => Some(
            "\n  ["@ + street.name() + "] Board: "@ + text::joined(
                snapshot::card_texts(cards),
                " "@,
            ),
        ),
        model::Event::ActionTaken { seat, action, pot_total } => if my_seat matches Some(mine)
            && mine == seat {
            None
        } else {
            Some(
                "  Seat "@ + text::decimal(seat as nat) + ": "@ + told_action(action) + "  (pot: "@
                    + text::decimal(pot_total as nat) + ")"@,
            )
        },
        _ => None,
    }
}

/// A line of a hand's result: gains in green, losses in red.
pub open spec fn result_line(o: model::SeatResult) -> Seq<char> {
    "  Seat "@ + text::decimal(o.seat as nat) + match o.hole {
        Some((a, b)) => "  ["@ + a.text() + " "@ + b.text() + "]"@,
        None => "  [folded]"@,
    } + "  "@ + if o.chip_delta >= 0 {
        "\x1b[32m"@
    } else {
        "\x1b[31m"@
    } + text::plus_decimal(o.chip_delta) + "\x1b[0m"@
}

/// The lines of a hand's result.
pub open spec fn result_lines_of(result: model::Outcome) -> Seq<Seq<char>> {
    let head = seq!["\n── Result ──────────────────────────────────────"@];
    let board = if result.board.len() > 0 {
        seq!["  Board: "@ + text::joined(snapshot::card_texts(result.board), " "@)]
    } else {
        Seq::empty()
    };
    head + board + Seq::new(result.seats.len(), |i: int| result_line(result.seats[i])) + seq![
        text::repeated("─"@, 50),
    ]
}

/// A player's row in the table of players.
pub open spec fn player_line(p: PublicPlayerState, position: usize) -> Seq<char> {
    "  "@ + text::left(text::decimal(p.seat as nat), 6) + " "@ + text::right(
        text::decimal(p.stack as nat),
        7,
    ) + " "@ + text::right(text::decimal(p.bet_this_street as nat), 7) + "  "@ + if p.is_folded {
        "folded"@
    } else if p.is_all_in {
        "all-in"@
    } else {
        "active"@
    } + if p.seat == position {
        " ← you"@
    } else {
        ""@
    }
}

/// The actions that are open, one line each.
pub open spec fn action_lines(legal: LegalActions) -> Seq<Seq<char>> {
    let check = if legal.can_check {
        seq!["    [c]heck"@]
    } else {
        Seq::empty()
    };
    let call = if legal.can_call {
        seq!["    [c]all  ("@ + text::decimal(legal.call_amount as nat) + " chips)"@]
    } else {
        Seq::empty()
    };
    let raise = if legal.can_raise {
        seq!["    [r]aise <amount>  ("@ + raise_range(legal) + " total)"@]
    } else {
        Seq::empty()
    };
    let all_in = if legal.all_in_amount > 0 {
        seq!["    [a]ll-in  ("@ + text::decimal(legal.all_in_amount as nat) + " chips)"@]
    } else {
        Seq::empty()
    };
    check + call + raise + all_in + seq!["    [f]old"@]
}

/// The lines before the table of players.
pub open spec fn opening_lines(sight: Sight) -> Seq<Seq<char>> {
    let head = seq![
        "\n── "@ + sight.street.name() + " ─────────────────────────────────────────"@,
    ];
    let board = if sight.board.len() > 0 {
        seq!["  Board:  "@ + text::joined(snapshot::card_texts(sight.board), " "@)]
    } else {
        Seq::empty()
    };
    head + board + seq![
        "  Your hand:  "@ + sight.hole.0.text() + " "@ + sight.hole.1.text() + "  (seat "@
            + text::decimal(sight.position as nat) + ")"@,
        ""@,
        "  Seat     Stack     Bet  Status"@,
        "  "@ + text::repeated("─"@, 34),
    ]
}

/// Everything that the player is shown before being asked.
pub open spec fn state_lines_of(sight: Sight) -> Seq<Seq<char>> {
    opening_lines(sight) + Seq::new(
        sight.players.len(),
        |i: int| player_line(sight.players[i], sight.position),
    ) + seq!["\n  Pot: "@ + text::decimal((sight.main + model::side_total(sight.side)) as nat)]
        + seq!["\n  Actions:"@] + action_lines(sight.legal)
}

/// The lines that announce a hand.
pub open spec fn hand_lines_of(hand_id: u64) -> Seq<char> {
    "\n"@ + text::repeated("═"@, 50) + "\n  Hand #"@ + text::decimal(hand_id as nat) + "\n"@
        + text::repeated("═"@, 50)
}

/// Announces a hand.
pub fn hand_lines(hand_id: HandId) -> (s: String)
    ensures
        s@ == hand_lines_of(hand_id),
{
    let mut s = "\n".to_owned();
    text::push_repeated(&mut s, "═", 50);
    s.append("\n  Hand #");
    text::push_decimal(&mut s, hand_id);
    s.append("\n");
    text::push_repeated(&mut s, "═", 50);
    assert(s@ =~= hand_lines_of(hand_id));
    s
}

fn outcome_line(o: &SeatOutcome) -> (s: String)
    ensures
        s@ == result_line(o@),
{
    let mut s = "  Seat ".to_owned();
    text::push_decimal(&mut s, o.seat as u64);
    match &o.hole_cards {
        Some(cs) => {
            s.append("  [");
            s.append(cs[0].to_text().as_str());
            s.append(" ");
            s.append(cs[1].to_text().as_str());
            s.append("]");
        },
        None => s.append("  [folded]"),
    }
    s.append("  ");
    if o.chip_delta >= 0 {
        s.append("\x1b[32m");
    } else {
        s.append("\x1b[31m");
    }
    text::push_plus(&mut s, o.chip_delta as i64);
    s.append("\x1b[0m");
    assert(s@ =~= result_line(o@));
    s
}

/// The lines of a hand's result.
pub fn result_lines(result: &HandResult) -> (lines: Vec<String>)
    ensures
        text::lines(lines@) == result_lines_of(result@),
{
    let mut lines: Vec<String> = Vec::new();
    assert(text::lines(lines@) =~= Seq::<Seq<char>>::empty());
    text::push_line(&mut lines, "\n── Result ──────────────────────────────────────".to_owned());
    if result.board.len() > 0 {
        let mut board = "  Board: ".to_owned();
        snapshot::push_cards(&mut board, result.board.as_slice());
        text::push_line(&mut lines, board);
    }
    let ghost head = text::lines(lines@);
    let ghost rows = Seq::new(result@.seats.len(), |i: int| result_line(result@.seats[i]));
    let mut i: usize = 0;
    assert(head + rows.take(0) =~= head);
    while i < result.seats.len()
        invariant
            i <= result.seats@.len(),
            rows == Seq::new(result@.seats.len(), |i: int| result_line(result@.seats[i])),
            text::lines(lines@) == head + rows.take(i as int),
        decreases result.seats@.len() - i,
    {
        assert(result@.seats[i as int] == result.seats@[i as int]@);
        text::push_line(&mut lines, outcome_line(&result.seats[i]));
        i = i + 1;
        assert(rows.take(i as int) =~= rows.take(i - 1).push(rows[i - 1]));
        assert(text::lines(lines@) =~= head + rows.take(i as int));
    }
    assert(rows.take(i as int) =~= rows);
    let mut rule = String::new();
    text::push_repeated(&mut rule, "─", 50);
    assert(rule@ =~= text::repeated("─"@, 50));
    text::push_line(&mut lines, rule);
    assert(text::lines(lines@) =~= result_lines_of(result@));
    lines
}

fn player_row(p: &PublicPlayerState, position: SeatIndex) -> (s: String)
    ensures
        s@ == player_line(*p, position),
{
    let mut s = "  ".to_owned();
    text::push_left(&mut s, text::number(p.seat as u64).as_str(), 6);
    s.append(" ");
    text::push_right(&mut s, text::number(p.stack as u64).as_str(), 7);
    s.append(" ");
    text::push_right(&mut s, text::number(p.bet_this_street as u64).as_str(), 7);
    s.append("  ");
    if p.is_folded {
        s.append("folded");
    } else if p.is_all_in {
        s.append("all-in");
    } else {
        s.append("active");
    }
    if p.seat == position {
        s.append(" ← you");
    } else {
        s.append("");
    }
    assert(s@ =~= player_line(*p, position));
    s
}

fn push_action_lines(lines: &mut Vec<String>, la: &LegalActions)
    ensures
        text::lines(final(lines)@) == text::lines(old(lines)@) + action_lines(*la),
{
    let ghost before = text::lines(lines@);
    if la.can_check {
        text::push_line(lines, "    [c]heck".to_owned());
    }
    if la.can_call {
        let mut s = "    [c]all  (".to_owned();
        text::push_decimal(&mut s, la.call_amount as u64);
        s.append(" chips)");
        text::push_line(lines, s);
    }
    if la.can_raise {
        let mut s = "    [r]aise <amount>  (".to_owned();
        push_range(&mut s, la);
        s.append(" total)");
        text::push_line(lines, s);
    }
    if la.all_in_amount > 0 {
        let mut s = "    [a]ll-in  (".to_owned();
        text::push_decimal(&mut s, la.all_in_amount as u64);
        s.append(" chips)");
        text::push_line(lines, s);
    }
    text::push_line(lines, "    [f]old".to_owned());
    assert(text::lines(lines@) =~= before + action_lines(*la));
}

fn opening(obs: &Observation<'_>) -> (lines: Vec<String>)
    ensures
        text::lines(lines@) == opening_lines(obs@),
{
    let mut lines: Vec<String> = Vec::new();
    assert(text::lines(lines@) =~= Seq::<Seq<char>>::empty());
    let mut head = "\n── ".to_owned();
    head.append(obs.street.as_str());
    head.append(" ─────────────────────────────────────────");
    text::push_line(&mut lines, head);
    if obs.board.len() > 0 {
        let mut board = "  Board:  ".to_owned();
        snapshot::push_cards(&mut board, obs.board);
        text::push_line(&mut lines, board);
    }
    let mut hand = "  Your hand:  ".to_owned();
    hand.append(obs.hole_cards[0].to_text().as_str());
    hand.append(" ");
    hand.append(obs.hole_cards[1].to_text().as_str());
    hand.append("  (seat ");
    text::push_decimal(&mut hand, obs.position as u64);
    hand.append(")");
    text::push_line(&mut lines, hand);
    text::push_line(&mut lines, "".to_owned());
    text::push_line(&mut lines, "  Seat     Stack     Bet  Status".to_owned());
    let mut rule = "  ".to_owned();
    text::push_repeated(&mut rule, "─", 34);
    text::push_line(&mut lines, rule);
    assert(text::lines(lines@) =~= opening_lines(obs@));
    lines
}

/// Everything that the player is shown before being asked.
pub fn state_lines(obs: &Observation<'_>) -> (lines: Vec<String>)
    requires
        obs.pot.spec_total() <= u32::MAX,
    ensures
        text::lines(lines@) == state_lines_of(obs@),
{
    let mut lines = opening(obs);
    let ghost head = text::lines(lines@);
    let ghost rows = Seq::new(
        obs@.players.len(),
        |i: int| player_line(obs@.players[i], obs@.position),
    );
    let mut i: usize = 0;
    assert(head + rows.take(0) =~= head);
    while i < obs.players.len()
        invariant
            i <= obs.players@.len(),
            rows == Seq::new(
                obs@.players.len(),
                |i: int| player_line(obs@.players[i], obs@.position),
            ),
            text::lines(lines@) == head + rows.take(i as int),
        decreases obs.players@.len() - i,
    {
        text::push_line(&mut lines, player_row(&obs.players[i], obs.position));
        i = i + 1;
        assert(rows.take(i as int) =~= rows.take(i - 1).push(rows[i - 1]));
        assert(text::lines(lines@) =~= head + rows.take(i as int));
    }
    assert(rows.take(i as int) =~= rows);
    let mut pot = "\n  Pot: ".to_owned();
    text::push_decimal(&mut pot, obs.pot.total() as u64);
    text::push_line(&mut lines, pot);
    text::push_line(&mut lines, "\n  Actions:".to_owned());
    push_action_lines(&mut lines, &obs.legal_actions);
    assert(text::lines(lines@) =~= state_lines_of(obs@));
    lines
}

impl HumanAgent {
    /// The seat that the player was last asked at.
    pub closed spec fn seat(&self) -> Option<usize> {
        self.my_seat
    }

    pub fn new() -> (agent: HumanAgent)
        ensures
            agent.seat() is None,
    {
        HumanAgent { my_seat: None }
    }

    /// Takes note of the seat that the player is asked at.
    pub fn asked_at(&mut self, seat: SeatIndex)
        ensures
            final(self).seat() == Some(seat),
    {
        self.my_seat = Some(seat);
    }

    /// The news that an event is to the player, if any.
    pub fn news(&self, event: &EngineEvent) -> (line: Option<String>)
        ensures
            match news_of(self.seat(), event@) {
                Some(l) => line matches Some(s) && s@ == l,
                None => line is None,
            },
    {
        match event {
            EngineEvent::BoardDealt { street, cards } => {
                let mut s = "\n  [".to_owned();
                s.append(street.as_str());
                s.append("] Board: ");
                snapshot::push_cards(&mut s, cards.as_slice());
                assert(s@ =~= "\n  ["@ + street.name() + "] Board: "@ + text::joined(
                    snapshot::card_texts(cards@),
                    " "@,
                ));
                Some(s)
            },
            EngineEvent::ActionTaken { seat, action, pot_total } => {
                // Skip our own action: it is already visible at the prompt.
                if let Some(mine) = self.my_seat {
                    if mine == *seat {
                        return None;
                    }
                }
                let mut s = "  Seat ".to_owned();
                text::push_decimal(&mut s, *seat as u64);
                s.append(": ");
                s.append(format_action(action).as_str());
                s.append("  (pot: ");
                text::push_decimal(&mut s, *pot_total as u64);
                s.append(")");
                assert(s@ =~= "  Seat "@ + text::decimal(*seat as nat) + ": "@ + told_action(
                    *action,
                ) + "  (pot: "@ + text::decimal(*pot_total as nat) + ")"@);
                Some(s)
            },
            _ => None,
        }
    }
}

impl Default for HumanAgent {
    fn default() -> (agent: HumanAgent)
        ensures
            agent.seat() is None,
    {
        HumanAgent::new()
    }
}

} // verus!
