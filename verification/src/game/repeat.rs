//! Hands that go the same way when they are played again.

use vstd::prelude::*;

use crate::agent::alike;
use crate::agent::{Agent, Call};
use crate::cards::HandEvaluator;
use crate::game::action::Action;
use crate::game::event::EventSink;
use crate::game::hand;
use crate::game::hand::Setup;
use crate::game::model;
use crate::game::run;

verus! {

/// What is called in the course of the first `k` answers comes first.
proof fn earlier_calls_come_first<E: HandEvaluator>(
    s: Setup,
    e: E,
    answers: Seq<Action>,
    k: int,
) -> (later: Seq<Call>)
    requires
        0 <= k <= answers.len(),
    ensures
        hand::played(s, e, answers).calls == hand::played(s, e, answers.take(k)).calls + later,
    decreases answers.len(),
{
    let p = hand::played(s, e, answers);
    if k == answers.len() {
        assert(answers.take(k) =~= answers);
        assert(p.calls =~= p.calls + Seq::<Call>::empty());
        Seq::empty()
    } else {
        let head = answers.drop_last();
        assert(head.take(k) =~= answers.take(k));
        let mid = earlier_calls_come_first(s, e, head, k);
        let step = hand::stepped(s.rules, e, hand::played(s, e, head).node, answers.last());
        assert(p.calls =~= hand::played(s, e, answers.take(k)).calls + (mid + step.calls));
        mid + step.calls
    }
}

/// Answer number `k` is asked for right after the calls of the answers before it.
pub proof fn answers_are_asked_for<E: HandEvaluator>(
    s: Setup,
    e: E,
    answers: Seq<Action>,
    k: int,
) -> (later: Seq<Call>)
    requires
        0 <= k < answers.len(),
    ensures
        ({
            let p = hand::played(s, e, answers.take(k));
            let seat = p.node.phase->seat;
            let sight = hand::sight(s.rules, p.node.table, p.node.phase->responded, seat);
            hand::played(s, e, answers).calls == p.calls + (seq![
                Call::Ask { seat, sight, action: answers[k] },
            ] + later)
        }),
{
    let p = hand::played(s, e, answers.take(k));
    let next = answers.take(k + 1);
    assert(next.drop_last() =~= answers.take(k));
    assert(next.last() == answers[k]);
    let step = hand::stepped(s.rules, e, p.node, answers[k]);
    let rest = earlier_calls_come_first(s, e, answers, k + 1);
    let seat = p.node.phase->seat;
    let sight = hand::sight(s.rules, p.node.table, p.node.phase->responded, seat);
    let ask = Call::Ask { seat, sight, action: answers[k] };
    assert(step.calls[0] == ask);
    let later = step.calls.skip(1) + rest;
    assert(step.calls =~= seq![ask] + step.calls.skip(1));
    assert(hand::played(s, e, answers).calls =~= p.calls + (seq![ask] + later));
    later
}

/// Agents that cannot be told apart give the same answers.
proof fn answers_repeat<E: HandEvaluator, A: Agent, S: EventSink, T: EventSink>(
    s: Setup,
    e: E,
    like: spec_fn(A, A) -> bool,
    x: Seq<Action>,
    a: (Seq<A>, S),
    result_a: model::Outcome,
    a1: (Seq<A>, S),
    y: Seq<Action>,
    b: (Seq<A>, T),
    result_b: model::Outcome,
    b1: (Seq<A>, T),
    k: int,
)
    requires
        alike::indistinct(like),
        alike::all_alike(like, a.0, b.0),
        run::hand_ran(s, e, x, a, result_a, a1),
        run::hand_ran(s, e, y, b, result_b, b1),
        0 <= k <= x.len(),
        k <= y.len(),
    ensures
        x.take(k) == y.take(k),
    decreases k,
{
    if k > 0 {
        answers_repeat(s, e, like, x, a, result_a, a1, y, b, result_b, b1, k - 1);
        let start = seq![Call::Start { hand_id: s.hand_id }];
        let p = hand::played(s, e, x.take(k - 1));
        let seat = p.node.phase->seat;
        let sight = hand::sight(s.rules, p.node.table, p.node.phase->responded, seat);
        let later_x = answers_are_asked_for(s, e, x, k - 1);
        let later_y = answers_are_asked_for(s, e, y, k - 1);
        let end_x = seq![Call::End { result: result_a }];
        let end_y = seq![Call::End { result: result_b }];
        let ask_x = seq![Call::Ask { seat, sight, action: x[k - 1] }];
        let ask_y = seq![Call::Ask { seat, sight, action: y[k - 1] }];
        assert(start + hand::played(s, e, x).calls + end_x =~= (start + p.calls) + (ask_x + (later_x
            + end_x)));
        assert(start + hand::played(s, e, y).calls + end_y =~= (start + p.calls) + (ask_y + (later_y
            + end_y)));
        alike::answers_agree(
            like,
            a.0,
            b.0,
            start + p.calls,
            seat,
            sight,
            x[k - 1],
            y[k - 1],
            later_x + end_x,
            later_y + end_y,
            a1.0,
            b1.0,
        );
        assert(x.take(k) =~= x.take(k - 1).push(x[k - 1]));
        assert(y.take(k) =~= y.take(k - 1).push(y[k - 1]));
    }
}

/// A hand that is dealt again to agents which cannot be told apart goes the same way:
/// the same answers, the same outcome, and agents that still cannot be told apart.
/// What listens to the hand makes no difference.
pub proof fn hands_repeat<E: HandEvaluator, A: Agent, S: EventSink, T: EventSink>(
    s: Setup,
    e: E,
    like: spec_fn(A, A) -> bool,
    x: Seq<Action>,
    a: (Seq<A>, S),
    result_a: model::Outcome,
    a1: (Seq<A>, S),
    y: Seq<Action>,
    b: (Seq<A>, T),
    result_b: model::Outcome,
    b1: (Seq<A>, T),
)
    requires
        alike::indistinct(like),
        alike::all_alike(like, a.0, b.0),
        run::hand_ran(s, e, x, a, result_a, a1),
        run::hand_ran(s, e, y, b, result_b, b1),
    ensures
        x == y,
        result_a == result_b,
        alike::all_alike(like, a1.0, b1.0),
{
    let k = if x.len() <= y.len() {
        x.len() as int
    } else {
        y.len() as int
    };
    answers_repeat(s, e, like, x, a, result_a, a1, y, b, result_b, b1, k);
    assert(x.take(x.len() as int) =~= x);
    assert(y.take(y.len() as int) =~= y);
    if x.len() < y.len() {
        assert(hand::played(s, e, y.take(k)).node.phase is Decision);
    }
    if y.len() < x.len() {
        assert(hand::played(s, e, x.take(k)).node.phase is Decision);
    }
    alike::calls_keep_alike(
        like,
        a.0,
        b.0,
        seq![Call::Start { hand_id: s.hand_id }] + hand::played(s, e, x).calls + seq![
            Call::End { result: result_a },
        ],
        a1.0,
        b1.0,
    );
}

} // verus!
