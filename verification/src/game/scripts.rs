//! Hands in which no script runs out.

use vstd::prelude::*;

use crate::agent;
use crate::agent::alike;
use crate::agent::builtin::ScriptedAgent;
use crate::agent::{Agent, Call, Sight};
use crate::cards::HandEvaluator;
use crate::game::action::Action;
use crate::game::hand;
use crate::game::hand::Setup;
use crate::game::repeat;
use crate::game::run;

verus! {

/// How often `seat` is asked in `calls`.
pub open spec fn asks(calls: Seq<Call>, seat: int) -> nat
    decreases calls.len(),
{
    if calls.len() == 0 {
        0
    } else {
        asks(calls.drop_last(), seat) + match calls.last() {
            Call::Ask { seat: asked, .. } if asked == seat => 1nat,
            _ => 0nat,
        }
    }
}

/// After `p` the script of whoever is asked says `action`.
pub open spec fn script_says(agents: Seq<ScriptedAgent>, p: hand::Progress, action: Action) -> bool {
    let seat = p.node.phase->seat;
    let i = asks(p.calls, seat) as int;
    &&& 0 <= seat < agents.len()
    &&& i < agents[seat].rest().len()
    &&& action == agents[seat].rest()[i]
}

/// The scripts say `full`, a hand from its start to its end: each answer is the next
/// action on the script of whoever is asked.
pub open spec fn scripts_say<E: HandEvaluator>(
    s: Setup,
    e: E,
    agents: Seq<ScriptedAgent>,
    full: Seq<Action>,
) -> bool {
    &&& hand::answers_fit(s, e, full)
    &&& hand::played(s, e, full).node.phase is Terminal
    &&& forall|k: int|
        0 <= k < full.len() ==> script_says(
            agents,
            #[trigger] hand::played(s, e, full.take(k)),
            full[k],
        )
}

proof fn asks_add_up(first: Seq<Call>, second: Seq<Call>, seat: int)
    ensures
        asks(first + second, seat) == asks(first, seat) + asks(second, seat),
    decreases second.len(),
{
    if second.len() == 0 {
        assert(first + second =~= first);
    } else {
        assert((first + second).drop_last() =~= first + second.drop_last());
        asks_add_up(first, second.drop_last(), seat);
    }
}

/// Calls take from a script as many actions as they ask for.
proof fn calls_use_up_scripts(
    before: Seq<ScriptedAgent>,
    calls: Seq<Call>,
    after: Seq<ScriptedAgent>,
    i: int,
)
    requires
        agent::all_called(before, calls, after),
        0 <= i < before.len(),
        asks(calls, i) <= before[i].rest().len(),
    ensures
        after.len() == before.len(),
        after[i].rest() == before[i].rest().skip(asks(calls, i) as int),
    decreases calls.len(),
{
    if calls.len() == 0 {
        assert(before[i].rest().skip(0) =~= before[i].rest());
    } else {
        let mid = choose|mid: Seq<ScriptedAgent>|
            agent::all_called(before, calls.drop_last(), mid) && #[trigger] agent::called(
                mid,
                calls.last(),
                after,
            );
        calls_use_up_scripts(before, calls.drop_last(), mid, i);
        let used = asks(calls.drop_last(), i) as int;
        if used < before[i].rest().len() {
            assert(before[i].rest().skip(used).skip(1) =~= before[i].rest().skip(used + 1));
        }
        assert(mid[i].rest() == before[i].rest().skip(used));
        match calls.last() {
            Call::Start { hand_id } => {
                assert(mid[i].enters_hand(hand_id, &after[i]));
            },
            Call::Ask { seat, sight, action } => {
                if seat != i {
                    assert(after[i] == mid[i]);
                }
            },
            Call::Tell { event } => {
                assert(mid[i].hears(event, &after[i]));
            },
            Call::End { result } => {
                assert(mid[i].leaves_hand(result, &after[i]));
            },
        }
    }
}

/// Whoever is asked after `p` has come to what the script says.
proof fn script_stands_at(
    hand_id: u64,
    agents: Seq<ScriptedAgent>,
    p: hand::Progress,
    action: Action,
    now: Seq<ScriptedAgent>,
)
    requires
        script_says(agents, p, action),
        agent::all_called(agents, seq![Call::Start { hand_id }] + p.calls, now),
    ensures
        now[p.node.phase->seat].ready(),
        now[p.node.phase->seat].rest()[0] == action,
{
    let seat = p.node.phase->seat;
    let start = seq![Call::Start { hand_id }];
    asks_add_up(start, p.calls, seat);
    assert(asks(start.drop_last(), seat) == 0);
    assert(asks(start, seat) == 0);
    calls_use_up_scripts(agents, start + p.calls, now, seat);
}

/// Whoever is asked after `p` answers what the script says, whatever comes later.
proof fn script_is_read(
    hand_id: u64,
    agents: Seq<ScriptedAgent>,
    p: hand::Progress,
    action: Action,
    sight: Sight,
    x: Action,
    later: Seq<Call>,
    now: Seq<ScriptedAgent>,
)
    requires
        script_says(agents, p, action),
        agent::all_called(
            agents,
            (seq![Call::Start { hand_id }] + p.calls) + (seq![
                Call::Ask { seat: p.node.phase->seat, sight, action: x },
            ] + later),
            now,
        ),
    ensures
        x == action,
{
    let calls = seq![Call::Start { hand_id }] + p.calls;
    let ask = seq![Call::Ask { seat: p.node.phase->seat, sight, action: x }];
    let mid = alike::calls_part(agents, calls, ask + later, now);
    let next = alike::calls_part(mid, ask, later, now);
    alike::called_alone(mid, ask, next);
    script_stands_at(hand_id, agents, p, action, mid);
}

/// The agents answer as the scripts say.
#[verifier::spinoff_prover]
proof fn scripts_are_followed<E: HandEvaluator>(
    s: Setup,
    e: E,
    agents: Seq<ScriptedAgent>,
    full: Seq<Action>,
    answers: Seq<Action>,
    now: Seq<ScriptedAgent>,
    k: int,
)
    requires
        scripts_say(s, e, agents, full),
        run::asked(s, e, agents, answers, now),
        0 <= k <= answers.len(),
        k <= full.len(),
    ensures
        answers.take(k) == full.take(k),
    decreases k,
{
    if k > 0 {
        scripts_are_followed(s, e, agents, full, answers, now, k - 1);
        let start = seq![Call::Start { hand_id: s.hand_id }];
        let p = hand::played(s, e, full.take(k - 1));
        let seat = p.node.phase->seat;
        let sight = hand::sight(s.rules, p.node.table, p.node.phase->responded, seat);
        let later = repeat::answers_are_asked_for(s, e, answers, k - 1);
        let ask = seq![Call::Ask { seat, sight, action: answers[k - 1] }];
        assert(start + hand::played(s, e, answers).calls =~= (start + p.calls) + (ask + later));
        script_is_read(s.hand_id, agents, p, full[k - 1], sight, answers[k - 1], later, now);
        assert(answers.take(k) =~= answers.take(k - 1).push(answers[k - 1]));
        assert(full.take(k) =~= full.take(k - 1).push(full[k - 1]));
    }
}

/// In a hand that scripts say as a whole, who is asked can be asked.
#[verifier::spinoff_prover]
proof fn scripts_last<E: HandEvaluator>(
    s: Setup,
    e: E,
    agents: Seq<ScriptedAgent>,
    full: Seq<Action>,
    answers: Seq<Action>,
    now: Seq<ScriptedAgent>,
)
    requires
        scripts_say(s, e, agents, full),
        run::asked(s, e, agents, answers, now),
    ensures
        now[hand::played(s, e, answers).node.phase->seat].ready(),
{
    let n = answers.len() as int;
    let m = full.len() as int;
    assert(answers.take(n) =~= answers);
    assert(full.take(m) =~= full);
    if n >= m {
        scripts_are_followed(s, e, agents, full, answers, now, m);
        if n > m {
            assert(hand::played(s, e, answers.take(m)).node.phase is Decision);
        }
        assert(false);
    } else {
        scripts_are_followed(s, e, agents, full, answers, now, n);
        script_stands_at(s.hand_id, agents, hand::played(s, e, full.take(n)), full[n], now);
    }
}

/// Scripts that say a whole hand do not run out in it.
pub proof fn full_scripts_play_on<E: HandEvaluator>(
    s: Setup,
    e: E,
    agents: Seq<ScriptedAgent>,
    full: Seq<Action>,
)
    requires
        scripts_say(s, e, agents, full),
    ensures
        run::never_stuck(s, e, agents),
{
    assert forall|answers: Seq<Action>, now: Seq<ScriptedAgent>| #[trigger]
        run::asked(s, e, agents, answers, now) implies now[hand::played(
        s,
        e,
        answers,
    ).node.phase->seat].ready() by {
        scripts_last(s, e, agents, full, answers, now);
    }
}

} // verus!
