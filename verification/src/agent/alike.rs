//! Agents that cannot be told apart by how they are called.

use vstd::prelude::*;

use super::builtin::{CallingStation, RandomAgent, ScriptedAgent};
use super::personas::{Lag, Maniac, Nit, Tag, TiltProne};
use super::{Agent, Call, RunConfig, Sight};
use crate::agent;
use crate::game::action::Action;
use crate::game::model;

verus! {

/// Agents that `alike` relates cannot be told apart: shown the same they answer the
/// same, and no call ends that.
pub open spec fn indistinct<A: Agent>(alike: spec_fn(A, A) -> bool) -> bool {
    &&& forall|a: A, b: A, sight: Sight, x: Action, y: Action, a1: A, b1: A|
        alike(a, b) && #[trigger] a.answers(sight, x, &a1) && #[trigger] b.answers(sight, y, &b1)
            ==> x == y && alike(a1, b1)
    &&& forall|a: A, b: A, event: model::Event, a1: A, b1: A|
        alike(a, b) && #[trigger] a.hears(event, &a1) && #[trigger] b.hears(event, &b1) ==> alike(
            a1,
            b1,
        )
    &&& forall|a: A, b: A, config: RunConfig, a1: A, b1: A|
        alike(a, b) && #[trigger] a.enters_run(config, &a1) && #[trigger] b.enters_run(config, &b1)
            ==> alike(a1, b1)
    &&& forall|a: A, b: A, a1: A, b1: A|
        alike(a, b) && #[trigger] a.leaves_run(&a1) && #[trigger] b.leaves_run(&b1) ==> alike(
            a1,
            b1,
        )
    &&& forall|a: A, b: A, hand_id: u64, a1: A, b1: A|
        alike(a, b) && #[trigger] a.enters_hand(hand_id, &a1) && #[trigger] b.enters_hand(
            hand_id,
            &b1,
        ) ==> alike(a1, b1)
    &&& forall|a: A, b: A, result: model::Outcome, a1: A, b1: A|
        alike(a, b) && #[trigger] a.leaves_hand(result, &a1) && #[trigger] b.leaves_hand(
            result,
            &b1,
        ) ==> alike(a1, b1)
}

/// Seat by seat, the agents cannot be told apart.
pub open spec fn all_alike<A>(alike: spec_fn(A, A) -> bool, a: Seq<A>, b: Seq<A>) -> bool {
    &&& a.len() == b.len()
    &&& forall|i: int| 0 <= i < a.len() ==> alike(#[trigger] a[i], b[i])
}

/// The same call leaves them alike.
pub proof fn call_keeps_alike<A: Agent>(
    alike: spec_fn(A, A) -> bool,
    a: Seq<A>,
    b: Seq<A>,
    call: Call,
    a1: Seq<A>,
    b1: Seq<A>,
)
    requires
        indistinct(alike),
        all_alike(alike, a, b),
        agent::called(a, call, a1),
        agent::called(b, call, b1),
    ensures
        all_alike(alike, a1, b1),
{
    assert forall|i: int| 0 <= i < a1.len() implies alike(#[trigger] a1[i], b1[i]) by {
        assert(alike(a[i], b[i]));
        match call {
            Call::Start { hand_id } => {
                assert(a[i].enters_hand(hand_id, &a1[i]));
                assert(b[i].enters_hand(hand_id, &b1[i]));
            },
            Call::Ask { seat, sight, action } => {
                if i == seat {
                    assert(a[i].answers(sight, action, &a1[i]));
                    assert(b[i].answers(sight, action, &b1[i]));
                } else {
                    assert(b1[i] == b[i]);
                }
            },
            Call::Tell { event } => {
                assert(a[i].hears(event, &a1[i]));
                assert(b[i].hears(event, &b1[i]));
            },
            Call::End { result } => {
                assert(a[i].leaves_hand(result, &a1[i]));
                assert(b[i].leaves_hand(result, &b1[i]));
            },
        }
    }
}

/// The same calls leave them alike.
pub proof fn calls_keep_alike<A: Agent>(
    alike: spec_fn(A, A) -> bool,
    a: Seq<A>,
    b: Seq<A>,
    calls: Seq<Call>,
    a1: Seq<A>,
    b1: Seq<A>,
)
    requires
        indistinct(alike),
        all_alike(alike, a, b),
        agent::all_called(a, calls, a1),
        agent::all_called(b, calls, b1),
    ensures
        all_alike(alike, a1, b1),
    decreases calls.len(),
{
    if calls.len() > 0 {
        let am = choose|mid: Seq<A>|
            agent::all_called(a, calls.drop_last(), mid) && #[trigger] agent::called(
                mid,
                calls.last(),
                a1,
            );
        let bm = choose|mid: Seq<A>|
            agent::all_called(b, calls.drop_last(), mid) && #[trigger] agent::called(
                mid,
                calls.last(),
                b1,
            );
        calls_keep_alike(alike, a, b, calls.drop_last(), am, bm);
        call_keeps_alike(alike, am, bm, calls.last(), a1, b1);
    }
}

/// Calls can be parted: what the first of them leave is where the others start.
pub proof fn calls_part<A: Agent>(
    before: Seq<A>,
    first: Seq<Call>,
    second: Seq<Call>,
    after: Seq<A>,
) -> (mid: Seq<A>)
    requires
        agent::all_called(before, first + second, after),
    ensures
        agent::all_called(before, first, mid),
        agent::all_called(mid, second, after),
    decreases second.len(),
{
    let all = first + second;
    if second.len() == 0 {
        assert(all =~= first);
        after
    } else {
        let last = choose|last: Seq<A>|
            agent::all_called(before, all.drop_last(), last) && #[trigger] agent::called(
                last,
                all.last(),
                after,
            );
        assert(all.drop_last() =~= first + second.drop_last());
        let mid = calls_part(before, first, second.drop_last(), last);
        assert(agent::called(last, second.last(), after));
        mid
    }
}

/// A single call.
pub proof fn called_alone<A: Agent>(before: Seq<A>, calls: Seq<Call>, after: Seq<A>)
    requires
        calls.len() == 1,
        agent::all_called(before, calls, after),
    ensures
        agent::called(before, calls[0], after),
{
    let mid = choose|mid: Seq<A>|
        agent::all_called(before, calls.drop_last(), mid) && #[trigger] agent::called(
            mid,
            calls.last(),
            after,
        );
    assert(calls.drop_last().len() == 0);
    assert(mid == before);
}

/// Asked in the same seat and shown the same after the same calls, they answer the
/// same, whatever comes later.
pub proof fn answers_agree<A: Agent>(
    alike: spec_fn(A, A) -> bool,
    a: Seq<A>,
    b: Seq<A>,
    calls: Seq<Call>,
    seat: int,
    sight: Sight,
    x: Action,
    y: Action,
    later_a: Seq<Call>,
    later_b: Seq<Call>,
    a1: Seq<A>,
    b1: Seq<A>,
)
    requires
        indistinct(alike),
        all_alike(alike, a, b),
        agent::all_called(a, calls + (seq![Call::Ask { seat, sight, action: x }] + later_a), a1),
        agent::all_called(b, calls + (seq![Call::Ask { seat, sight, action: y }] + later_b), b1),
    ensures
        x == y,
{
    let ask_a = seq![Call::Ask { seat, sight, action: x }];
    let ask_b = seq![Call::Ask { seat, sight, action: y }];
    let am = calls_part(a, calls, ask_a + later_a, a1);
    let bm = calls_part(b, calls, ask_b + later_b, b1);
    calls_keep_alike(alike, a, b, calls, am, bm);
    let an = calls_part(am, ask_a, later_a, a1);
    let bn = calls_part(bm, ask_b, later_b, b1);
    called_alone(am, ask_a, an);
    called_alone(bm, ask_b, bn);
    assert(alike(am[seat], bm[seat]));
    assert(am[seat].answers(sight, x, &an[seat]));
    assert(bm[seat].answers(sight, y, &bn[seat]));
}

/// Calling stations are all alike.
pub proof fn calling_stations_are_alike()
    ensures
        indistinct(|a: CallingStation, b: CallingStation| true),
{
}

/// Random players are alike where their generators are: a seed fixes all choices.
pub proof fn random_agents_follow_their_seed()
    ensures
        indistinct(|a: RandomAgent, b: RandomAgent| a.generator() == b.generator()),
{
}

/// Scripted players are alike where the rest of their scripts is.
pub proof fn scripts_fix_the_answers()
    ensures
        indistinct(|a: ScriptedAgent, b: ScriptedAgent| a.rest() == b.rest()),
{
}

/// Personas are alike where their generators are.
pub proof fn personas_follow_their_seed()
    ensures
        indistinct(|a: Nit, b: Nit| a.generator() == b.generator()),
        indistinct(|a: Tag, b: Tag| a.generator() == b.generator()),
        indistinct(|a: Lag, b: Lag| a.generator() == b.generator()),
        indistinct(|a: Maniac, b: Maniac| a.generator() == b.generator()),
        indistinct(
            |a: TiltProne, b: TiltProne| a.generator() == b.generator() && a.mood() == b.mood(),
        ),
{
}

} // verus!
