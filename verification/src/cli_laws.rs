//! What command lines are understood as.

use vstd::prelude::*;

use crate::cli;
use crate::cli::AgentSpec;
use crate::text;

verus! {

/// The agents by name: each bot is named by its word, a colon and its seed.
pub proof fn agents_go_by_their_names(seed: u64)
    ensures
        ({
            let d = text::decimal(seed as nat);
            &&& cli::named_agent("calling"@) == Ok::<AgentSpec, Seq<char>>(AgentSpec::Calling)
            &&& cli::named_agent("human"@) == Ok::<AgentSpec, Seq<char>>(AgentSpec::Human)
            &&& cli::named_agent("random:"@ + d) == Ok::<AgentSpec, Seq<char>>(
                AgentSpec::Random(seed),
            )
            &&& cli::named_agent("nit:"@ + d) == Ok::<AgentSpec, Seq<char>>(AgentSpec::Nit(seed))
            &&& cli::named_agent("tag:"@ + d) == Ok::<AgentSpec, Seq<char>>(AgentSpec::Tag(seed))
            &&& cli::named_agent("lag:"@ + d) == Ok::<AgentSpec, Seq<char>>(AgentSpec::Lag(seed))
            &&& cli::named_agent("maniac:"@ + d) == Ok::<AgentSpec, Seq<char>>(
                AgentSpec::Maniac(seed),
            )
            &&& cli::named_agent("tilt:"@ + d) == Ok::<AgentSpec, Seq<char>>(AgentSpec::Tilt(seed))
        }),
{
    cli::names_read_back(AgentSpec::Calling);
    cli::names_read_back(AgentSpec::Human);
    cli::names_read_back(AgentSpec::Random(seed));
    cli::names_read_back(AgentSpec::Nit(seed));
    cli::names_read_back(AgentSpec::Tag(seed));
    cli::names_read_back(AgentSpec::Lag(seed));
    cli::names_read_back(AgentSpec::Maniac(seed));
    cli::names_read_back(AgentSpec::Tilt(seed));
}

proof fn agents_one_by_one(parts: Seq<Seq<char>>, i: int)
    requires
        0 <= i < parts.len(),
        cli::named_agents(parts) is Ok,
    ensures
        (cli::named_agents(parts)->Ok_0).len() == parts.len(),
        cli::named_agent(parts[i]) == Ok::<AgentSpec, Seq<char>>(
            (cli::named_agents(parts)->Ok_0)[i],
        ),
    decreases parts.len(),
{
    let head = parts.drop_last();
    if i < head.len() {
        agents_one_by_one(head, i);
        assert(head[i] == parts[i]);
    } else if head.len() > 0 {
        agents_one_by_one(head, 0);
    }
}

proof fn humans_are_counted(specs: Seq<AgentSpec>)
    ensures
        0 <= cli::humans(specs),
        cli::humans(specs) == 0 <==> forall|i: int|
            0 <= i < specs.len() ==> #[trigger] specs[i] != AgentSpec::Human,
    decreases specs.len(),
{
    if specs.len() > 0 {
        let head = specs.drop_last();
        humans_are_counted(head);
        if cli::humans(specs) == 0 {
            assert forall|i: int| 0 <= i < specs.len() implies #[trigger] specs[i]
                != AgentSpec::Human by {
                if i < head.len() {
                    assert(head[i] != AgentSpec::Human);
                }
            }
        }
        if forall|i: int| 0 <= i < specs.len() ==> #[trigger] specs[i] != AgentSpec::Human {
            assert forall|i: int| 0 <= i < head.len() implies #[trigger] head[i]
                != AgentSpec::Human by {
                assert(specs[i] != AgentSpec::Human);
            }
            assert(specs[specs.len() - 1] != AgentSpec::Human);
        }
    }
}

proof fn two_humans_are_too_many(specs: Seq<AgentSpec>, i: int, j: int)
    requires
        0 <= i < j < specs.len(),
        specs[i] == AgentSpec::Human,
        specs[j] == AgentSpec::Human,
    ensures
        cli::humans(specs) >= 2,
    decreases specs.len(),
{
    let head = specs.drop_last();
    humans_are_counted(head);
    if j < head.len() {
        two_humans_are_too_many(head, i, j);
    } else {
        assert(head[i] == AgentSpec::Human);
    }
}

/// A list of agents that is accepted names one agent for each part between commas, in
/// order; there are two or more of them, at most one is human, and none in a run of
/// several threads.
pub proof fn accepted_tables_can_play(s: Seq<char>, threads: int, i: int, j: int)
    requires
        cli::seated_agents(s, threads) is Ok,
    ensures
        ({
            let specs = cli::seated_agents(s, threads)->Ok_0;
            let parts = text::cut(s, ',');
            &&& specs.len() >= 2
            &&& specs.len() == parts.len()
            &&& 0 <= i < specs.len() ==> cli::named_agent(parts[i]) == Ok::<AgentSpec, Seq<char>>(
                specs[i],
            )
            &&& 0 <= i < j < specs.len() ==> !(specs[i] == AgentSpec::Human && specs[j]
                == AgentSpec::Human)
            &&& threads > 1 && 0 <= i < specs.len() ==> specs[i] != AgentSpec::Human
        }),
{
    let specs = cli::seated_agents(s, threads)->Ok_0;
    let parts = text::cut(s, ',');
    if parts.len() > 0 {
        agents_one_by_one(parts, 0);
    }
    if 0 <= i < parts.len() {
        agents_one_by_one(parts, i);
    }
    humans_are_counted(specs);
    if 0 <= i < j < specs.len() && specs[i] == AgentSpec::Human && specs[j] == AgentSpec::Human {
        two_humans_are_too_many(specs, i, j);
    }
}

proof fn stacks_one_by_one(parts: Seq<Seq<char>>, i: int)
    requires
        0 <= i < parts.len(),
        cli::named_stacks(parts) is Ok,
    ensures
        (cli::named_stacks(parts)->Ok_0).len() == parts.len(),
        cli::chips_in(text::trimmed(parts[i])) == Some((cli::named_stacks(parts)->Ok_0)[i]),
    decreases parts.len(),
{
    let head = parts.drop_last();
    if i < head.len() {
        stacks_one_by_one(head, i);
        assert(head[i] == parts[i]);
    } else if head.len() > 0 {
        stacks_one_by_one(head, 0);
    }
}

/// A list of stacks that is accepted names one number for each agent, in order.
pub proof fn accepted_stacks_fit_the_agents(s: Seq<char>, n: int, i: int)
    requires
        cli::seated_stacks(s, n) is Ok,
        0 <= i < n,
    ensures
        ({
            let stacks = cli::seated_stacks(s, n)->Ok_0;
            let parts = text::cut(s, ',');
            &&& stacks.len() == n
            &&& parts.len() == n
            &&& text::number_in(text::trimmed(parts[i])) == Some(stacks[i] as nat)
        }),
{
    let parts = text::cut(s, ',');
    if parts.len() > 0 {
        stacks_one_by_one(parts, 0);
    }
    if i < parts.len() {
        stacks_one_by_one(parts, i);
    }
}

/// Blinds are written with a slash, the small one first. They are accepted exactly if the
/// small one is positive and below the big one.
pub proof fn blinds_read_back(sb: u32, bb: u32)
    ensures
        ({
            let s = text::decimal(sb as nat) + seq!['/'] + text::decimal(bb as nat);
            &&& 0 < sb < bb ==> cli::named_blinds(s) == Ok::<(u32, u32), Seq<char>>((sb, bb))
            &&& !(0 < sb < bb) ==> cli::named_blinds(s) is Err
        }),
{
    let a = text::decimal(sb as nat);
    let b = text::decimal(bb as nat);
    let s = a + seq!['/'] + b;
    text::digits_have_no(sb as nat, '/');
    text::piece_before(a, '/', b);
    text::numbers_read_back(sb as nat);
    text::numbers_read_back(bb as nat);
    text::number_is_trimmed(sb as nat);
    text::number_is_trimmed(bb as nat);
}

} // verus!
