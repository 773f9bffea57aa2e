use vstd::prelude::*;

verus! {

/// How deck seeds are generated for each hand.
#[derive(Clone, Copy, Debug, PartialEq, Eq, Structural)]
pub enum SeedMode {
    /// Each hand gets a fresh random seed from the runner's internal generator.
    Random,
    /// Hand `i` (zero-indexed) gets seed `base + i`. Fully reproducible.
    Sequential(u64),
}

/// What happens to stacks between hands.
#[derive(Clone, Copy, Debug, PartialEq, Eq, Structural)]
pub enum StackPolicy {
    /// Every hand begins with the configured starting stacks.
    Reset,
    /// Stacks carry over across hands. Players whose stack reaches 0 sit out for
    /// subsequent hands, until the stacks are reset.
    Persistent,
}

/// Configuration of one run.
#[derive(Clone, Copy, Debug, PartialEq, Eq, Structural)]
pub struct SimConfig {
    pub seed: SeedMode,
    pub stack_policy: StackPolicy,
}

impl SimConfig {
    pub fn standard() -> (c: SimConfig)
        ensures
            c == (SimConfig { seed: SeedMode::Random, stack_policy: StackPolicy::Reset }),
    {
        SimConfig { seed: SeedMode::Random, stack_policy: StackPolicy::Reset }
    }

    pub fn deterministic(base_seed: u64) -> (c: SimConfig)
        ensures
            c == (SimConfig {
                seed: SeedMode::Sequential(base_seed),
                stack_policy: StackPolicy::Reset,
            }),
    {
        SimConfig { seed: SeedMode::Sequential(base_seed), stack_policy: StackPolicy::Reset }
    }
}

/// How many of `hands_total` hands worker `t` of `threads` plays: an even share, and
/// one more for each of the first workers until nothing is left over.
pub open spec fn share(hands_total: int, threads: int, t: int) -> int {
    hands_total / threads + if t < hands_total % threads {
        1int
    } else {
        0
    }
}

/// How many hands the workers before `t` play together, where each plays
/// `base_hands` and the first `remainder` of them one more.
pub open spec fn hands_before(t: int, base_hands: int, remainder: int) -> int {
    t * base_hands + if t < remainder {
        t
    } else {
        remainder
    }
}

/// How many hands worker `t` plays.
pub fn thread_hands(hands_total: usize, threads: usize, t: usize) -> (hands: usize)
    requires
        threads > 0,
    ensures
        hands == share(hands_total as int, threads as int, t as int),
{
    let base_hands: usize = hands_total / threads;
    let remainder: usize = hands_total % threads;
    proof {
        assert(remainder > 0 ==> base_hands < usize::MAX) by {
            if base_hands == usize::MAX {
                assert(threads * base_hands + remainder == hands_total) by {
                    vstd::arithmetic::div_mod::lemma_fundamental_div_mod(
                        hands_total as int,
                        threads as int,
                    );
                }
                assert(threads * base_hands >= base_hands) by (nonlinear_arith)
                    requires
                        threads >= 1,
                ;
            }
        }
    }
    if t < remainder {
        base_hands + 1
    } else {
        base_hands
    }
}

/// The configuration of worker `thread_idx`: sequential seeds start after those of
/// all hands that the workers before it play.
pub fn thread_config(
    base: &SimConfig,
    thread_idx: usize,
    base_hands: usize,
    remainder: usize,
) -> (c: SimConfig)
    requires
        base.seed matches SeedMode::Sequential(b) ==> b + hands_before(
            thread_idx as int,
            base_hands as int,
            remainder as int,
        ) <= u64::MAX,
    ensures
        c.stack_policy == base.stack_policy,
        c.seed == match base.seed {
            SeedMode::Random => SeedMode::Random,
            SeedMode::Sequential(b) => SeedMode::Sequential(
                (b + hands_before(thread_idx as int, base_hands as int, remainder as int)) as u64,
            ),
        },
{
    let seed = match base.seed {
        SeedMode::Random => SeedMode::Random,
        SeedMode::Sequential(base_seed) => {
            let extra: usize = if thread_idx < remainder {
                thread_idx
            } else {
                remainder
            };
            assert(thread_idx * base_hands >= 0) by (nonlinear_arith);
            let offset: u64 = (thread_idx as u64) * (base_hands as u64) + extra as u64;
            SeedMode::Sequential(base_seed + offset)
        },
    };
    SimConfig { seed, stack_policy: base.stack_policy }
}

/// Worker `t + 1` starts where worker `t` stops, so that the workers together cover
/// every hand once.
pub proof fn workers_follow_one_another(hands_total: int, threads: int, t: int)
    requires
        0 <= hands_total,
        0 < threads,
        0 <= t < threads,
    ensures
        hands_before(t + 1, hands_total / threads, hands_total % threads) == hands_before(
            t,
            hands_total / threads,
            hands_total % threads,
        ) + share(hands_total, threads, t),
{
    let base = hands_total / threads;
    assert((t + 1) * base == t * base + base) by (nonlinear_arith);
}

/// The first worker starts at the first hand, and after the last worker nothing is
/// left to play.
pub proof fn workers_cover_all_hands(hands_total: int, threads: int)
    requires
        0 <= hands_total,
        0 < threads,
    ensures
        hands_before(0, hands_total / threads, hands_total % threads) == 0,
        hands_before(threads, hands_total / threads, hands_total % threads) == hands_total,
{
    vstd::arithmetic::div_mod::lemma_fundamental_div_mod(hands_total, threads);
    vstd::arithmetic::div_mod::lemma_mod_bound(hands_total, threads);
}

/// The hands are shared out evenly: no worker plays more than one hand more than another,
/// and who plays more comes first.
pub proof fn shares_are_even(hands_total: int, threads: int, t: int, u: int)
    requires
        0 <= hands_total,
        0 < threads,
        0 <= t <= u < threads,
    ensures
        0 <= share(hands_total, threads, t) - share(hands_total, threads, u) <= 1,
        0 <= threads * share(hands_total, threads, u) <= hands_total + threads,
{
    vstd::arithmetic::div_mod::lemma_fundamental_div_mod(hands_total, threads);
    vstd::arithmetic::div_mod::lemma_mod_bound(hands_total, threads);
    vstd::arithmetic::div_mod::lemma_div_pos_is_pos(hands_total, threads);
    let q = hands_total / threads;
    assert(threads * (q + 1) == threads * q + threads) by (nonlinear_arith);
    assert(threads * q >= 0) by (nonlinear_arith)
        requires
            threads > 0,
            q >= 0,
    ;
}

} // verus!
