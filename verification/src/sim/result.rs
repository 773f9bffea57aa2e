use vstd::prelude::*;

verus! {

/// Aggregated output from a simulation run.
#[derive(Debug)]
pub struct SimResult {
    /// Number of hands actually played.
    pub hands_played: usize,
    /// Net chips won (+) or lost (-) per seat across all hands.
    pub chip_deltas: Vec<i64>,
    /// Stack of each seat at the end of the run.
    pub final_stacks: Vec<u32>,
}

impl Clone for SimResult {
    fn clone(&self) -> (r: SimResult)
        ensures
            r.hands_played == self.hands_played,
            r.chip_deltas@ == self.chip_deltas@,
            r.final_stacks@ == self.final_stacks@,
    {
        SimResult {
            hands_played: self.hands_played,
            chip_deltas: self.chip_deltas.clone(),
            final_stacks: self.final_stacks.clone(),
        }
    }
}

/// The hands that the first `n` results count together.
pub open spec fn hands_together(results: Seq<SimResult>, n: int) -> int
    decreases n,
{
    if n <= 0 {
        0
    } else {
        hands_together(results, n - 1) + results[n - 1].hands_played
    }
}

/// What seat `i` won in the first `n` results together.
pub open spec fn won_together(results: Seq<SimResult>, n: int, i: int) -> int
    decreases n,
{
    if n <= 0 {
        0
    } else {
        won_together(results, n - 1, i) + if i < results[n - 1].chip_deltas@.len() {
            results[n - 1].chip_deltas@[i] as int
        } else {
            0
        }
    }
}

/// The first results, summed up, stay within what a result can hold.
pub open spec fn sums_fit(results: Seq<SimResult>) -> bool {
    &&& hands_together(results, results.len() as int) <= usize::MAX
    &&& forall|n: int, i: int|
        0 <= n <= results.len() && 0 <= i < results[0].chip_deltas@.len() ==> i64::MIN
            <= #[trigger] won_together(results, n, i) <= i64::MAX
}

proof fn fewer_hands_in_fewer_results(results: Seq<SimResult>, n: int)
    requires
        0 <= n <= results.len(),
    ensures
        0 <= hands_together(results, n) <= hands_together(results, results.len() as int),
    decreases results.len() - n,
{
    if n < results.len() {
        fewer_hands_in_fewer_results(results, n + 1);
    }
    hands_not_negative(results, n);
}

proof fn hands_not_negative(results: Seq<SimResult>, n: int)
    ensures
        0 <= hands_together(results, n),
    decreases n,
{
    if n > 0 {
        hands_not_negative(results, n - 1);
    }
}

impl SimResult {
    /// Merge results from parallel workers into one aggregate. The final stacks are
    /// those of the last worker (only meaningful when stacks carry over).
    pub fn merge(results: &Vec<SimResult>) -> (r: SimResult)
        requires
            results@.len() > 0,
            forall|k: int|
                0 <= k < results@.len() ==> (#[trigger] results@[k]).chip_deltas@.len()
                    <= results@[0].chip_deltas@.len(),
            sums_fit(results@),
        ensures
            r.hands_played == hands_together(results@, results@.len() as int),
            r.chip_deltas@.len() == results@[0].chip_deltas@.len(),
            forall|i: int|
                0 <= i < r.chip_deltas@.len() ==> #[trigger] r.chip_deltas@[i] == won_together(
                    results@,
                    results@.len() as int,
                    i,
                ),
            r.final_stacks@ == results@.last().final_stacks@,
    {
        let n: usize = results[0].chip_deltas.len();
        let mut deltas: Vec<i64> = Vec::new();
        while deltas.len() < n
            invariant
                deltas@.len() <= n,
                forall|i: int| 0 <= i < deltas@.len() ==> deltas@[i] == 0,
            decreases n - deltas@.len(),
        {
            deltas.push(0);
        }
        let mut hands: usize = 0;
        let mut k: usize = 0;
        while k < results.len()
            invariant
                k <= results@.len(),
                results@.len() > 0,
                n == results@[0].chip_deltas@.len(),
                forall|j: int|
                    0 <= j < results@.len() ==> (#[trigger] results@[j]).chip_deltas@.len() <= n,
                sums_fit(results@),
                hands == hands_together(results@, k as int),
                deltas@.len() == n,
                forall|i: int|
                    0 <= i < n ==> #[trigger] deltas@[i] == won_together(results@, k as int, i),
            decreases results@.len() - k,
        {
            proof {
                fewer_hands_in_fewer_results(results@, k + 1);
            }
            let r = &results[k];
            hands = hands + r.hands_played;
            let mut i: usize = 0;
            while i < r.chip_deltas.len()
                invariant
                    k < results@.len(),
                    *r == results@[k as int],
                    n == results@[0].chip_deltas@.len(),
                    i <= r.chip_deltas@.len() <= n,
                    sums_fit(results@),
                    deltas@.len() == n,
                    forall|j: int|
                        i <= j < n ==> #[trigger] deltas@[j] == won_together(results@, k as int, j),
                    forall|j: int|
                        0 <= j < i ==> #[trigger] deltas@[j] == won_together(results@, k + 1, j),
                decreases r.chip_deltas@.len() - i,
            {
                assert(i64::MIN <= won_together(results@, k + 1, i as int) <= i64::MAX);
                let sum: i64 = deltas[i] + r.chip_deltas[i];
                deltas.set(i, sum);
                i = i + 1;
            }
            k = k + 1;
        }
        SimResult {
            hands_played: hands,
            chip_deltas: deltas,
            final_stacks: results[results.len() - 1].final_stacks.clone(),
        }
    }
}

/// Merged totals are sums over the workers, in whatever order: the totals of two lists of
/// results, one after the other, are the sums of the totals of each.
pub proof fn merged_totals_add_up(a: Seq<SimResult>, b: Seq<SimResult>, n: int, i: int)
    requires
        0 <= n <= b.len(),
        0 <= i,
    ensures
        hands_together(a + b, a.len() + n) == hands_together(a, a.len() as int) + hands_together(
            b,
            n,
        ),
        won_together(a + b, a.len() + n, i) == won_together(a, a.len() as int, i) + won_together(
            b,
            n,
            i,
        ),
        n == 1 ==> hands_together(b, n) == b[0].hands_played,
        n == 1 && i < b[0].chip_deltas@.len() ==> won_together(b, n, i) == b[0].chip_deltas@[i],
    decreases n,
{
    if n > 0 {
        merged_totals_add_up(a, b, n - 1, i);
        assert((a + b)[a.len() + n - 1] == b[n - 1]);
        assert(hands_together(b, 0) == 0 && won_together(b, 0, i) == 0);
    } else {
        same_beginning(a, a + b, a.len() as int, i);
    }
}

proof fn same_beginning(a: Seq<SimResult>, b: Seq<SimResult>, n: int, i: int)
    requires
        0 <= n <= a.len() <= b.len(),
        forall|k: int| 0 <= k < a.len() ==> #[trigger] b[k] == a[k],
    ensures
        hands_together(a, n) == hands_together(b, n),
        won_together(a, n, i) == won_together(b, n, i),
    decreases n,
{
    if n > 0 {
        same_beginning(a, b, n - 1, i);
        assert(b[n - 1] == a[n - 1]);
    }
}

} // verus!
