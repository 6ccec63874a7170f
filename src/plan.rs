use vstd::prelude::*;

use crate::allocation::{
    allocate_with_remainder, default_risk_limits, optimal_allocation_spec, sum_amounts,
    unallocated_capital, CapitalAllocation, RiskLimits, StrategyPerformanceData,
};
use crate::errors::RebalancerError;
use crate::state::{Address, Portfolio};

verus! {

/// One cycle's rebalancing plan.
#[derive(Clone, Debug)]
pub struct RebalancingPlan {
    pub extraction_targets: Vec<Address>,
    pub total_to_extract: u64,
    pub redistribution_plan: Vec<CapitalAllocation>,
    /// Part of `total_to_extract` that the redistribution leaves with the
    /// caller (dust, or a leftover that no top performer takes).
    pub unallocated_capital: u64,
    pub estimated_fees: u64,
    /// Expected gain in performance score; an estimate only.
    pub expected_improvement: u64,
}

/// Percentile from which a strategy counts as a top performer.
pub const TOP_PERCENTILE: u8 = 75;

/// Most top performers that receive capital in one cycle.
pub const MAX_TOP_PERFORMERS: usize = 5;

/// Balance each extracted strategy keeps (0.01 unit).
pub const RESERVED_BALANCE: u64 = 10_000_000;

/// Extractable capital below this amount (0.1 unit) is not worth a plan.
pub const MIN_EXTRACTABLE: u64 = 100_000_000;

/// Estimated fees of executing a plan, in basis points of the capital moved.
pub const ESTIMATED_FEE_BPS: u64 = 200;

/// Strategies among the first `k` ranked below `threshold`, in order.
pub open spec fn below_threshold_upto(s: Seq<StrategyPerformanceData>, threshold: u8, k: int) -> Seq<
    StrategyPerformanceData,
>
    decreases k,
{
    if k <= 0 {
        Seq::empty()
    } else {
        let prev = below_threshold_upto(s, threshold, k - 1);
        if s[k - 1].percentile_rank < threshold {
            prev.push(s[k - 1])
        } else {
            prev
        }
    }
}

/// Strategies among the first `k` that rank at or above the top percentile,
/// in order.
pub open spec fn qualifying_upto(s: Seq<StrategyPerformanceData>, k: int) -> Seq<
    StrategyPerformanceData,
>
    decreases k,
{
    if k <= 0 {
        Seq::empty()
    } else {
        let prev = qualifying_upto(s, k - 1);
        if s[k - 1].percentile_rank >= TOP_PERCENTILE {
            prev.push(s[k - 1])
        } else {
            prev
        }
    }
}

pub open spec fn underperforming(s: Seq<StrategyPerformanceData>, threshold: u8) -> Seq<
    StrategyPerformanceData,
> {
    below_threshold_upto(s, threshold, s.len() as int)
}

pub open spec fn qualifying(s: Seq<StrategyPerformanceData>) -> Seq<StrategyPerformanceData> {
    qualifying_upto(s, s.len() as int)
}

/// `a` is strictly the better top performer: higher percentile; then higher
/// score; then higher balance; then lower volatility.
pub open spec fn outranks(a: StrategyPerformanceData, b: StrategyPerformanceData) -> bool {
    ||| a.percentile_rank > b.percentile_rank
    ||| a.percentile_rank == b.percentile_rank && a.performance_score > b.performance_score
    ||| a.percentile_rank == b.percentile_rank && a.performance_score == b.performance_score
        && a.current_balance > b.current_balance
    ||| a.percentile_rank == b.percentile_rank && a.performance_score == b.performance_score
        && a.current_balance == b.current_balance && a.volatility_score < b.volatility_score
}

/// Best first: no entry outranks an earlier one.
pub open spec fn is_best_first(s: Seq<StrategyPerformanceData>) -> bool {
    forall|i: int, j: int| 0 <= i < j < s.len() ==> !outranks(#[trigger] s[j], #[trigger] s[i])
}

pub open spec fn best_position_from(s: Seq<StrategyPerformanceData>, x: StrategyPerformanceData, i: int) -> int
    decreases s.len() - i,
{
    if i >= s.len() {
        s.len() as int
    } else if outranks(x, s[i]) {
        i
    } else {
        best_position_from(s, x, i + 1)
    }
}

/// Stable sort, best first: entries inserted in input order, each after all
/// those it does not outrank.
pub open spec fn sort_best_first(s: Seq<StrategyPerformanceData>) -> Seq<StrategyPerformanceData>
    decreases s.len(),
{
    if s.len() == 0 {
        Seq::empty()
    } else {
        let t = sort_best_first(s.drop_last());
        t.insert(best_position_from(t, s.last(), 0), s.last())
    }
}

/// The qualifying strategies, best first.
pub open spec fn ranked_candidates(s: Seq<StrategyPerformanceData>) -> Seq<StrategyPerformanceData> {
    sort_best_first(qualifying(s))
}

/// The best (at most five) strategies ranked at or above the top
/// percentile, best first.
pub open spec fn top_performers(s: Seq<StrategyPerformanceData>) -> Seq<StrategyPerformanceData> {
    let q = ranked_candidates(s);
    if q.len() > MAX_TOP_PERFORMERS {
        q.subrange(0, MAX_TOP_PERFORMERS as int)
    } else {
        q
    }
}

proof fn lemma_best_position_bounds(s: Seq<StrategyPerformanceData>, x: StrategyPerformanceData, i: int)
    requires
        0 <= i <= s.len(),
    ensures
        i <= best_position_from(s, x, i) <= s.len(),
        forall|k: int| i <= k < best_position_from(s, x, i) ==> !outranks(x, #[trigger] s[k]),
        best_position_from(s, x, i) < s.len() ==> outranks(x, s[best_position_from(s, x, i)]),
    decreases s.len() - i,
{
    if i < s.len() && !outranks(x, s[i]) {
        lemma_best_position_bounds(s, x, i + 1);
    }
}

proof fn lemma_sort_best_first(s: Seq<StrategyPerformanceData>)
    ensures
        sort_best_first(s).len() == s.len(),
        is_best_first(sort_best_first(s)),
        sort_best_first(s).to_multiset() == s.to_multiset(),
    decreases s.len(),
{
    if s.len() == 0 {
        assert(s =~= Seq::<StrategyPerformanceData>::empty());
    } else {
        let d = s.drop_last();
        let x = s.last();
        let t = sort_best_first(d);
        lemma_sort_best_first(d);
        lemma_best_position_bounds(t, x, 0);
        let p = best_position_from(t, x, 0);
        let u = t.insert(p, x);
        assert forall|i: int, j: int| 0 <= i < j < u.len() implies !outranks(
            #[trigger] u[j],
            #[trigger] u[i],
        ) by {
            if j < p {
                assert(u[i] == t[i] && u[j] == t[j]);
            } else if j == p {
                assert(u[i] == t[i]);
            } else if i < p {
                assert(u[i] == t[i] && u[j] == t[j - 1]);
            } else if i == p {
                assert(u[j] == t[j - 1]);
                if j - 1 > p {
                    assert(!outranks(t[j - 1], t[p]));
                }
            } else {
                assert(u[i] == t[i - 1] && u[j] == t[j - 1]);
            }
        }
        vstd::seq_lib::to_multiset_insert(t, p, x);
        d.to_multiset_ensures();
        assert(d.push(x) =~= s);
        assert(d.push(x).to_multiset() =~= d.to_multiset().insert(x));
    }
}

/// The plan's top performers are the best of the qualifying strategies: the
/// qualifying strategies best first are exactly the qualifying strategies,
/// the top performers are their first (at most five), and no strategy left
/// out outranks one chosen.
pub proof fn lemma_top_performers_are_best(s: Seq<StrategyPerformanceData>)
    ensures
        ranked_candidates(s).to_multiset() == qualifying(s).to_multiset(),
        is_best_first(ranked_candidates(s)),
        top_performers(s).len() == if qualifying(s).len() > MAX_TOP_PERFORMERS {
            MAX_TOP_PERFORMERS as int
        } else {
            qualifying(s).len() as int
        },
        forall|k: int| 0 <= k < top_performers(s).len() ==> #[trigger] top_performers(s)[k]
            == ranked_candidates(s)[k],
        forall|k: int, j: int|
            0 <= k < top_performers(s).len() <= j < ranked_candidates(s).len() ==> !outranks(
                #[trigger] ranked_candidates(s)[j],
                #[trigger] top_performers(s)[k],
            ),
        forall|k: int| 0 <= k < top_performers(s).len() ==> (#[trigger] top_performers(s)[k]).percentile_rank >= TOP_PERCENTILE,
{
    lemma_sort_best_first(qualifying(s));
    let q = ranked_candidates(s);
    let t = top_performers(s);
    assert forall|k: int, j: int| 0 <= k < t.len() <= j < q.len() implies !outranks(
        #[trigger] q[j],
        #[trigger] t[k],
    ) by {
        assert(t[k] == q[k]);
    }
    lemma_qualifying_ranks(s, s.len() as int);
    assert forall|k: int| 0 <= k < t.len() implies (#[trigger] t[k]).percentile_rank >= TOP_PERCENTILE by {
        assert(t[k] == q[k]);
        q.to_multiset_ensures();
        qualifying(s).to_multiset_ensures();
        assert(q.contains(q[k]));
        assert(q.to_multiset().count(q[k]) > 0);
        assert(qualifying(s).to_multiset().count(q[k]) > 0);
        assert(qualifying(s).contains(q[k]));
        let i = choose|i: int| 0 <= i < qualifying(s).len() && qualifying(s)[i] == q[k];
        assert(qualifying_upto(s, s.len() as int)[i].percentile_rank >= TOP_PERCENTILE);
    }
}

proof fn lemma_qualifying_ranks(s: Seq<StrategyPerformanceData>, k: int)
    requires
        0 <= k <= s.len(),
    ensures
        forall|i: int| 0 <= i < qualifying_upto(s, k).len() ==> (#[trigger] qualifying_upto(s, k)[i]).percentile_rank >= TOP_PERCENTILE,
    decreases k,
{
    if k > 0 {
        lemma_qualifying_ranks(s, k - 1);
        let prev = qualifying_upto(s, k - 1);
        assert forall|i: int| 0 <= i < qualifying_upto(s, k).len() implies (#[trigger] qualifying_upto(s, k)[i]).percentile_rank >= TOP_PERCENTILE by {
            if i < prev.len() {
                assert(qualifying_upto(s, k)[i] == prev[i]);
            }
        }
    }
}

fn find_best_position(sorted: &Vec<StrategyPerformanceData>, x: &StrategyPerformanceData) -> (p: usize)
    ensures
        p == best_position_from(sorted@, *x, 0),
{
    let mut i: usize = 0;
    while i < sorted.len()
        invariant
            0 <= i <= sorted.len(),
            best_position_from(sorted@, *x, 0) == best_position_from(sorted@, *x, i as int),
        decreases sorted.len() - i,
    {
        let e = &sorted[i];
        let better = x.percentile_rank > e.percentile_rank || (x.percentile_rank == e.percentile_rank
            && x.performance_score > e.performance_score) || (x.percentile_rank == e.percentile_rank
            && x.performance_score == e.performance_score && x.current_balance > e.current_balance)
            || (x.percentile_rank == e.percentile_rank && x.performance_score == e.performance_score
            && x.current_balance == e.current_balance && x.volatility_score < e.volatility_score);
        if better {
            return i;
        }
        i = i + 1;
    }
    i
}

/// A stable sort, best first, by percentile, score, balance, then lower
/// volatility.
fn sort_candidates(v: &Vec<StrategyPerformanceData>) -> (r: Vec<StrategyPerformanceData>)
    ensures
        r@ == sort_best_first(v@),
{
    let mut out: Vec<StrategyPerformanceData> = Vec::new();
    let mut i: usize = 0;
    assert(v@.subrange(0, 0) =~= Seq::<StrategyPerformanceData>::empty());
    while i < v.len()
        invariant
            0 <= i <= v.len(),
            out@ == sort_best_first(v@.subrange(0, i as int)),
        decreases v.len() - i,
    {
        let x = v[i];
        let p = find_best_position(&out, &x);
        proof {
            lemma_sort_best_first(v@.subrange(0, i as int));
            lemma_best_position_bounds(out@, x, 0);
            assert(v@.subrange(0, i + 1).drop_last() =~= v@.subrange(0, i as int));
        }
        out.insert(p, x);
        i = i + 1;
    }
    assert(v@.subrange(0, i as int) =~= v@);
    out
}

/// Capital that can leave the strategies: each balance above the reserve.
pub open spec fn extractable(s: Seq<StrategyPerformanceData>) -> int
    decreases s.len(),
{
    if s.len() == 0 {
        0
    } else {
        let b = s.last().current_balance;
        extractable(s.drop_last()) + if b > RESERVED_BALANCE {
            b - RESERVED_BALANCE
        } else {
            0
        }
    }
}

pub open spec fn score_sum(s: Seq<StrategyPerformanceData>) -> int
    decreases s.len(),
{
    if s.len() == 0 {
        0
    } else {
        score_sum(s.drop_last()) + s.last().performance_score
    }
}

/// 15% of the average score of the given top performers; zero for none.
pub open spec fn expected_improvement(s: Seq<StrategyPerformanceData>) -> int {
    if s.len() == 0 {
        0
    } else {
        (score_sum(s) / s.len() as int) * 15 / 100
    }
}

pub open spec fn ids_of(s: Seq<StrategyPerformanceData>) -> Seq<Address> {
    Seq::new(s.len(), |i: int| s[i].strategy_id)
}

proof fn lemma_score_sum_bound(s: Seq<StrategyPerformanceData>)
    ensures
        0 <= score_sum(s) <= s.len() * u64::MAX,
    decreases s.len(),
{
    if s.len() > 0 {
        lemma_score_sum_bound(s.drop_last());
    }
}

proof fn lemma_extractable_monotone(s: Seq<StrategyPerformanceData>, k: int)
    requires
        0 <= k <= s.len(),
    ensures
        0 <= extractable(s.subrange(0, k)) <= extractable(s),
    decreases s.len() - k,
{
    if k < s.len() {
        assert(s.subrange(0, k + 1).drop_last() =~= s.subrange(0, k));
        lemma_extractable_monotone(s, k + 1);
    } else {
        assert(s.subrange(0, k) =~= s);
    }
    lemma_extractable_nonneg(s.subrange(0, k));
}

proof fn lemma_extractable_nonneg(s: Seq<StrategyPerformanceData>)
    ensures
        extractable(s) >= 0,
    decreases s.len(),
{
    if s.len() > 0 {
        lemma_extractable_nonneg(s.drop_last());
    }
}

/// Expected gain from a plan: 15% of the top performers' average score.
pub fn calculate_expected_improvement(top_performers: &Vec<StrategyPerformanceData>) -> (r: u64)
    ensures
        r == expected_improvement(top_performers@),
{
    let n = top_performers.len();
    if n == 0 {
        return 0;
    }
    let mut total: u128 = 0;
    let mut i: usize = 0;
    assert(top_performers@.subrange(0, 0) =~= Seq::<StrategyPerformanceData>::empty());
    while i < n
        invariant
            0 <= i <= n,
            n == top_performers@.len(),
            total == score_sum(top_performers@.subrange(0, i as int)),
        decreases n - i,
    {
        proof {
            let next = top_performers@.subrange(0, i + 1);
            assert(next.drop_last() =~= top_performers@.subrange(0, i as int));
            lemma_score_sum_bound(next);
            assert((i + 1) * u64::MAX <= u64::MAX * u64::MAX) by (nonlinear_arith)
                requires
                    i + 1 <= u64::MAX,
            ;
        }
        total = total + top_performers[i].performance_score as u128;
        i = i + 1;
    }
    assert(top_performers@.subrange(0, i as int) =~= top_performers@);
    proof {
        lemma_score_sum_bound(top_performers@);
        assert((total as int) / (n as int) <= u64::MAX) by (nonlinear_arith)
            requires
                total <= n * u64::MAX,
                n > 0,
        ;
    }
    let average: u128 = total / n as u128;
    (average * 15 / 100) as u64
}

/// What a plan holds when its checks pass.
pub open spec fn plan_matches(
    plan: RebalancingPlan,
    s: Seq<StrategyPerformanceData>,
    threshold: u8,
    allocations: Seq<CapitalAllocation>,
) -> bool {
    let under = underperforming(s, threshold);
    let total = extractable(under);
    &&& plan.extraction_targets@ == ids_of(under)
    &&& plan.total_to_extract == total
    &&& plan.redistribution_plan@ == allocations
    &&& plan.unallocated_capital == unallocated_capital(
        total as u64,
        top_performers(s),
        default_risk_limits(),
    )
    &&& sum_amounts(allocations) + plan.unallocated_capital == total
    &&& plan.estimated_fees == total * ESTIMATED_FEE_BPS / 10000
    &&& plan.expected_improvement == expected_improvement(top_performers(s))
}

/// Plans one cycle: capital above the reserve leaves every strategy ranked
/// below the portfolio's threshold, and goes to the best (at most five)
/// strategies ranked at or above the top percentile, best first, under the
/// default risk limits. No qualifying strategy left out outranks one chosen.
pub fn execute_complete_rebalancing(
    portfolio: &Portfolio,
    strategies: &Vec<StrategyPerformanceData>,
) -> (r: Result<RebalancingPlan, RebalancerError>)
    ensures
        ({
            let under = underperforming(strategies@, portfolio.rebalance_threshold);
            let top = top_performers(strategies@);
            let total = extractable(under);
            if under.len() == 0 || top.len() == 0 {
                r == Err::<RebalancingPlan, RebalancerError>(RebalancerError::InsufficientStrategies)
            } else if total > u64::MAX {
                r == Err::<RebalancingPlan, RebalancerError>(RebalancerError::MathOverflow)
            } else if total < MIN_EXTRACTABLE {
                r == Err::<RebalancingPlan, RebalancerError>(RebalancerError::InsufficientBalance)
            } else {
                match optimal_allocation_spec(total as u64, top, default_risk_limits()) {
                    Ok(a) => r is Ok && plan_matches(
                        r->Ok_0,
                        strategies@,
                        portfolio.rebalance_threshold,
                        a,
                    ),
                    Err(e) => r == Err::<RebalancingPlan, RebalancerError>(e),
                }
            }
        }),
        forall|k: int, j: int|
            0 <= k < top_performers(strategies@).len() <= j < ranked_candidates(strategies@).len()
                ==> !outranks(
                #[trigger] ranked_candidates(strategies@)[j],
                #[trigger] top_performers(strategies@)[k],
            ),
{
    proof {
        lemma_top_performers_are_best(strategies@);
    }
    let threshold = portfolio.rebalance_threshold;
    let n = strategies.len();
    let mut underperformers: Vec<StrategyPerformanceData> = Vec::new();
    let mut qualified: Vec<StrategyPerformanceData> = Vec::new();
    let mut i: usize = 0;
    while i < n
        invariant
            0 <= i <= n,
            n == strategies@.len(),
            underperformers@ == below_threshold_upto(strategies@, threshold, i as int),
            qualified@ == qualifying_upto(strategies@, i as int),
        decreases n - i,
    {
        let s = strategies[i];
        if s.percentile_rank < threshold {
            underperformers.push(s);
        }
        if s.percentile_rank >= TOP_PERCENTILE {
            qualified.push(s);
        }
        i = i + 1;
    }
    let best_first = sort_candidates(&qualified);
    proof {
        lemma_sort_best_first(qualified@);
        assert(best_first@ == ranked_candidates(strategies@));
    }
    let mut top: Vec<StrategyPerformanceData> = Vec::new();
    let mut k: usize = 0;
    while k < best_first.len() && k < MAX_TOP_PERFORMERS
        invariant
            0 <= k <= best_first.len(),
            k <= MAX_TOP_PERFORMERS,
            best_first@ == ranked_candidates(strategies@),
            top@ == best_first@.subrange(0, k as int),
        decreases best_first.len() - k,
    {
        top.push(best_first[k]);
        proof {
            assert(top@ =~= best_first@.subrange(0, k + 1));
        }
        k = k + 1;
    }
    proof {
        if best_first@.len() <= MAX_TOP_PERFORMERS {
            assert(top@ =~= best_first@);
        }
    }
    assert(top@ == top_performers(strategies@));
    if underperformers.len() == 0 || top.len() == 0 {
        return Err(RebalancerError::InsufficientStrategies);
    }
    let ghost under = underperformers@;
    let mut total_extractable: u64 = 0;
    let mut targets: Vec<Address> = Vec::new();
    let mut j: usize = 0;
    assert(under.subrange(0, 0) =~= Seq::<StrategyPerformanceData>::empty());
    while j < underperformers.len()
        invariant
            0 <= j <= underperformers.len(),
            under == underperformers@,
            under == underperforming(strategies@, portfolio.rebalance_threshold),
            top@ == top_performers(strategies@),
            top@.len() > 0,
            total_extractable == extractable(under.subrange(0, j as int)),
            targets@ == ids_of(under.subrange(0, j as int)),
        decreases underperformers.len() - j,
    {
        let s = underperformers[j];
        proof {
            assert(under.subrange(0, j + 1).drop_last() =~= under.subrange(0, j as int));
        }
        let kept = s.current_balance.saturating_sub(RESERVED_BALANCE);
        total_extractable = match total_extractable.checked_add(kept) {
            Some(t) => t,
            None => {
                proof {
                    let next = under.subrange(0, j + 1);
                    assert(next.last() == s);
                    assert(extractable(next) == extractable(next.drop_last()) + kept);
                    lemma_extractable_monotone(under, j + 1);
                    lemma_top_performers_are_best(strategies@);
                }
                return Err(RebalancerError::MathOverflow);
            },
        };
        targets.push(s.strategy_id);
        proof {
            assert(targets@ =~= ids_of(under.subrange(0, j + 1)));
        }
        j = j + 1;
    }
    assert(under.subrange(0, j as int) =~= under);
    if total_extractable < MIN_EXTRACTABLE {
        return Err(RebalancerError::InsufficientBalance);
    }
    let risk_limits = RiskLimits::default();
    let outcome = match allocate_with_remainder(total_extractable, &top, &risk_limits) {
        Ok(a) => a,
        Err(e) => {
            return Err(e);
        },
    };
    let estimated_fees = (total_extractable as u128 * ESTIMATED_FEE_BPS as u128 / 10000) as u64;
    let expected_improvement = calculate_expected_improvement(&top);
    Ok(
        RebalancingPlan {
            extraction_targets: targets,
            total_to_extract: total_extractable,
            redistribution_plan: outcome.allocations,
            unallocated_capital: outcome.unallocated,
            estimated_fees,
            expected_improvement,
        },
    )
}

} // verus!
