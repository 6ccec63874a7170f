use vstd::prelude::*;

use crate::errors::RebalancerError;
use crate::state::{Address, Portfolio, Strategy, StrategyStatus};

verus! {

/// What the ranking needs to know of one active strategy.
#[derive(Clone, Copy, Debug)]
pub struct StrategyData {
    pub strategy_id: Address,
    pub performance_score: u64,
    pub current_balance: u64,
    pub volatility_score: u32,
    pub percentile_rank: u8,
    pub rebalance_threshold: u8,
}

/// Outcome of one ranking pass over a set of strategies.
#[derive(Clone, Debug)]
pub struct RankingResults {
    pub total_strategies: u32,
    pub active_strategies: u32,
    pub underperformers: Vec<Address>,
    pub rebalancing_candidates: Vec<Address>,
    pub ranking_timestamp: i64,
}

/// Threshold before any volatility adjustment, in percent.
pub const BASE_THRESHOLD: u32 = 15;

/// Bounds of the dynamic threshold, in percent.
pub const MIN_THRESHOLD: u8 = 10;

pub const MAX_THRESHOLD: u8 = 40;

/// Sum over the strategies of their volatility in whole percent.
pub open spec fn volatility_percent_sum(s: Seq<StrategyData>) -> int
    decreases s.len(),
{
    if s.len() == 0 {
        0
    } else {
        volatility_percent_sum(s.drop_last()) + s.last().volatility_score / 100
    }
}

/// Average volatility in whole percent, at most 100.
pub open spec fn average_volatility_spec(s: Seq<StrategyData>) -> Result<u32, RebalancerError> {
    if s.len() == 0 {
        Err(RebalancerError::InsufficientStrategies)
    } else if volatility_percent_sum(s) > u64::MAX {
        Err(RebalancerError::MathOverflow)
    } else {
        let avg = volatility_percent_sum(s) / s.len() as int;
        Ok(if avg > 100 { 100u32 } else { avg as u32 })
    }
}

/// `15 + avg * 20 / 100`, clamped to `[10, 40]`.
pub open spec fn threshold_for_volatility(avg: int) -> int {
    let t = BASE_THRESHOLD + avg * 20 / 100;
    if t < MIN_THRESHOLD {
        MIN_THRESHOLD as int
    } else if t > MAX_THRESHOLD {
        MAX_THRESHOLD as int
    } else {
        t
    }
}

pub open spec fn dynamic_threshold_spec(s: Seq<StrategyData>) -> Result<u8, RebalancerError> {
    match average_volatility_spec(s) {
        Ok(avg) => Ok(threshold_for_volatility(avg as int) as u8),
        Err(e) => Err(e),
    }
}

proof fn lemma_volatility_sum_bound(s: Seq<StrategyData>)
    ensures
        0 <= volatility_percent_sum(s) <= s.len() * (u32::MAX / 100),
    decreases s.len(),
{
    if s.len() > 0 {
        lemma_volatility_sum_bound(s.drop_last());
    }
}

/// Average volatility of the strategies, in whole percent (0 to 100).
pub fn calculate_average_volatility(strategies: &Vec<StrategyData>) -> (r: Result<u32, RebalancerError>)
    ensures
        r == average_volatility_spec(strategies@),
{
    if strategies.len() == 0 {
        return Err(RebalancerError::InsufficientStrategies);
    }
    let mut total_volatility: u64 = 0;
    let mut count: u64 = 0;
    let mut i: usize = 0;
    while i < strategies.len()
        invariant
            0 <= i <= strategies.len(),
            total_volatility == volatility_percent_sum(strategies@.subrange(0, i as int)),
            count == i,
        decreases strategies.len() - i,
    {
        let volatility_pct = strategies[i].volatility_score / 100;
        proof {
            let next = strategies@.subrange(0, i + 1);
            assert(next.drop_last() =~= strategies@.subrange(0, i as int));
        }
        match total_volatility.checked_add(volatility_pct as u64) {
            Some(t) => {
                total_volatility = t;
            },
            None => {
                proof {
                    lemma_prefix_sum_monotone(strategies@, i + 1);
                }
                return Err(RebalancerError::MathOverflow);
            },
        }
        count = count + 1;
        i = i + 1;
    }
    assert(strategies@.subrange(0, i as int) =~= strategies@);
    let average_volatility = total_volatility / count;
    if average_volatility > 100 {
        Ok(100)
    } else {
        Ok(average_volatility as u32)
    }
}

/// The volatility sum of a prefix never exceeds that of the whole.
proof fn lemma_prefix_sum_monotone(s: Seq<StrategyData>, k: int)
    requires
        0 <= k <= s.len(),
    ensures
        volatility_percent_sum(s.subrange(0, k)) <= volatility_percent_sum(s),
    decreases s.len() - k,
{
    if k < s.len() {
        lemma_prefix_sum_monotone(s, k + 1);
        assert(s.subrange(0, k + 1).drop_last() =~= s.subrange(0, k));
    } else {
        assert(s.subrange(0, k) =~= s);
    }
}

/// The rebalance threshold for this cycle: a base of 15% raised by a fifth
/// of the average volatility, kept within 10% and 40%.
pub fn calculate_dynamic_threshold(strategies: &Vec<StrategyData>) -> (r: Result<u8, RebalancerError>)
    ensures
        r == dynamic_threshold_spec(strategies@),
        r is Ok ==> MIN_THRESHOLD <= r->Ok_0 <= MAX_THRESHOLD,
{
    if strategies.len() == 0 {
        return Err(RebalancerError::InsufficientStrategies);
    }
    let avg_volatility = match calculate_average_volatility(strategies) {
        Ok(a) => a,
        Err(e) => {
            return Err(e);
        },
    };
    proof {
        lemma_volatility_sum_bound(strategies@);
    }
    assert(avg_volatility <= 100);
    let volatility_adjustment = match avg_volatility.checked_mul(20) {
        Some(p) => p / 100,
        None => {
            return Err(RebalancerError::MathOverflow);
        },
    };
    let dynamic_threshold = match BASE_THRESHOLD.checked_add(volatility_adjustment) {
        Some(t) => t,
        None => {
            return Err(RebalancerError::MathOverflow);
        },
    };
    let bounded: u8 = if dynamic_threshold < MIN_THRESHOLD as u32 {
        MIN_THRESHOLD
    } else if dynamic_threshold > MAX_THRESHOLD as u32 {
        MAX_THRESHOLD
    } else {
        dynamic_threshold as u8
    };
    Ok(bounded)
}

/// `a` ranks strictly above `b`: higher score; on equal scores, higher
/// balance; on equal balances too, lower volatility.
pub open spec fn ranks_above(a: StrategyData, b: StrategyData) -> bool {
    ||| a.performance_score > b.performance_score
    ||| a.performance_score == b.performance_score && a.current_balance > b.current_balance
    ||| a.performance_score == b.performance_score && a.current_balance == b.current_balance
        && a.volatility_score < b.volatility_score
}

/// Sorted best first: no entry ranks strictly above an earlier one.
pub open spec fn is_rank_ordered(s: Seq<StrategyData>) -> bool {
    forall|i: int, j: int| 0 <= i < j < s.len() ==> !ranks_above(#[trigger] s[j], #[trigger] s[i])
}

/// First index at or after `i` whose entry `x` ranks strictly above; the
/// length if there is none.
pub open spec fn insert_position_from(s: Seq<StrategyData>, x: StrategyData, i: int) -> int
    decreases s.len() - i,
{
    if i >= s.len() {
        s.len() as int
    } else if ranks_above(x, s[i]) {
        i
    } else {
        insert_position_from(s, x, i + 1)
    }
}

/// Where `x` goes in `s`: after every entry that it does not rank above, so
/// that entries of equal rank keep their order of arrival.
pub open spec fn insert_position(s: Seq<StrategyData>, x: StrategyData) -> int {
    insert_position_from(s, x, 0)
}

/// Stable sort, best first: the strategies inserted one at a time, in input
/// order, each after all those it does not rank above.
pub open spec fn sort_by_rank(s: Seq<StrategyData>) -> Seq<StrategyData>
    decreases s.len(),
{
    if s.len() == 0 {
        Seq::empty()
    } else {
        let t = sort_by_rank(s.drop_last());
        t.insert(insert_position(t, s.last()), s.last())
    }
}

/// Percentile of the entry at sorted index `i` among `n`: 50 when alone,
/// otherwise `(n - 1 - i) * 100 / (n - 1)`, so the best gets 100 and the
/// worst 0.
pub open spec fn percentile_for(n: int, i: int) -> int {
    if n == 1 {
        50
    } else {
        (n - 1 - i) * 100 / (n - 1)
    }
}

/// How many strategies a portfolio of more than four gives up:
/// `floor(n * threshold / 100)`, at least one.
pub open spec fn underperformer_quota(n: int, threshold: int) -> int {
    let q = n * threshold / 100;
    if q < 1 {
        1
    } else {
        q
    }
}

/// Up to four strategies, those whose percentile lies below the threshold;
/// beyond, the quota at the bottom of the order.
pub open spec fn is_underperformer(n: int, i: int, threshold: int) -> bool {
    if n <= 4 {
        percentile_for(n, i) < threshold
    } else {
        i >= n - underperformer_quota(n, threshold)
    }
}

pub open spec fn with_rank(d: StrategyData, n: int, i: int, threshold: u8) -> StrategyData {
    StrategyData { percentile_rank: percentile_for(n, i) as u8, rebalance_threshold: threshold, ..d }
}

/// The strategies in rank order, each with its percentile and the threshold.
pub open spec fn ranked(s: Seq<StrategyData>, threshold: u8) -> Seq<StrategyData> {
    let t = sort_by_rank(s);
    Seq::new(t.len(), |i: int| with_rank(t[i], t.len() as int, i, threshold))
}

/// Identifiers of the underperformers among the first `k` entries of the
/// ranked sequence `r`, in rank order.
pub open spec fn underperformers_upto(r: Seq<StrategyData>, threshold: u8, k: int) -> Seq<Address>
    decreases k,
{
    if k <= 0 {
        Seq::empty()
    } else {
        let prev = underperformers_upto(r, threshold, k - 1);
        if is_underperformer(r.len() as int, k - 1, threshold as int) {
            prev.push(r[k - 1].strategy_id)
        } else {
            prev
        }
    }
}

pub open spec fn underperformers_of(r: Seq<StrategyData>, threshold: u8) -> Seq<Address> {
    underperformers_upto(r, threshold, r.len() as int)
}

proof fn lemma_insert_position_bounds(s: Seq<StrategyData>, x: StrategyData, i: int)
    requires
        0 <= i <= s.len(),
    ensures
        i <= insert_position_from(s, x, i) <= s.len(),
        forall|k: int| i <= k < insert_position_from(s, x, i) ==> !ranks_above(x, #[trigger] s[k]),
        insert_position_from(s, x, i) < s.len() ==> ranks_above(x, s[insert_position_from(s, x, i)]),
    decreases s.len() - i,
{
    if i < s.len() && !ranks_above(x, s[i]) {
        lemma_insert_position_bounds(s, x, i + 1);
    }
}

pub proof fn lemma_sort_len(s: Seq<StrategyData>)
    ensures
        sort_by_rank(s).len() == s.len(),
    decreases s.len(),
{
    if s.len() > 0 {
        let t = sort_by_rank(s.drop_last());
        lemma_sort_len(s.drop_last());
        lemma_insert_position_bounds(t, s.last(), 0);
    }
}

fn find_insert_position(sorted: &Vec<StrategyData>, x: &StrategyData) -> (p: usize)
    ensures
        p == insert_position(sorted@, *x),
{
    let mut i: usize = 0;
    while i < sorted.len()
        invariant
            0 <= i <= sorted.len(),
            insert_position_from(sorted@, *x, 0) == insert_position_from(sorted@, *x, i as int),
        decreases sorted.len() - i,
    {
        let e = &sorted[i];
        let above = x.performance_score > e.performance_score || (x.performance_score
            == e.performance_score && x.current_balance > e.current_balance) || (
        x.performance_score == e.performance_score && x.current_balance == e.current_balance
            && x.volatility_score < e.volatility_score);
        if above {
            return i;
        }
        i = i + 1;
    }
    i
}

/// A stable sort, best first, by score, then balance, then lower volatility.
fn sort_strategies(v: &Vec<StrategyData>) -> (r: Vec<StrategyData>)
    ensures
        r@ == sort_by_rank(v@),
{
    let mut out: Vec<StrategyData> = Vec::new();
    let mut i: usize = 0;
    assert(v@.subrange(0, 0) =~= Seq::<StrategyData>::empty());
    while i < v.len()
        invariant
            0 <= i <= v.len(),
            out@ == sort_by_rank(v@.subrange(0, i as int)),
        decreases v.len() - i,
    {
        let x = v[i];
        let p = find_insert_position(&out, &x);
        proof {
            lemma_insert_position_bounds(out@, x, 0);
            assert(v@.subrange(0, i + 1).drop_last() =~= v@.subrange(0, i as int));
        }
        out.insert(p, x);
        i = i + 1;
    }
    assert(v@.subrange(0, i as int) =~= v@);
    out
}

/// Puts the strategies in rank order, best first, gives each its percentile
/// and the threshold, and returns the underperformers' identifiers in rank
/// order.
pub fn assign_percentile_ranks(strategies: &mut Vec<StrategyData>, threshold: u8) -> (r: Vec<Address>)
    requires
        threshold <= 100,
    ensures
        final(strategies)@ == ranked(old(strategies)@, threshold),
        r@ == underperformers_of(final(strategies)@, threshold),
{
    let sorted = sort_strategies(strategies);
    proof {
        lemma_sort_len(old(strategies)@);
    }
    let total: usize = sorted.len();
    let mut out: Vec<StrategyData> = Vec::new();
    let mut underperformers: Vec<Address> = Vec::new();
    let ghost target = ranked(old(strategies)@, threshold);
    proof {
        assert(total * threshold <= total * 100) by (nonlinear_arith)
            requires
                threshold <= 100,
        ;
        assert(total * threshold / 100 <= total) by (nonlinear_arith)
            requires
                threshold <= 100,
        ;
    }
    let quota: usize = if total > 4 {
        let q = (total as u128 * threshold as u128 / 100) as usize;
        if q < 1 {
            1
        } else {
            q
        }
    } else {
        0
    };
    let mut index: usize = 0;
    while index < total
        invariant
            0 <= index <= total,
            total == sorted@.len(),
            target.len() == total,
            sorted@ == sort_by_rank(old(strategies)@),
            target == ranked(old(strategies)@, threshold),
            total > 4 ==> quota == underperformer_quota(total as int, threshold as int),
            total > 4 ==> quota <= total,
            out@ == target.subrange(0, index as int),
            underperformers@ == underperformers_upto(target, threshold, index as int),
        decreases total - index,
    {
        let rank: u8 = if total == 1 {
            50
        } else {
            let from_bottom: usize = total - 1 - index;
            proof {
                assert(from_bottom * 100 / (total - 1) <= 100) by (nonlinear_arith)
                    requires
                        from_bottom <= total - 1,
                        total > 1,
                ;
            }
            (from_bottom as u128 * 100 / (total - 1) as u128) as u8
        };
        let d = sorted[index];
        let entry = StrategyData { percentile_rank: rank, rebalance_threshold: threshold, ..d };
        let is_under = if total <= 4 {
            rank < threshold
        } else {
            index >= total - quota
        };
        if is_under {
            underperformers.push(entry.strategy_id);
        }
        out.push(entry);
        proof {
            assert(out@ =~= target.subrange(0, index + 1));
        }
        index = index + 1;
    }
    proof {
        assert(out@ =~= target);
    }
    *strategies = out;
    underperformers
}

/// Ranks the strategies under the threshold that their own volatility gives,
/// and returns the underperformers' identifiers in rank order. On failure the
/// strategies are left as they were.
pub fn calculate_percentile_rankings(strategies: &mut Vec<StrategyData>) -> (r: Result<
    Vec<Address>,
    RebalancerError,
>)
    ensures
        match dynamic_threshold_spec(old(strategies)@) {
            Ok(t) => {
                &&& r is Ok
                &&& final(strategies)@ == ranked(old(strategies)@, t)
                &&& r->Ok_0@ == underperformers_of(final(strategies)@, t)
            },
            Err(e) => {
                &&& r == Err::<Vec<Address>, RebalancerError>(e)
                &&& final(strategies)@ == old(strategies)@
            },
        },
{
    if strategies.len() == 0 {
        return Err(RebalancerError::InsufficientStrategies);
    }
    let dynamic_threshold = match calculate_dynamic_threshold(strategies) {
        Ok(t) => t,
        Err(e) => {
            return Err(e);
        },
    };
    Ok(assign_percentile_ranks(strategies, dynamic_threshold))
}

/// Smallest balance (0.05 unit) worth extracting capital from.
pub const MIN_REBALANCE_BALANCE: u64 = 50_000_000;

/// Placeholder threshold carried by freshly collected ranking data.
pub const INITIAL_THRESHOLD: u8 = 25;

/// Active, holding at least the minimum balance, and ranked below the
/// threshold.
pub open spec fn is_rebalance_candidate(s: Strategy, threshold: u8) -> bool {
    &&& s.status == StrategyStatus::Active
    &&& s.current_balance >= MIN_REBALANCE_BALANCE
    &&& s.percentile_rank < threshold
}

pub fn should_rebalance_strategy(strategy: &Strategy, portfolio_threshold: u8) -> (r: bool)
    ensures
        r == is_rebalance_candidate(*strategy, portfolio_threshold),
{
    if strategy.status != StrategyStatus::Active {
        return false;
    }
    if strategy.current_balance < MIN_REBALANCE_BALANCE {
        return false;
    }
    strategy.percentile_rank < portfolio_threshold
}

impl StrategyData {
    pub open spec fn from_strategy_spec(strategy: Strategy, rebalance_threshold: u8) -> StrategyData {
        StrategyData {
            strategy_id: strategy.strategy_id,
            performance_score: strategy.performance_score,
            current_balance: strategy.current_balance,
            volatility_score: strategy.volatility_score,
            percentile_rank: strategy.percentile_rank,
            rebalance_threshold,
        }
    }

    pub fn from_strategy(strategy: &Strategy, rebalance_threshold: u8) -> (r: StrategyData)
        ensures
            r == StrategyData::from_strategy_spec(*strategy, rebalance_threshold),
    {
        StrategyData {
            strategy_id: strategy.strategy_id,
            performance_score: strategy.performance_score,
            current_balance: strategy.current_balance,
            volatility_score: strategy.volatility_score,
            percentile_rank: strategy.percentile_rank,
            rebalance_threshold,
        }
    }
}

/// Ranking data of the active strategies, in their order.
pub open spec fn active_data(s: Seq<Strategy>) -> Seq<StrategyData>
    decreases s.len(),
{
    if s.len() == 0 {
        Seq::empty()
    } else {
        let prev = active_data(s.drop_last());
        if s.last().status == StrategyStatus::Active {
            prev.push(StrategyData::from_strategy_spec(s.last(), INITIAL_THRESHOLD))
        } else {
            prev
        }
    }
}

/// Index of the first entry at or after `k` with identifier `id`; the length
/// if there is none.
pub open spec fn first_with_id(r: Seq<StrategyData>, id: Seq<u8>, k: int) -> int
    decreases r.len() - k,
{
    if k >= r.len() {
        r.len() as int
    } else if r[k].strategy_id@ == id {
        k
    } else {
        first_with_id(r, id, k + 1)
    }
}

/// A strategy after a ranking pass: an active one takes the percentile of
/// the first ranked entry with its identifier, and the time of the pass.
pub open spec fn after_ranking(s: Strategy, r: Seq<StrategyData>, now: i64) -> Strategy {
    let k = first_with_id(r, s.strategy_id@, 0);
    if s.status == StrategyStatus::Active && k < r.len() {
        Strategy { percentile_rank: r[k].percentile_rank, last_updated: now, ..s }
    } else {
        s
    }
}

pub open spec fn all_after_ranking(s: Seq<Strategy>, r: Seq<StrategyData>, now: i64) -> Seq<Strategy> {
    Seq::new(s.len(), |i: int| after_ranking(s[i], r, now))
}

/// Identifiers of the rebalance candidates among the first `k` strategies.
pub open spec fn candidates_upto(s: Seq<Strategy>, threshold: u8, k: int) -> Seq<Address>
    decreases k,
{
    if k <= 0 {
        Seq::empty()
    } else {
        let prev = candidates_upto(s, threshold, k - 1);
        if is_rebalance_candidate(s[k - 1], threshold) {
            prev.push(s[k - 1].strategy_id)
        } else {
            prev
        }
    }
}

pub open spec fn candidates_of(s: Seq<Strategy>, threshold: u8) -> Seq<Address> {
    candidates_upto(s, threshold, s.len() as int)
}

/// What a ranking pass over full snapshots promises, given the threshold
/// the active strategies yield.
pub open spec fn ranking_pass_outcome(
    old_s: Seq<Strategy>,
    new_s: Seq<Strategy>,
    r: Result<RankingResults, RebalancerError>,
    now: i64,
) -> bool {
    let data = active_data(old_s);
    match dynamic_threshold_spec(data) {
        Ok(t) => {
            let ranked_data = ranked(data, t);
            &&& r is Ok
            &&& new_s == all_after_ranking(old_s, ranked_data, now)
            &&& r->Ok_0.total_strategies == old_s.len() as u32
            &&& r->Ok_0.active_strategies == data.len() as u32
            &&& r->Ok_0.underperformers@ == underperformers_of(ranked_data, t)
            &&& r->Ok_0.rebalancing_candidates@ == candidates_of(new_s, t)
            &&& r->Ok_0.ranking_timestamp == now
        },
        Err(e) => {
            &&& r is Err
            &&& r->Err_0 == e
            &&& new_s == old_s
        },
    }
}

fn collect_active(strategies: &Vec<Strategy>) -> (r: Vec<StrategyData>)
    ensures
        r@ == active_data(strategies@),
{
    let mut out: Vec<StrategyData> = Vec::new();
    let mut i: usize = 0;
    assert(strategies@.subrange(0, 0) =~= Seq::<Strategy>::empty());
    while i < strategies.len()
        invariant
            0 <= i <= strategies.len(),
            out@ == active_data(strategies@.subrange(0, i as int)),
        decreases strategies.len() - i,
    {
        proof {
            assert(strategies@.subrange(0, i + 1).drop_last() =~= strategies@.subrange(0, i as int));
        }
        if strategies[i].status == StrategyStatus::Active {
            out.push(StrategyData::from_strategy(&strategies[i], INITIAL_THRESHOLD));
        }
        i = i + 1;
    }
    assert(strategies@.subrange(0, i as int) =~= strategies@);
    out
}

fn find_by_id(r: &Vec<StrategyData>, id: &Address) -> (k: usize)
    ensures
        k == first_with_id(r@, id@, 0),
{
    let mut k: usize = 0;
    while k < r.len()
        invariant
            0 <= k <= r.len(),
            first_with_id(r@, id@, 0) == first_with_id(r@, id@, k as int),
        decreases r.len() - k,
    {
        if r[k].strategy_id.same_as(id) {
            return k;
        }
        k = k + 1;
    }
    k
}

fn collect_candidates(strategies: &Vec<Strategy>, threshold: u8) -> (r: Vec<Address>)
    ensures
        r@ == candidates_of(strategies@, threshold),
{
    let mut out: Vec<Address> = Vec::new();
    let mut i: usize = 0;
    while i < strategies.len()
        invariant
            0 <= i <= strategies.len(),
            out@ == candidates_upto(strategies@, threshold, i as int),
        decreases strategies.len() - i,
    {
        if should_rebalance_strategy(&strategies[i], threshold) {
            out.push(strategies[i].strategy_id);
        }
        i = i + 1;
    }
    out
}

/// Ranks `data`, the active strategies of `strategies`, and writes the new
/// percentiles back.
fn rank_and_update(strategies: &mut Vec<Strategy>, data: Vec<StrategyData>, current_time: i64) -> (r:
    Result<RankingResults, RebalancerError>)
    requires
        data@ == active_data(old(strategies)@),
    ensures
        ranking_pass_outcome(old(strategies)@, final(strategies)@, r, current_time),
{
    let mut data = data;
    let underperformers = match calculate_percentile_rankings(&mut data) {
        Ok(u) => u,
        Err(e) => {
            return Err(e);
        },
    };
    let ghost t = dynamic_threshold_spec(active_data(old(strategies)@))->Ok_0;
    proof {
        lemma_sort_len(active_data(old(strategies)@));
    }
    let dynamic_threshold = data[0].rebalance_threshold;
    let ghost ranked_data = data@;
    let n = strategies.len();
    let mut updated: Vec<Strategy> = Vec::new();
    let mut i: usize = 0;
    while i < n
        invariant
            0 <= i <= n,
            n == old(strategies)@.len(),
            strategies@ == old(strategies)@,
            data@ == ranked_data,
            updated@ == all_after_ranking(old(strategies)@, ranked_data, current_time).subrange(
                0,
                i as int,
            ),
        decreases n - i,
    {
        let s = strategies[i];
        let mut u = s;
        if s.status == StrategyStatus::Active {
            let k = find_by_id(&data, &s.strategy_id);
            if k < data.len() {
                u = Strategy { percentile_rank: data[k].percentile_rank, last_updated: current_time, ..s };
            }
        }
        updated.push(u);
        proof {
            assert(updated@ =~= all_after_ranking(old(strategies)@, ranked_data, current_time).subrange(
                0,
                i + 1,
            ));
        }
        i = i + 1;
    }
    proof {
        assert(updated@ =~= all_after_ranking(old(strategies)@, ranked_data, current_time));
    }
    *strategies = updated;
    let rebalancing_candidates = collect_candidates(strategies, dynamic_threshold);
    let active_count = data.len();
    Ok(
        RankingResults {
            total_strategies: n as u32,
            active_strategies: active_count as u32,
            underperformers,
            rebalancing_candidates,
            ranking_timestamp: current_time,
        },
    )
}

/// Ranks the active strategies among `strategies` (at least two in all),
/// writes their new percentiles and the time of the pass back, and reports
/// the underperformers and the rebalance candidates.
pub fn process_all_strategies_with_ranking(
    _portfolio_key: &Address,
    _program_id: &Address,
    strategies: &mut Vec<Strategy>,
    current_time: i64,
) -> (r: Result<RankingResults, RebalancerError>)
    ensures
        old(strategies)@.len() < 2 ==> r == Err::<RankingResults, RebalancerError>(
            RebalancerError::InsufficientStrategies,
        ) && final(strategies)@ == old(strategies)@,
        old(strategies)@.len() >= 2 ==> ranking_pass_outcome(
            old(strategies)@,
            final(strategies)@,
            r,
            current_time,
        ),
{
    if strategies.len() < 2 {
        return Err(RebalancerError::InsufficientStrategies);
    }
    let data = collect_active(strategies);
    rank_and_update(strategies, data, current_time)
}

/// Like `process_all_strategies_with_ranking`, for one batch of strategies,
/// of which at least two must be active.
pub fn execute_batch_ranking(strategies: &mut Vec<Strategy>, current_time: i64) -> (r: Result<
    RankingResults,
    RebalancerError,
>)
    ensures
        active_data(old(strategies)@).len() < 2 ==> r == Err::<RankingResults, RebalancerError>(
            RebalancerError::InsufficientStrategies,
        ) && final(strategies)@ == old(strategies)@,
        active_data(old(strategies)@).len() >= 2 ==> ranking_pass_outcome(
            old(strategies)@,
            final(strategies)@,
            r,
            current_time,
        ),
{
    let data = collect_active(strategies);
    if data.len() < 2 {
        return Err(RebalancerError::InsufficientStrategies);
    }
    rank_and_update(strategies, data, current_time)
}

/// Opens a ranking cycle: the portfolio must not be paused, its interval
/// must have elapsed and it must hold at least two strategies; the cycle's
/// time becomes the last rebalance.
pub fn execute_ranking_cycle(portfolio: &mut Portfolio, current_time: i64) -> (r: Result<
    (),
    RebalancerError,
>)
    ensures
        old(portfolio).emergency_pause ==> r == Err::<(), RebalancerError>(
            RebalancerError::EmergencyPauseActive,
        ),
        !old(portfolio).emergency_pause && !old(portfolio).can_rebalance_spec(current_time) ==> r
            == Err::<(), RebalancerError>(RebalancerError::RebalanceIntervalNotMet),
        old(portfolio).can_rebalance_spec(current_time) && old(portfolio).total_strategies < 2
            ==> r == Err::<(), RebalancerError>(RebalancerError::InsufficientStrategies),
        r is Ok <==> old(portfolio).can_rebalance_spec(current_time)
            && old(portfolio).total_strategies >= 2,
        r is Ok ==> *final(portfolio) == (Portfolio { last_rebalance: current_time, ..*old(portfolio) }),
        r is Err ==> *final(portfolio) == *old(portfolio),
{
    if portfolio.emergency_pause {
        return Err(RebalancerError::EmergencyPauseActive);
    }
    if !portfolio.can_rebalance(current_time) {
        return Err(RebalancerError::RebalanceIntervalNotMet);
    }
    if portfolio.total_strategies < 2 {
        return Err(RebalancerError::InsufficientStrategies);
    }
    portfolio.last_rebalance = current_time;
    Ok(())
}

/// The dynamic threshold never falls as the average volatility rises, and
/// always lies within `[10, 40]`.
pub proof fn lemma_threshold_monotone(avg1: int, avg2: int)
    requires
        0 <= avg1 <= avg2,
    ensures
        threshold_for_volatility(avg1) <= threshold_for_volatility(avg2),
        MIN_THRESHOLD <= threshold_for_volatility(avg1) <= MAX_THRESHOLD,
        MIN_THRESHOLD <= threshold_for_volatility(avg2) <= MAX_THRESHOLD,
{
    assert(avg1 * 20 <= avg2 * 20);
    vstd::arithmetic::div_mod::lemma_div_is_ordered(avg1 * 20, avg2 * 20, 100);
}

/// Inserting `x` where `insert_position` puts it keeps a rank-ordered
/// sequence rank-ordered.
proof fn lemma_insert_keeps_order(t: Seq<StrategyData>, x: StrategyData)
    requires
        is_rank_ordered(t),
    ensures
        is_rank_ordered(t.insert(insert_position(t, x), x)),
{
    let p = insert_position(t, x);
    lemma_insert_position_bounds(t, x, 0);
    let u = t.insert(p, x);
    assert forall|i: int, j: int| 0 <= i < j < u.len() implies !ranks_above(
        #[trigger] u[j],
        #[trigger] u[i],
    ) by {
        if j < p {
            assert(u[i] == t[i] && u[j] == t[j]);
        } else if j == p {
            assert(u[i] == t[i]);
        } else if i < p {
            assert(u[i] == t[i] && u[j] == t[j - 1]);
        } else if i == p {
            assert(u[j] == t[j - 1]);
            if j - 1 > p {
                assert(!ranks_above(t[j - 1], t[p]));
            }
        } else {
            assert(u[i] == t[i - 1] && u[j] == t[j - 1]);
        }
    }
}

proof fn lemma_sort_ordered(s: Seq<StrategyData>)
    ensures
        is_rank_ordered(sort_by_rank(s)),
    decreases s.len(),
{
    if s.len() > 0 {
        lemma_sort_ordered(s.drop_last());
        lemma_insert_keeps_order(sort_by_rank(s.drop_last()), s.last());
    }
}

/// Ranking is a total order, best first: along the ranked sequence no
/// strategy ranks strictly above an earlier one. Of two strategies with equal
/// scores the one with the higher balance comes first, and with equal
/// balances too the one with the lower volatility; percentiles never rise
/// down the order.
pub proof fn lemma_ranking_total_order(s: Seq<StrategyData>, threshold: u8)
    ensures
        ranked(s, threshold).len() == s.len(),
        is_rank_ordered(ranked(s, threshold)),
        forall|i: int, j: int|
            0 <= i < j < s.len() ==> {
                let a = #[trigger] ranked(s, threshold)[i];
                let b = #[trigger] ranked(s, threshold)[j];
                &&& a.performance_score >= b.performance_score
                &&& a.performance_score == b.performance_score ==> a.current_balance
                    >= b.current_balance
                &&& a.performance_score == b.performance_score && a.current_balance
                    == b.current_balance ==> a.volatility_score <= b.volatility_score
                &&& a.percentile_rank >= b.percentile_rank
            },
{
    lemma_sort_len(s);
    lemma_sort_ordered(s);
    let r = ranked(s, threshold);
    let t = sort_by_rank(s);
    let n = s.len() as int;
    assert forall|i: int, j: int| 0 <= i < j < r.len() implies !ranks_above(
        #[trigger] r[j],
        #[trigger] r[i],
    ) by {
        assert(!ranks_above(t[j], t[i]));
    }
    assert forall|i: int, j: int| 0 <= i < j < s.len() implies (#[trigger] r[i]).percentile_rank
        >= (#[trigger] r[j]).percentile_rank by {
        assert(!ranks_above(r[j], r[i]));
        if n > 1 {
            assert((n - 1 - j) * 100 <= (n - 1 - i) * 100);
            vstd::arithmetic::div_mod::lemma_div_is_ordered(
                (n - 1 - j) * 100,
                (n - 1 - i) * 100,
                n - 1,
            );
            assert((n - 1 - i) * 100 / (n - 1) <= 100) by (nonlinear_arith)
                requires
                    0 <= n - 1 - i <= n - 1,
                    n > 1,
            ;
            assert((n - 1 - j) * 100 / (n - 1) >= 0) by (nonlinear_arith)
                requires
                    0 <= n - 1 - j,
                    n > 1,
            ;
        }
    }
}

/// A lone strategy always ranks at the median (50) and, since the dynamic
/// threshold never exceeds 40, is never an underperformer.
pub proof fn lemma_single_strategy_median(s: Seq<StrategyData>)
    requires
        s.len() == 1,
    ensures
        dynamic_threshold_spec(s) is Ok,
        ranked(s, dynamic_threshold_spec(s)->Ok_0).len() == 1,
        ranked(s, dynamic_threshold_spec(s)->Ok_0)[0].percentile_rank == 50,
        underperformers_of(
            ranked(s, dynamic_threshold_spec(s)->Ok_0),
            dynamic_threshold_spec(s)->Ok_0,
        ).len() == 0,
{
    lemma_volatility_sum_bound(s);
    lemma_sort_len(s);
    let t = dynamic_threshold_spec(s)->Ok_0;
    let r = ranked(s, t);
    assert(underperformers_upto(r, t, 0).len() == 0);
    assert(!is_underperformer(1, 0, t as int));
}

/// With every entry after index `i` not ranked below `x`, `x` goes last.
proof fn lemma_insert_position_last(s: Seq<StrategyData>, x: StrategyData, i: int)
    requires
        0 <= i <= s.len(),
        forall|k: int| i <= k < s.len() ==> !ranks_above(x, #[trigger] s[k]),
    ensures
        insert_position_from(s, x, i) == s.len(),
    decreases s.len() - i,
{
    if i < s.len() {
        lemma_insert_position_last(s, x, i + 1);
    }
}

/// Sorting a sequence already in rank order leaves it as it is.
proof fn lemma_sort_of_ordered(q: Seq<StrategyData>)
    requires
        is_rank_ordered(q),
    ensures
        sort_by_rank(q) == q,
    decreases q.len(),
{
    if q.len() > 0 {
        let d = q.drop_last();
        assert(is_rank_ordered(d)) by {
            assert forall|i: int, j: int| 0 <= i < j < d.len() implies !ranks_above(
                #[trigger] d[j],
                #[trigger] d[i],
            ) by {
                assert(d[i] == q[i] && d[j] == q[j]);
            }
        }
        lemma_sort_of_ordered(d);
        assert forall|k: int| 0 <= k < d.len() implies !ranks_above(q.last(), #[trigger] d[k]) by {
            assert(d[k] == q[k]);
        }
        lemma_insert_position_last(d, q.last(), 0);
        assert(d.insert(d.len() as int, q.last()) =~= q);
    }
}

/// Ranking is repeatable: the outcome depends on the snapshot and the
/// threshold alone, and ranking an already ranked snapshot again under the
/// same threshold yields the very same strategies and underperformers.
pub proof fn lemma_ranking_idempotent(s: Seq<StrategyData>, threshold: u8)
    ensures
        ranked(ranked(s, threshold), threshold) == ranked(s, threshold),
        underperformers_of(ranked(ranked(s, threshold), threshold), threshold)
            == underperformers_of(ranked(s, threshold), threshold),
{
    let r = ranked(s, threshold);
    lemma_ranking_total_order(s, threshold);
    lemma_sort_of_ordered(r);
    assert(ranked(r, threshold) =~= r);
}

/// Ranking only reorders: the strategies in rank order are exactly the
/// strategies given, each as often as it was given.
pub proof fn lemma_ranking_permutes(s: Seq<StrategyData>)
    ensures
        sort_by_rank(s).to_multiset() == s.to_multiset(),
    decreases s.len(),
{
    if s.len() > 0 {
        let d = s.drop_last();
        let t = sort_by_rank(d);
        lemma_ranking_permutes(d);
        lemma_sort_len(d);
        lemma_insert_position_bounds(t, s.last(), 0);
        vstd::seq_lib::to_multiset_insert(t, insert_position(t, s.last()), s.last());
        d.to_multiset_ensures();
        assert(d.push(s.last()) =~= s);
        assert(sort_by_rank(s).to_multiset() == t.to_multiset().insert(s.last()));
        assert(d.push(s.last()).to_multiset() =~= d.to_multiset().insert(s.last()));
    } else {
        assert(s =~= Seq::<StrategyData>::empty());
    }
}

proof fn lemma_volatility_sum_insert(t: Seq<StrategyData>, p: int, x: StrategyData)
    requires
        0 <= p <= t.len(),
    ensures
        volatility_percent_sum(t.insert(p, x)) == volatility_percent_sum(t) + x.volatility_score
            / 100,
    decreases t.len(),
{
    let u = t.insert(p, x);
    if p == t.len() {
        assert(u.drop_last() =~= t);
    } else {
        assert(u.drop_last() =~= t.drop_last().insert(p, x));
        lemma_volatility_sum_insert(t.drop_last(), p, x);
    }
}

proof fn lemma_volatility_sum_sorted(s: Seq<StrategyData>)
    ensures
        volatility_percent_sum(sort_by_rank(s)) == volatility_percent_sum(s),
    decreases s.len(),
{
    if s.len() > 0 {
        let d = s.drop_last();
        let t = sort_by_rank(d);
        lemma_volatility_sum_sorted(d);
        lemma_sort_len(d);
        lemma_insert_position_bounds(t, s.last(), 0);
        lemma_volatility_sum_insert(t, insert_position(t, s.last()), s.last());
    }
}

/// Two sequences with the same volatilities, entry by entry, have the same
/// volatility sum.
proof fn lemma_volatility_sum_same_volatilities(a: Seq<StrategyData>, b: Seq<StrategyData>)
    requires
        a.len() == b.len(),
        forall|i: int| 0 <= i < a.len() ==> (#[trigger] a[i]).volatility_score == b[i].volatility_score,
    ensures
        volatility_percent_sum(a) == volatility_percent_sum(b),
    decreases a.len(),
{
    if a.len() > 0 {
        let (da, db) = (a.drop_last(), b.drop_last());
        assert forall|i: int| 0 <= i < da.len() implies (#[trigger] da[i]).volatility_score
            == db[i].volatility_score by {
            assert(da[i] == a[i] && db[i] == b[i]);
        }
        lemma_volatility_sum_same_volatilities(da, db);
    }
}

/// Ranking a snapshot twice with `calculate_percentile_rankings` gives the
/// same outcome both times: the reordered snapshot yields the same dynamic
/// threshold, and ranking it again changes neither the strategies nor the
/// underperformers.
pub proof fn lemma_percentile_rankings_idempotent(s: Seq<StrategyData>)
    requires
        dynamic_threshold_spec(s) is Ok,
    ensures
        dynamic_threshold_spec(ranked(s, dynamic_threshold_spec(s)->Ok_0)) == dynamic_threshold_spec(
            s,
        ),
        ranked(ranked(s, dynamic_threshold_spec(s)->Ok_0), dynamic_threshold_spec(s)->Ok_0)
            == ranked(s, dynamic_threshold_spec(s)->Ok_0),
        underperformers_of(
            ranked(ranked(s, dynamic_threshold_spec(s)->Ok_0), dynamic_threshold_spec(s)->Ok_0),
            dynamic_threshold_spec(s)->Ok_0,
        ) == underperformers_of(
            ranked(s, dynamic_threshold_spec(s)->Ok_0),
            dynamic_threshold_spec(s)->Ok_0,
        ),
{
    let t = dynamic_threshold_spec(s)->Ok_0;
    let r = ranked(s, t);
    lemma_sort_len(s);
    lemma_volatility_sum_sorted(s);
    lemma_volatility_sum_same_volatilities(r, sort_by_rank(s));
    lemma_ranking_idempotent(s, t);
}

/// For any non-empty snapshot of at most a billion strategies the dynamic
/// threshold is defined, and it lies within `[15, 35]` (inside `[10, 40]`),
/// since the average volatility never exceeds 100%.
pub proof fn lemma_threshold_defined(s: Seq<StrategyData>)
    requires
        0 < s.len() <= 1_000_000_000,
    ensures
        dynamic_threshold_spec(s) is Ok,
        15 <= dynamic_threshold_spec(s)->Ok_0 <= 35,
{
    lemma_volatility_sum_bound(s);
    assert(s.len() * (u32::MAX / 100) <= 1_000_000_000 * (u32::MAX / 100)) by (nonlinear_arith)
        requires
            s.len() <= 1_000_000_000,
    ;
    let avg = average_volatility_spec(s)->Ok_0;
    assert(0 <= avg <= 100);
    assert(avg * 20 / 100 <= 20) by (nonlinear_arith)
        requires
            0 <= avg <= 100,
    ;
    assert(avg * 20 / 100 >= 0) by (nonlinear_arith)
        requires
            0 <= avg,
    ;
}

/// In the ranked sequence a strategy that ranks strictly above another sits
/// at a lower index, with a percentile at least as high, and strictly higher
/// when there are at most 101 strategies.
pub proof fn lemma_rank_order_strict(s: Seq<StrategyData>, threshold: u8)
    ensures
        forall|i: int, j: int|
            0 <= i < s.len() && 0 <= j < s.len() && ranks_above(
                #[trigger] ranked(s, threshold)[i],
                #[trigger] ranked(s, threshold)[j],
            ) ==> {
                &&& i < j
                &&& ranked(s, threshold)[i].percentile_rank >= ranked(
                    s,
                    threshold,
                )[j].percentile_rank
                &&& s.len() <= 101 ==> ranked(s, threshold)[i].percentile_rank > ranked(
                    s,
                    threshold,
                )[j].percentile_rank
            },
{
    lemma_ranking_total_order(s, threshold);
    let r = ranked(s, threshold);
    let n = s.len() as int;
    assert forall|i: int, j: int|
        0 <= i < n && 0 <= j < n && ranks_above(#[trigger] r[i], #[trigger] r[j]) implies {
        &&& i < j
        &&& r[i].percentile_rank >= r[j].percentile_rank
        &&& n <= 101 ==> r[i].percentile_rank > r[j].percentile_rank
    } by {
        if j < i {
            assert(!ranks_above(r[i], r[j]));
        }
        assert(i != j);
        if n <= 101 && i < j {
            let d = n - 1;
            let a = (n - 1 - i) * 100;
            let b = (n - 1 - j) * 100;
            assert(b + d <= a);
            vstd::arithmetic::div_mod::lemma_div_is_ordered(d + b, a, d);
            vstd::arithmetic::div_mod::lemma_div_plus_one(b, d);
            assert(a / d <= 100) by (nonlinear_arith)
                requires
                    0 <= a <= d * 100,
                    d > 0,
            ;
            assert(b / d >= 0) by (nonlinear_arith)
                requires
                    0 <= b,
                    d > 0,
            ;
        }
    }
}

} // verus!
