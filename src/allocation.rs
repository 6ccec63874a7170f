use vstd::prelude::*;

use crate::errors::RebalancerError;
use crate::state::{zero_address, Address, Portfolio, ProtocolType, BALANCE_LIMIT};

verus! {

/// Why a share of capital goes where it goes.
#[derive(Clone, Copy, Debug, PartialEq, Eq, Structural)]
pub enum AllocationType {
    TopPerformer,
    RiskDiversification,
    PlatformFee,
    ManagerIncentive,
}

/// One (target, amount, purpose) record of an allocation batch.
#[derive(Clone, Copy, Debug)]
pub struct CapitalAllocation {
    pub strategy_id: Address,
    pub amount: u64,
    pub allocation_type: AllocationType,
}

/// What the allocation needs to know of one candidate strategy.
#[derive(Clone, Copy, Debug)]
pub struct StrategyPerformanceData {
    pub strategy_id: Address,
    pub performance_score: u64,
    pub current_balance: u64,
    pub volatility_score: u32,
    pub protocol_type: ProtocolType,
    pub percentile_rank: u8,
}

/// Risk and fee bounds for one allocation, in basis points, with the two fee
/// destinations.
#[derive(Clone, Copy, Debug)]
pub struct RiskLimits {
    pub max_single_strategy_bps: u64,
    pub min_single_strategy_bps: u64,
    pub platform_fee_bps: u64,
    pub manager_fee_bps: u64,
    pub risk_tolerance_bps: u64,
    pub platform_treasury: Address,
    pub manager_treasury: Address,
}

/// 40% at most and 1% at least per strategy, 0.5% platform fee, 1.5%
/// manager fee, 80% risk tolerance, fees sent to the zero address.
pub open spec fn default_risk_limits() -> RiskLimits {
    RiskLimits {
        max_single_strategy_bps: 4000,
        min_single_strategy_bps: 100,
        platform_fee_bps: 50,
        manager_fee_bps: 150,
        risk_tolerance_bps: 8000,
        platform_treasury: zero_address(),
        manager_treasury: zero_address(),
    }
}

impl Default for RiskLimits {
    fn default() -> (r: RiskLimits)
        ensures
            r == default_risk_limits(),
    {
        RiskLimits {
            max_single_strategy_bps: 4000,
            min_single_strategy_bps: 100,
            platform_fee_bps: 50,
            manager_fee_bps: 150,
            risk_tolerance_bps: 8000,
            platform_treasury: Address::zero(),
            manager_treasury: Address::zero(),
        }
    }
}

/// Tallies of a processed allocation batch.
#[derive(Clone, Copy, Debug)]
pub struct AllocationResult {
    pub total_allocated: u64,
    pub strategies_updated: u32,
    pub total_strategy_allocation: u64,
    pub platform_fees: u64,
    pub manager_fees: u64,
}

impl Default for AllocationResult {
    fn default() -> (r: AllocationResult)
        ensures
            r == (AllocationResult {
                total_allocated: 0,
                strategies_updated: 0,
                total_strategy_allocation: 0,
                platform_fees: 0,
                manager_fees: 0,
            }),
    {
        AllocationResult {
            total_allocated: 0,
            strategies_updated: 0,
            total_strategy_allocation: 0,
            platform_fees: 0,
            manager_fees: 0,
        }
    }
}

/// Basis points in a whole.
pub const BPS_SCALE: u64 = 10000;

/// Bounds of the risk multiplier, in basis points.
pub const MIN_RISK_MULTIPLIER: u32 = 5000;

pub const MAX_RISK_MULTIPLIER: u32 = 15000;

/// Volatility inverted onto `[0, 10000]`.
pub open spec fn inverse_volatility(volatility: u32) -> int {
    if volatility > 10000 {
        0
    } else {
        10000 - volatility
    }
}

/// Risk multiplier in basis points: the inverse volatility rescaled onto
/// `[5000, 15000]`, scaled by the risk tolerance, clamped to that band.
pub open spec fn risk_adjustment(volatility: u32, risk_tolerance_bps: u64) -> int {
    let base = MIN_RISK_MULTIPLIER + inverse_volatility(volatility) * (MAX_RISK_MULTIPLIER
        - MIN_RISK_MULTIPLIER) / 10000;
    let scaled = base * risk_tolerance_bps / 10000;
    if scaled > MAX_RISK_MULTIPLIER {
        MAX_RISK_MULTIPLIER as int
    } else if scaled < MIN_RISK_MULTIPLIER {
        MIN_RISK_MULTIPLIER as int
    } else {
        scaled
    }
}

/// Multiplier (basis points, 5000 to 15000) applied to a candidate's share:
/// calmer strategies receive more.
pub fn calculate_risk_adjustment(volatility_score: u32, risk_limits: &RiskLimits) -> (r: u32)
    ensures
        r == risk_adjustment(volatility_score, risk_limits.risk_tolerance_bps),
        MIN_RISK_MULTIPLIER <= r <= MAX_RISK_MULTIPLIER,
{
    let volatility_percentage: u32 = if volatility_score > 10000 {
        10000
    } else {
        volatility_score
    };
    let inverse_volatility: u32 = 10000 - volatility_percentage;
    let span: u64 = (MAX_RISK_MULTIPLIER - MIN_RISK_MULTIPLIER) as u64;
    proof {
        assert(inverse_volatility * span / 10000 <= 10000 * span / 10000) by (nonlinear_arith)
            requires
                inverse_volatility <= 10000,
                span == 10000,
        ;
    }
    let risk_multiplier: u32 = MIN_RISK_MULTIPLIER + ((inverse_volatility as u64 * span) / 10000)
        as u32;
    proof {
        assert(risk_multiplier * risk_limits.risk_tolerance_bps <= 15000 * u64::MAX) by (
        nonlinear_arith)
            requires
                risk_multiplier <= 15000,
        ;
    }
    let final_multiplier: u128 = risk_multiplier as u128 * risk_limits.risk_tolerance_bps as u128
        / 10000;
    if final_multiplier > MAX_RISK_MULTIPLIER as u128 {
        MAX_RISK_MULTIPLIER
    } else if final_multiplier < MIN_RISK_MULTIPLIER as u128 {
        MIN_RISK_MULTIPLIER
    } else {
        final_multiplier as u32
    }
}

/// Sum of the amounts of a batch.
pub open spec fn sum_amounts(s: Seq<CapitalAllocation>) -> int
    decreases s.len(),
{
    if s.len() == 0 {
        0
    } else {
        sum_amounts(s.drop_last()) + s.last().amount
    }
}

/// Some record of `s` targets `id`.
pub open spec fn has_target(s: Seq<CapitalAllocation>, id: Seq<u8>) -> bool {
    exists|i: int| 0 <= i < s.len() && (#[trigger] s[i]).strategy_id@ == id
}

/// Outcome of checking a batch record by record, in order: the first record
/// that repeats an earlier target, is empty, is too large, or overflows the
/// running total names the error; otherwise the total.
pub open spec fn validate_allocations_spec(s: Seq<CapitalAllocation>) -> Result<u64, RebalancerError>
    decreases s.len(),
{
    if s.len() == 0 {
        Ok(0)
    } else {
        match validate_allocations_spec(s.drop_last()) {
            Err(e) => Err(e),
            Ok(total) => {
                let a = s.last();
                if has_target(s.drop_last(), a.strategy_id@) {
                    Err(RebalancerError::DuplicateStrategy)
                } else if a.amount == 0 {
                    Err(RebalancerError::InsufficientBalance)
                } else if a.amount >= BALANCE_LIMIT {
                    Err(RebalancerError::BalanceOverflow)
                } else if total + a.amount > u64::MAX {
                    Err(RebalancerError::BalanceOverflow)
                } else {
                    Ok((total + a.amount) as u64)
                }
            },
        }
    }
}

fn has_target_before(allocations: &Vec<CapitalAllocation>, upto: usize, id: &Address) -> (r: bool)
    requires
        upto <= allocations@.len(),
    ensures
        r == has_target(allocations@.subrange(0, upto as int), id@),
{
    let ghost prefix = allocations@.subrange(0, upto as int);
    let mut j: usize = 0;
    while j < upto
        invariant
            0 <= j <= upto <= allocations@.len(),
            prefix == allocations@.subrange(0, upto as int),
            forall|k: int| 0 <= k < j ==> (#[trigger] prefix[k]).strategy_id@ != id@,
        decreases upto - j,
    {
        if allocations[j].strategy_id.same_as(id) {
            assert(prefix[j as int].strategy_id@ == id@);
            return true;
        }
        j = j + 1;
    }
    false
}

/// Checks a batch: no target twice, every amount positive and below the
/// balance limit, and a total that fits; returns the total.
pub fn validate_allocations(allocations: &Vec<CapitalAllocation>) -> (r: Result<u64, RebalancerError>)
    ensures
        r == validate_allocations_spec(allocations@),
{
    let mut total: u64 = 0;
    let mut i: usize = 0;
    assert(allocations@.subrange(0, 0) =~= Seq::<CapitalAllocation>::empty());
    while i < allocations.len()
        invariant
            0 <= i <= allocations.len(),
            validate_allocations_spec(allocations@.subrange(0, i as int)) == Ok::<
                u64,
                RebalancerError,
            >(total),
        decreases allocations.len() - i,
    {
        let ghost next = allocations@.subrange(0, i + 1);
        assert(next.drop_last() =~= allocations@.subrange(0, i as int));
        let a = allocations[i];
        if has_target_before(allocations, i, &a.strategy_id) {
            proof {
                lemma_prefix_error_persists(allocations@, i + 1);
            }
            return Err(RebalancerError::DuplicateStrategy);
        }
        if a.amount == 0 {
            proof {
                lemma_prefix_error_persists(allocations@, i + 1);
            }
            return Err(RebalancerError::InsufficientBalance);
        }
        if a.amount >= BALANCE_LIMIT {
            proof {
                lemma_prefix_error_persists(allocations@, i + 1);
            }
            return Err(RebalancerError::BalanceOverflow);
        }
        match total.checked_add(a.amount) {
            Some(t) => {
                total = t;
            },
            None => {
                proof {
                    lemma_prefix_error_persists(allocations@, i + 1);
                }
                return Err(RebalancerError::BalanceOverflow);
            },
        }
        i = i + 1;
    }
    assert(allocations@.subrange(0, i as int) =~= allocations@);
    Ok(total)
}

/// Once a prefix of a batch fails, the whole batch fails the same way.
proof fn lemma_prefix_error_persists(s: Seq<CapitalAllocation>, k: int)
    requires
        0 <= k <= s.len(),
        validate_allocations_spec(s.subrange(0, k)) is Err,
    ensures
        validate_allocations_spec(s) == validate_allocations_spec(s.subrange(0, k)),
    decreases s.len() - k,
{
    if k < s.len() {
        assert(s.subrange(0, k + 1).drop_last() =~= s.subrange(0, k));
        lemma_prefix_error_persists(s, k + 1);
    } else {
        assert(s.subrange(0, k) =~= s);
    }
}

/// Checks one record before it is applied: a positive amount below the
/// balance limit.
pub fn update_strategy_allocation(
    strategy_id: Address,
    allocation_amount: u64,
    allocation_type: AllocationType,
) -> (r: Result<(), RebalancerError>)
    ensures
        allocation_amount == 0 ==> r == Err::<(), RebalancerError>(
            RebalancerError::InsufficientBalance,
        ),
        allocation_amount >= BALANCE_LIMIT ==> r == Err::<(), RebalancerError>(
            RebalancerError::BalanceOverflow,
        ),
        r is Ok <==> 0 < allocation_amount < BALANCE_LIMIT,
{
    if allocation_amount == 0 {
        return Err(RebalancerError::InsufficientBalance);
    }
    if allocation_amount >= BALANCE_LIMIT {
        return Err(RebalancerError::BalanceOverflow);
    }
    Ok(())
}

/// Smallest amount a strategy of each protocol family accepts: 0.1 unit for
/// lending, 0.5 for farming, 1 for staking.
pub open spec fn protocol_floor(p: ProtocolType) -> int {
    match p {
        ProtocolType::StableLending { .. } => 100_000_000,
        ProtocolType::YieldFarming { .. } => 500_000_000,
        ProtocolType::LiquidStaking { .. } => 1_000_000_000,
    }
}

pub fn protocol_minimum(p: &ProtocolType) -> (r: u64)
    ensures
        r == protocol_floor(*p),
{
    match p {
        ProtocolType::StableLending { .. } => 100_000_000,
        ProtocolType::YieldFarming { .. } => 500_000_000,
        ProtocolType::LiquidStaking { .. } => 1_000_000_000,
    }
}

/// Leftover capital above this amount (0.001 unit) is not left behind.
pub const DUST_THRESHOLD: u64 = 1_000_000;

/// `capital * bps / 10000`.
pub open spec fn bps_of(capital: u64, bps: u64) -> int {
    capital * bps / 10000
}

pub open spec fn score_total(s: Seq<StrategyPerformanceData>) -> int
    decreases s.len(),
{
    if s.len() == 0 {
        0
    } else {
        score_total(s.drop_last()) + s.last().performance_score
    }
}

/// The bounds of one allocation run, fixed before the first candidate.
pub struct AllocationBounds {
    pub total_score: int,
    pub max_single: int,
    pub min_single: int,
    pub risk_tolerance_bps: u64,
}

/// State of the run: records so far, capital left, strategies placed.
pub struct AllocationState {
    pub records: Seq<CapitalAllocation>,
    pub remaining: int,
    pub placed: int,
}

/// One candidate's turn. Its share of what remains follows its score, is
/// capped at the maximum, is dropped below the minimum or its protocol's
/// floor, is then scaled by its risk multiplier and capped at what remains.
/// The first three strategies placed are top performers, later ones
/// diversification.
pub open spec fn allocation_step(
    st: AllocationState,
    c: StrategyPerformanceData,
    b: AllocationBounds,
) -> AllocationState {
    if st.remaining == 0 {
        st
    } else {
        let share = st.remaining * c.performance_score / b.total_score;
        let capped = if share > b.max_single {
            b.max_single
        } else {
            share
        };
        if capped < b.min_single || capped < protocol_floor(c.protocol_type) {
            st
        } else {
            let adjusted = capped * risk_adjustment(c.volatility_score, b.risk_tolerance_bps) / 10000;
            let amount = if adjusted > st.remaining {
                st.remaining
            } else {
                adjusted
            };
            if amount > 0 {
                let kind = if st.placed < 3 {
                    AllocationType::TopPerformer
                } else {
                    AllocationType::RiskDiversification
                };
                AllocationState {
                    records: st.records.push(
                        CapitalAllocation {
                            strategy_id: c.strategy_id,
                            amount: amount as u64,
                            allocation_type: kind,
                        },
                    ),
                    remaining: st.remaining - amount,
                    placed: st.placed + 1,
                }
            } else {
                st
            }
        }
    }
}

/// The run over the first `k` candidates.
pub open spec fn allocation_run(
    cands: Seq<StrategyPerformanceData>,
    k: int,
    start: AllocationState,
    b: AllocationBounds,
) -> AllocationState
    decreases k,
{
    if k <= 0 {
        start
    } else {
        allocation_step(allocation_run(cands, k - 1, start, b), cands[k - 1], b)
    }
}

/// Fee records, platform first, each only when nonzero.
pub open spec fn fee_records(capital: u64, l: RiskLimits) -> Seq<CapitalAllocation> {
    let pf = bps_of(capital, l.platform_fee_bps);
    let mf = bps_of(capital, l.manager_fee_bps);
    let p = if pf > 0 {
        seq![
            CapitalAllocation {
                strategy_id: l.platform_treasury,
                amount: pf as u64,
                allocation_type: AllocationType::PlatformFee,
            },
        ]
    } else {
        Seq::empty()
    };
    if mf > 0 {
        p.push(
            CapitalAllocation {
                strategy_id: l.manager_treasury,
                amount: mf as u64,
                allocation_type: AllocationType::ManagerIncentive,
            },
        )
    } else {
        p
    }
}

pub open spec fn allocation_bounds(capital: u64, cands: Seq<StrategyPerformanceData>, l: RiskLimits) -> AllocationBounds {
    AllocationBounds {
        total_score: score_total(cands),
        max_single: bps_of(capital, l.max_single_strategy_bps),
        min_single: bps_of(capital, l.min_single_strategy_bps),
        risk_tolerance_bps: l.risk_tolerance_bps,
    }
}

/// The run over all candidates, after the fees.
pub open spec fn allocation_outcome(capital: u64, cands: Seq<StrategyPerformanceData>, l: RiskLimits) -> AllocationState {
    let start = AllocationState {
        records: fee_records(capital, l),
        remaining: capital - bps_of(capital, l.platform_fee_bps) - bps_of(capital, l.manager_fee_bps),
        placed: 0,
    };
    allocation_run(cands, cands.len() as int, start, allocation_bounds(capital, cands, l))
}

/// Index of the first top-performer record at or after `k`; the length if
/// there is none.
pub open spec fn first_top_performer(s: Seq<CapitalAllocation>, k: int) -> int
    decreases s.len() - k,
{
    if k >= s.len() {
        s.len() as int
    } else if s[k].allocation_type == AllocationType::TopPerformer {
        k
    } else {
        first_top_performer(s, k + 1)
    }
}

/// Whether the capital left after the run goes to the first top performer:
/// it must exceed the dust threshold and such a record must exist.
pub open spec fn dust_folded(st: AllocationState) -> bool {
    st.remaining > DUST_THRESHOLD && first_top_performer(st.records, 0) < st.records.len()
}

/// The batch after the leftover, when folded, joins the first top performer.
pub open spec fn fold_dust(st: AllocationState) -> Seq<CapitalAllocation> {
    if dust_folded(st) {
        let k = first_top_performer(st.records, 0);
        let a = st.records[k];
        st.records.update(k, CapitalAllocation { amount: (a.amount + st.remaining) as u64, ..a })
    } else {
        st.records
    }
}

/// Capital that the batch leaves unallocated.
pub open spec fn unallocated_capital(capital: u64, cands: Seq<StrategyPerformanceData>, l: RiskLimits) -> int {
    let st = allocation_outcome(capital, cands, l);
    if dust_folded(st) {
        0
    } else {
        st.remaining
    }
}

/// Two candidates name the same strategy.
pub open spec fn has_repeated_candidate(c: Seq<StrategyPerformanceData>) -> bool {
    exists|i: int, j: int|
        0 <= i < j < c.len() && (#[trigger] c[i]).strategy_id@ == (#[trigger] c[j]).strategy_id@
}

fn repeated_candidate(c: &Vec<StrategyPerformanceData>) -> (r: bool)
    ensures
        r == has_repeated_candidate(c@),
{
    let mut j: usize = 0;
    while j < c.len()
        invariant
            0 <= j <= c.len(),
            forall|a: int, b: int|
                0 <= a < b < j ==> (#[trigger] c@[a]).strategy_id@ != (#[trigger] c@[b]).strategy_id@,
        decreases c.len() - j,
    {
        let mut i: usize = 0;
        while i < j
            invariant
                0 <= i <= j < c.len(),
                forall|a: int, b: int|
                    0 <= a < b < j ==> (#[trigger] c@[a]).strategy_id@ != (
                    #[trigger] c@[b]).strategy_id@,
                forall|a: int| 0 <= a < i ==> (#[trigger] c@[a]).strategy_id@ != c@[j as int].strategy_id@,
            decreases j - i,
        {
            if c[i].strategy_id.same_as(&c[j].strategy_id) {
                assert(c@[i as int].strategy_id@ == c@[j as int].strategy_id@);
                return true;
            }
            i = i + 1;
        }
        j = j + 1;
    }
    false
}

/// Outcome of an allocation, checks first: capital to allocate, candidates
/// that name distinct strategies,
/// fee and bound products that fit 64 bits, fees that do not exceed the
/// capital, and some nonzero score.
pub open spec fn optimal_allocation_spec(
    capital: u64,
    cands: Seq<StrategyPerformanceData>,
    l: RiskLimits,
) -> Result<Seq<CapitalAllocation>, RebalancerError> {
    if capital == 0 {
        Err(RebalancerError::InsufficientBalance)
    } else if cands.len() == 0 {
        Err(RebalancerError::InsufficientStrategies)
    } else if has_repeated_candidate(cands) {
        Err(RebalancerError::DuplicateStrategy)
    } else if capital * l.platform_fee_bps > u64::MAX || capital * l.manager_fee_bps > u64::MAX
        || capital * l.max_single_strategy_bps > u64::MAX || capital * l.min_single_strategy_bps
        > u64::MAX {
        Err(RebalancerError::MathOverflow)
    } else if bps_of(capital, l.platform_fee_bps) + bps_of(capital, l.manager_fee_bps) > capital {
        Err(RebalancerError::InvalidAllocationPercentage)
    } else if score_total(cands) == 0 {
        Err(RebalancerError::InvalidPerformanceScore)
    } else {
        Ok(fold_dust(allocation_outcome(capital, cands, l)))
    }
}

proof fn lemma_score_total_bounds(s: Seq<StrategyPerformanceData>)
    ensures
        0 <= score_total(s) <= s.len() * u64::MAX,
        forall|i: int| 0 <= i < s.len() ==> (#[trigger] s[i]).performance_score <= score_total(s),
    decreases s.len(),
{
    if s.len() > 0 {
        lemma_score_total_bounds(s.drop_last());
        assert forall|i: int| 0 <= i < s.len() implies (#[trigger] s[i]).performance_score
            <= score_total(s) by {
            if i < s.len() - 1 {
                assert(s[i] == s.drop_last()[i]);
            }
        }
    }
}

fn sum_scores(cands: &Vec<StrategyPerformanceData>) -> (r: u128)
    ensures
        r == score_total(cands@),
{
    let mut total: u128 = 0;
    let mut i: usize = 0;
    assert(cands@.subrange(0, 0) =~= Seq::<StrategyPerformanceData>::empty());
    while i < cands.len()
        invariant
            0 <= i <= cands.len(),
            total == score_total(cands@.subrange(0, i as int)),
        decreases cands.len() - i,
    {
        proof {
            assert(cands@.subrange(0, i + 1).drop_last() =~= cands@.subrange(0, i as int));
            lemma_score_total_bounds(cands@.subrange(0, i + 1));
            assert((i + 1) * u64::MAX <= u64::MAX * u64::MAX) by (nonlinear_arith)
                requires
                    i + 1 <= u64::MAX,
            ;
        }
        total = total + cands[i].performance_score as u128;
        i = i + 1;
    }
    assert(cands@.subrange(0, i as int) =~= cands@);
    total
}

/// Every record's amount is at most the batch's sum.
proof fn lemma_amount_le_sum(s: Seq<CapitalAllocation>, k: int)
    requires
        0 <= k < s.len(),
    ensures
        s[k].amount <= sum_amounts(s),
    decreases s.len(),
{
    lemma_sum_nonneg(s.drop_last());
    if k < s.len() - 1 {
        lemma_amount_le_sum(s.drop_last(), k);
    }
}

proof fn lemma_sum_nonneg(s: Seq<CapitalAllocation>)
    ensures
        sum_amounts(s) >= 0,
    decreases s.len(),
{
    if s.len() > 0 {
        lemma_sum_nonneg(s.drop_last());
    }
}

/// Raising one amount raises the sum by as much.
proof fn lemma_sum_update(s: Seq<CapitalAllocation>, k: int, a: CapitalAllocation)
    requires
        0 <= k < s.len(),
    ensures
        sum_amounts(s.update(k, a)) == sum_amounts(s) - s[k].amount + a.amount,
    decreases s.len(),
{
    let u = s.update(k, a);
    if k < s.len() - 1 {
        assert(u.drop_last() =~= s.drop_last().update(k, a));
        lemma_sum_update(s.drop_last(), k, a);
    } else {
        assert(u.drop_last() =~= s.drop_last());
    }
}

fn find_first_top_performer(s: &Vec<CapitalAllocation>) -> (k: usize)
    ensures
        k == first_top_performer(s@, 0),
{
    let mut k: usize = 0;
    while k < s.len()
        invariant
            0 <= k <= s.len(),
            first_top_performer(s@, 0) == first_top_performer(s@, k as int),
        decreases s.len() - k,
    {
        if s[k].allocation_type == AllocationType::TopPerformer {
            return k;
        }
        k = k + 1;
    }
    k
}

/// An allocation batch together with the capital it leaves unallocated.
#[derive(Clone, Debug)]
pub struct AllocationOutcome {
    pub allocations: Vec<CapitalAllocation>,
    /// Capital handed back to the caller: the leftover when it lies at or
    /// below the dust threshold or no top performer can take it.
    pub unallocated: u64,
}

/// Splits `available_capital` into fee records and performance-weighted,
/// risk-adjusted strategy records within the diversification bounds; capital
/// left above the dust threshold joins the first top performer.
pub fn calculate_optimal_allocation(
    available_capital: u64,
    top_strategies: &Vec<StrategyPerformanceData>,
    risk_limits: &RiskLimits,
) -> (r: Result<Vec<CapitalAllocation>, RebalancerError>)
    ensures
        match optimal_allocation_spec(available_capital, top_strategies@, *risk_limits) {
            Ok(s) => r is Ok && r->Ok_0@ == s,
            Err(e) => r == Err::<Vec<CapitalAllocation>, RebalancerError>(e),
        },
{
    match allocate_with_remainder(available_capital, top_strategies, risk_limits) {
        Ok(outcome) => Ok(outcome.allocations),
        Err(e) => Err(e),
    }
}

/// The allocation of `calculate_optimal_allocation`, and with it the capital
/// that the batch leaves unallocated: the batch's amounts and the remainder
/// add up to exactly `available_capital`.
pub fn allocate_with_remainder(
    available_capital: u64,
    top_strategies: &Vec<StrategyPerformanceData>,
    risk_limits: &RiskLimits,
) -> (r: Result<AllocationOutcome, RebalancerError>)
    ensures
        match optimal_allocation_spec(available_capital, top_strategies@, *risk_limits) {
            Ok(s) => {
                &&& r is Ok
                &&& r->Ok_0.allocations@ == s
                &&& r->Ok_0.unallocated == unallocated_capital(
                    available_capital,
                    top_strategies@,
                    *risk_limits,
                )
                &&& sum_amounts(s) + r->Ok_0.unallocated == available_capital
            },
            Err(e) => r is Err && r->Err_0 == e,
        },
{
    if available_capital == 0 {
        return Err(RebalancerError::InsufficientBalance);
    }
    if top_strategies.len() == 0 {
        return Err(RebalancerError::InsufficientStrategies);
    }
    if repeated_candidate(top_strategies) {
        return Err(RebalancerError::DuplicateStrategy);
    }
    let platform_fee = match available_capital.checked_mul(risk_limits.platform_fee_bps) {
        Some(p) => p / BPS_SCALE,
        None => {
            return Err(RebalancerError::MathOverflow);
        },
    };
    let manager_fee = match available_capital.checked_mul(risk_limits.manager_fee_bps) {
        Some(p) => p / BPS_SCALE,
        None => {
            return Err(RebalancerError::MathOverflow);
        },
    };
    let max_single_allocation = match available_capital.checked_mul(
        risk_limits.max_single_strategy_bps,
    ) {
        Some(p) => p / BPS_SCALE,
        None => {
            return Err(RebalancerError::MathOverflow);
        },
    };
    let min_single_allocation = match available_capital.checked_mul(
        risk_limits.min_single_strategy_bps,
    ) {
        Some(p) => p / BPS_SCALE,
        None => {
            return Err(RebalancerError::MathOverflow);
        },
    };
    if platform_fee as u128 + manager_fee as u128 > available_capital as u128 {
        return Err(RebalancerError::InvalidAllocationPercentage);
    }
    let mut allocations: Vec<CapitalAllocation> = Vec::new();
    let mut remaining_capital: u64 = available_capital;
    if platform_fee > 0 {
        allocations.push(
            CapitalAllocation {
                strategy_id: risk_limits.platform_treasury,
                amount: platform_fee,
                allocation_type: AllocationType::PlatformFee,
            },
        );
        remaining_capital = remaining_capital - platform_fee;
    }
    if manager_fee > 0 {
        allocations.push(
            CapitalAllocation {
                strategy_id: risk_limits.manager_treasury,
                amount: manager_fee,
                allocation_type: AllocationType::ManagerIncentive,
            },
        );
        remaining_capital = remaining_capital - manager_fee;
    }
    let total_performance_score = sum_scores(top_strategies);
    if total_performance_score == 0 {
        return Err(RebalancerError::InvalidPerformanceScore);
    }
    let ghost cands = top_strategies@;
    let ghost b = allocation_bounds(available_capital, cands, *risk_limits);
    let ghost start = AllocationState {
        records: allocations@,
        remaining: remaining_capital as int,
        placed: 0,
    };
    proof {
        assert(allocations@ =~= fee_records(available_capital, *risk_limits));
        reveal_with_fuel(sum_amounts, 3);
        assert(sum_amounts(allocations@) + remaining_capital == available_capital);
        lemma_score_total_bounds(cands);
    }
    let mut placed: usize = 0;
    let mut index: usize = 0;
    while index < top_strategies.len()
        invariant
            0 <= index <= top_strategies.len(),
            cands == top_strategies@,
            b == allocation_bounds(available_capital, cands, *risk_limits),
            b.total_score == total_performance_score,
            total_performance_score > 0,
            forall|i: int| 0 <= i < cands.len() ==> (#[trigger] cands[i]).performance_score
                <= total_performance_score,
            max_single_allocation == b.max_single,
            min_single_allocation == b.min_single,
            placed <= index,
            allocation_run(cands, index as int, start, b) == (AllocationState {
                records: allocations@,
                remaining: remaining_capital as int,
                placed: placed as int,
            }),
            sum_amounts(allocations@) + remaining_capital == available_capital,
        decreases top_strategies.len() - index,
    {
        let strategy = top_strategies[index];
        if remaining_capital > 0 {
            proof {
                assert(remaining_capital * strategy.performance_score / (total_performance_score as int)
                    <= remaining_capital) by (nonlinear_arith)
                    requires
                        strategy.performance_score <= total_performance_score,
                        total_performance_score > 0,
                ;
                assert(remaining_capital * strategy.performance_score <= u64::MAX * u64::MAX)
                    by (nonlinear_arith)
                    requires
                        remaining_capital <= u64::MAX,
                        strategy.performance_score <= u64::MAX,
                ;
            }
            let performance_allocation: u128 = remaining_capital as u128
                * strategy.performance_score as u128 / total_performance_score;
            let mut allocation_amount: u64 = performance_allocation as u64;
            if allocation_amount > max_single_allocation {
                allocation_amount = max_single_allocation;
            }
            if allocation_amount >= min_single_allocation && allocation_amount >= protocol_minimum(
                &strategy.protocol_type,
            ) {
                let risk_adjustment = calculate_risk_adjustment(
                    strategy.volatility_score,
                    risk_limits,
                );
                proof {
                    assert(allocation_amount * risk_adjustment <= u64::MAX * 15000) by (
                    nonlinear_arith)
                        requires
                            risk_adjustment <= 15000,
                    ;
                }
                let adjusted: u128 = allocation_amount as u128 * risk_adjustment as u128
                    / 10000u128;
                let amount: u64 = if adjusted > remaining_capital as u128 {
                    remaining_capital
                } else {
                    adjusted as u64
                };
                if amount > 0 {
                    let allocation_type = if placed < 3 {
                        AllocationType::TopPerformer
                    } else {
                        AllocationType::RiskDiversification
                    };
                    let ghost prev = allocations@;
                    allocations.push(
                        CapitalAllocation {
                            strategy_id: strategy.strategy_id,
                            amount,
                            allocation_type,
                        },
                    );
                    assert(allocations@.drop_last() =~= prev);
                    remaining_capital = remaining_capital - amount;
                    placed = placed + 1;
                }
            }
        }
        index = index + 1;
    }
    let ghost st = AllocationState {
        records: allocations@,
        remaining: remaining_capital as int,
        placed: placed as int,
    };
    let mut unallocated = remaining_capital;
    if remaining_capital > DUST_THRESHOLD && allocations.len() > 0 {
        let k = find_first_top_performer(&allocations);
        if k < allocations.len() {
            unallocated = 0;
            let a = allocations[k];
            proof {
                lemma_amount_le_sum(allocations@, k as int);
            }
            let amount = match a.amount.checked_add(remaining_capital) {
                Some(t) => t,
                None => {
                    return Err(RebalancerError::BalanceOverflow);
                },
            };
            allocations.set(k, CapitalAllocation { amount, ..a });
        }
    }
    proof {
        assert(allocations@ == fold_dust(st));
        assert(st == allocation_outcome(available_capital, top_strategies@, *risk_limits));
        lemma_allocation_conserves_capital(available_capital, top_strategies@, *risk_limits);
    }
    Ok(AllocationOutcome { allocations, unallocated })
}

/// Emitted for each record applied.
#[derive(Clone, Copy, Debug)]
pub struct CapitalAllocationEvent {
    pub strategy_id: Address,
    pub amount: u64,
    pub allocation_type: AllocationType,
    pub timestamp: i64,
}

/// Summary of a completed redistribution.
#[derive(Clone, Copy, Debug)]
pub struct RedistributionCompletedEvent {
    pub total_allocated: u64,
    pub strategies_updated: u32,
    pub platform_fees: u64,
    pub manager_fees: u64,
    pub timestamp: i64,
}

pub open spec fn is_strategy_purpose(t: AllocationType) -> bool {
    t == AllocationType::TopPerformer || t == AllocationType::RiskDiversification
}

/// The tallies after one more record, or the first check it fails.
pub open spec fn tally_record(res: AllocationResult, a: CapitalAllocation) -> Result<
    AllocationResult,
    RebalancerError,
> {
    if a.amount == 0 {
        Err(RebalancerError::InsufficientBalance)
    } else if a.amount >= BALANCE_LIMIT {
        Err(RebalancerError::BalanceOverflow)
    } else {
        let counted: Result<AllocationResult, RebalancerError> = if is_strategy_purpose(
            a.allocation_type,
        ) {
            if res.strategies_updated + 1 > u32::MAX {
                Err(RebalancerError::MathOverflow)
            } else if res.total_strategy_allocation + a.amount > u64::MAX {
                Err(RebalancerError::BalanceOverflow)
            } else {
                Ok(
                    AllocationResult {
                        strategies_updated: (res.strategies_updated + 1) as u32,
                        total_strategy_allocation: (res.total_strategy_allocation
                            + a.amount) as u64,
                        ..res
                    },
                )
            }
        } else if a.allocation_type == AllocationType::PlatformFee {
            if res.platform_fees + a.amount > u64::MAX {
                Err(RebalancerError::BalanceOverflow)
            } else {
                Ok(AllocationResult { platform_fees: (res.platform_fees + a.amount) as u64, ..res })
            }
        } else {
            if res.manager_fees + a.amount > u64::MAX {
                Err(RebalancerError::BalanceOverflow)
            } else {
                Ok(AllocationResult { manager_fees: (res.manager_fees + a.amount) as u64, ..res })
            }
        };
        match counted {
            Err(e) => Err(e),
            Ok(c) => if c.total_allocated + a.amount > u64::MAX {
                Err(RebalancerError::BalanceOverflow)
            } else {
                Ok(AllocationResult { total_allocated: (c.total_allocated + a.amount) as u64, ..c })
            },
        }
    }
}

/// Tallies of a batch, record by record, or the first check that fails.
pub open spec fn batch_tally(s: Seq<CapitalAllocation>) -> Result<AllocationResult, RebalancerError>
    decreases s.len(),
{
    if s.len() == 0 {
        Ok(
            AllocationResult {
                total_allocated: 0,
                strategies_updated: 0,
                total_strategy_allocation: 0,
                platform_fees: 0,
                manager_fees: 0,
            },
        )
    } else {
        match batch_tally(s.drop_last()) {
            Err(e) => Err(e),
            Ok(res) => tally_record(res, s.last()),
        }
    }
}

proof fn lemma_tally_error_persists(s: Seq<CapitalAllocation>, k: int)
    requires
        0 <= k <= s.len(),
        batch_tally(s.subrange(0, k)) is Err,
    ensures
        batch_tally(s) == batch_tally(s.subrange(0, k)),
    decreases s.len() - k,
{
    if k < s.len() {
        assert(s.subrange(0, k + 1).drop_last() =~= s.subrange(0, k));
        lemma_tally_error_persists(s, k + 1);
    } else {
        assert(s.subrange(0, k) =~= s);
    }
}

/// Applies a batch: checks and tallies each record, then adds the total to
/// the portfolio's capital moved and stamps the rebalance time. On failure
/// the portfolio is left as it was.
pub fn process_allocation_batch(
    allocations: &Vec<CapitalAllocation>,
    portfolio: &mut Portfolio,
    current_time: i64,
) -> (r: Result<AllocationResult, RebalancerError>)
    ensures
        match batch_tally(allocations@) {
            Err(e) => r == Err::<AllocationResult, RebalancerError>(e),
            Ok(t) => if old(portfolio).total_capital_moved + t.total_allocated > u64::MAX {
                r == Err::<AllocationResult, RebalancerError>(RebalancerError::BalanceOverflow)
            } else {
                &&& r == Ok::<AllocationResult, RebalancerError>(t)
                &&& *final(portfolio) == (Portfolio {
                    total_capital_moved: (old(portfolio).total_capital_moved
                        + t.total_allocated) as u64,
                    last_rebalance: current_time,
                    ..*old(portfolio)
                })
            },
        },
        r is Err ==> *final(portfolio) == *old(portfolio),
{
    let mut result = AllocationResult::default();
    let mut i: usize = 0;
    assert(allocations@.subrange(0, 0) =~= Seq::<CapitalAllocation>::empty());
    while i < allocations.len()
        invariant
            0 <= i <= allocations.len(),
            batch_tally(allocations@.subrange(0, i as int)) == Ok::<
                AllocationResult,
                RebalancerError,
            >(result),
        decreases allocations.len() - i,
    {
        let ghost next = allocations@.subrange(0, i + 1);
        assert(next.drop_last() =~= allocations@.subrange(0, i as int));
        let allocation = allocations[i];
        match update_strategy_allocation(
            allocation.strategy_id,
            allocation.amount,
            allocation.allocation_type,
        ) {
            Ok(()) => {},
            Err(e) => {
                proof {
                    lemma_tally_error_persists(allocations@, i + 1);
                }
                return Err(e);
            },
        }
        match allocation.allocation_type {
            AllocationType::TopPerformer | AllocationType::RiskDiversification => {
                if result.strategies_updated == u32::MAX {
                    proof {
                        lemma_tally_error_persists(allocations@, i + 1);
                    }
                    return Err(RebalancerError::MathOverflow);
                }
                match result.total_strategy_allocation.checked_add(allocation.amount) {
                    Some(t) => {
                        result.total_strategy_allocation = t;
                    },
                    None => {
                        proof {
                            lemma_tally_error_persists(allocations@, i + 1);
                        }
                        return Err(RebalancerError::BalanceOverflow);
                    },
                }
                result.strategies_updated = result.strategies_updated + 1;
            },
            AllocationType::PlatformFee => {
                match result.platform_fees.checked_add(allocation.amount) {
                    Some(t) => {
                        result.platform_fees = t;
                    },
                    None => {
                        proof {
                            lemma_tally_error_persists(allocations@, i + 1);
                        }
                        return Err(RebalancerError::BalanceOverflow);
                    },
                }
            },
            AllocationType::ManagerIncentive => {
                match result.manager_fees.checked_add(allocation.amount) {
                    Some(t) => {
                        result.manager_fees = t;
                    },
                    None => {
                        proof {
                            lemma_tally_error_persists(allocations@, i + 1);
                        }
                        return Err(RebalancerError::BalanceOverflow);
                    },
                }
            },
        }
        match result.total_allocated.checked_add(allocation.amount) {
            Some(t) => {
                result.total_allocated = t;
            },
            None => {
                proof {
                    lemma_tally_error_persists(allocations@, i + 1);
                }
                return Err(RebalancerError::BalanceOverflow);
            },
        }
        i = i + 1;
    }
    assert(allocations@.subrange(0, i as int) =~= allocations@);
    let moved = match portfolio.total_capital_moved.checked_add(result.total_allocated) {
        Some(m) => m,
        None => {
            return Err(RebalancerError::BalanceOverflow);
        },
    };
    portfolio.total_capital_moved = moved;
    portfolio.last_rebalance = current_time;
    Ok(result)
}

/// Most records one redistribution may carry.
pub const MAX_BATCH_RECORDS: usize = 20;

proof fn lemma_validated_total(s: Seq<CapitalAllocation>)
    requires
        validate_allocations_spec(s) is Ok,
    ensures
        validate_allocations_spec(s)->Ok_0 == sum_amounts(s),
    decreases s.len(),
{
    if s.len() > 0 {
        lemma_validated_total(s.drop_last());
    }
}

proof fn lemma_tally_totals(s: Seq<CapitalAllocation>)
    requires
        batch_tally(s) is Ok,
    ensures
        batch_tally(s)->Ok_0.total_allocated == sum_amounts(s),
        batch_tally(s)->Ok_0.total_strategy_allocation + batch_tally(s)->Ok_0.platform_fees
            + batch_tally(s)->Ok_0.manager_fees == sum_amounts(s),
    decreases s.len(),
{
    if s.len() > 0 {
        lemma_tally_totals(s.drop_last());
    }
}

/// Validates and applies a batch of at most twenty records on an unpaused
/// portfolio, and reports the totals. On failure the portfolio is left as it
/// was.
pub fn redistribute_capital(
    portfolio: &mut Portfolio,
    allocations: &Vec<CapitalAllocation>,
    current_time: i64,
) -> (r: Result<RedistributionCompletedEvent, RebalancerError>)
    ensures
        old(portfolio).emergency_pause ==> r == Err::<RedistributionCompletedEvent, RebalancerError>(
            RebalancerError::EmergencyPauseActive,
        ),
        !old(portfolio).emergency_pause && allocations@.len() == 0 ==> r == Err::<
            RedistributionCompletedEvent,
            RebalancerError,
        >(RebalancerError::InsufficientStrategies),
        !old(portfolio).emergency_pause && allocations@.len() > MAX_BATCH_RECORDS ==> r == Err::<
            RedistributionCompletedEvent,
            RebalancerError,
        >(RebalancerError::TooManyStrategies),
        !old(portfolio).emergency_pause && 0 < allocations@.len() <= MAX_BATCH_RECORDS ==> match validate_allocations_spec(allocations@) {
            Err(e) => r == Err::<RedistributionCompletedEvent, RebalancerError>(e),
            Ok(_) => match batch_tally(allocations@) {
                Err(e) => r == Err::<RedistributionCompletedEvent, RebalancerError>(e),
                Ok(t) => if old(portfolio).total_capital_moved + t.total_allocated > u64::MAX {
                    r == Err::<RedistributionCompletedEvent, RebalancerError>(
                        RebalancerError::BalanceOverflow,
                    )
                } else {
                    &&& r == Ok::<RedistributionCompletedEvent, RebalancerError>(
                        RedistributionCompletedEvent {
                            total_allocated: t.total_allocated,
                            strategies_updated: t.strategies_updated,
                            platform_fees: t.platform_fees,
                            manager_fees: t.manager_fees,
                            timestamp: current_time,
                        },
                    )
                    &&& *final(portfolio) == (Portfolio {
                        total_capital_moved: (old(portfolio).total_capital_moved
                            + t.total_allocated) as u64,
                        last_rebalance: current_time,
                        ..*old(portfolio)
                    })
                },
            },
        },
        r is Err ==> *final(portfolio) == *old(portfolio),
{
    if portfolio.emergency_pause {
        return Err(RebalancerError::EmergencyPauseActive);
    }
    if allocations.len() == 0 {
        return Err(RebalancerError::InsufficientStrategies);
    }
    if allocations.len() > MAX_BATCH_RECORDS {
        return Err(RebalancerError::TooManyStrategies);
    }
    let total_allocated = match validate_allocations(allocations) {
        Ok(t) => t,
        Err(e) => {
            return Err(e);
        },
    };
    let result = match process_allocation_batch(allocations, portfolio, current_time) {
        Ok(res) => res,
        Err(e) => {
            return Err(e);
        },
    };
    proof {
        lemma_validated_total(allocations@);
        lemma_tally_totals(allocations@);
    }
    if result.total_allocated != total_allocated {
        return Err(RebalancerError::InvalidTotalAllocation);
    }
    let expected_total = result.total_strategy_allocation as u128 + result.platform_fees as u128
        + result.manager_fees as u128;
    if expected_total != result.total_allocated as u128 {
        return Err(RebalancerError::InvalidTotalAllocation);
    }
    Ok(
        RedistributionCompletedEvent {
            total_allocated: result.total_allocated,
            strategies_updated: result.strategies_updated,
            platform_fees: result.platform_fees,
            manager_fees: result.manager_fees,
            timestamp: current_time,
        },
    )
}

/// For a fixed risk tolerance the risk multiplier never rises with
/// volatility, and it always lies within `[5000, 15000]`.
pub proof fn lemma_risk_adjustment_monotone(v1: u32, v2: u32, risk_tolerance_bps: u64)
    requires
        v1 <= v2,
    ensures
        risk_adjustment(v1, risk_tolerance_bps) >= risk_adjustment(v2, risk_tolerance_bps),
        MIN_RISK_MULTIPLIER <= risk_adjustment(v1, risk_tolerance_bps) <= MAX_RISK_MULTIPLIER,
        MIN_RISK_MULTIPLIER <= risk_adjustment(v2, risk_tolerance_bps) <= MAX_RISK_MULTIPLIER,
{
    let i1 = inverse_volatility(v1);
    let i2 = inverse_volatility(v2);
    assert(i1 >= i2);
    assert(i1 * 10000 / 10000 == i1);
    assert(i2 * 10000 / 10000 == i2);
    let b1 = 5000 + i1;
    let b2 = 5000 + i2;
    assert(b2 * risk_tolerance_bps <= b1 * risk_tolerance_bps) by (nonlinear_arith)
        requires
            b2 <= b1,
            risk_tolerance_bps >= 0,
    ;
    vstd::arithmetic::div_mod::lemma_div_is_ordered(
        b2 * risk_tolerance_bps,
        b1 * risk_tolerance_bps,
        10000,
    );
}

/// The run over the candidates keeps account of every unit: what the
/// records hold plus what remains is the capital, no record is empty, and
/// nothing remains negative.
proof fn lemma_run_accounts(
    capital: u64,
    cands: Seq<StrategyPerformanceData>,
    l: RiskLimits,
    k: int,
)
    requires
        optimal_allocation_spec(capital, cands, l) is Ok,
        0 <= k <= cands.len(),
    ensures
        ({
            let start = AllocationState {
                records: fee_records(capital, l),
                remaining: capital - bps_of(capital, l.platform_fee_bps) - bps_of(
                    capital,
                    l.manager_fee_bps,
                ),
                placed: 0,
            };
            let st = allocation_run(cands, k, start, allocation_bounds(capital, cands, l));
            &&& sum_amounts(st.records) + st.remaining == capital
            &&& st.remaining >= 0
            &&& forall|i: int| 0 <= i < st.records.len() ==> (#[trigger] st.records[i]).amount > 0
        }),
    decreases k,
{
    let start = AllocationState {
        records: fee_records(capital, l),
        remaining: capital - bps_of(capital, l.platform_fee_bps) - bps_of(capital, l.manager_fee_bps),
        placed: 0,
    };
    let b = allocation_bounds(capital, cands, l);
    if k == 0 {
        reveal_with_fuel(sum_amounts, 3);
        assert(bps_of(capital, l.platform_fee_bps) >= 0);
        assert(bps_of(capital, l.manager_fee_bps) >= 0);
    } else {
        lemma_run_accounts(capital, cands, l, k - 1);
        let prev = allocation_run(cands, k - 1, start, b);
        let c = cands[k - 1];
        let st = allocation_run(cands, k, start, b);
        lemma_sum_nonneg(prev.records);
        if prev.remaining != 0 {
            let share = prev.remaining * c.performance_score / b.total_score;
            let capped = if share > b.max_single {
                b.max_single
            } else {
                share
            };
            if !(capped < b.min_single || capped < protocol_floor(c.protocol_type)) {
                let adj = risk_adjustment(c.volatility_score, b.risk_tolerance_bps);
                assert(capped * adj / 10000 >= 0) by (nonlinear_arith)
                    requires
                        capped >= 0,
                        adj >= 0,
                ;
                if st.records.len() > prev.records.len() {
                    assert(st.records.drop_last() =~= prev.records);
                    assert forall|i: int| 0 <= i < st.records.len() implies (
                    #[trigger] st.records[i]).amount > 0 by {
                        if i < prev.records.len() {
                            assert(st.records[i] == prev.records[i]);
                        }
                    }
                }
            }
        }
    }
}

/// Conservation of capital: an allocation's records, together with the
/// capital it leaves unallocated (zero whenever the leftover joins a top
/// performer), add up to exactly the capital submitted; every record is
/// positive.
pub proof fn lemma_allocation_conserves_capital(
    capital: u64,
    cands: Seq<StrategyPerformanceData>,
    l: RiskLimits,
)
    requires
        optimal_allocation_spec(capital, cands, l) is Ok,
    ensures
        sum_amounts(optimal_allocation_spec(capital, cands, l)->Ok_0) + unallocated_capital(
            capital,
            cands,
            l,
        ) == capital,
        0 <= unallocated_capital(capital, cands, l),
        sum_amounts(optimal_allocation_spec(capital, cands, l)->Ok_0) <= capital,
        forall|i: int|
            0 <= i < optimal_allocation_spec(capital, cands, l)->Ok_0.len() ==> (#[trigger] optimal_allocation_spec(
                capital,
                cands,
                l,
            )->Ok_0[i]).amount > 0,
{
    lemma_run_accounts(capital, cands, l, cands.len() as int);
    let st = allocation_outcome(capital, cands, l);
    if dust_folded(st) {
        let k = first_top_performer(st.records, 0);
        lemma_first_top_performer_bounds(st.records, 0);
        let a = st.records[k];
        lemma_amount_le_sum(st.records, k);
        let na = CapitalAllocation { amount: (a.amount + st.remaining) as u64, ..a };
        lemma_sum_update(st.records, k, na);
    }
}

proof fn lemma_first_top_performer_bounds(s: Seq<CapitalAllocation>, k: int)
    requires
        0 <= k <= s.len(),
    ensures
        k <= first_top_performer(s, k) <= s.len(),
        first_top_performer(s, k) < s.len() ==> s[first_top_performer(s, k)].allocation_type
            == AllocationType::TopPerformer,
    decreases s.len() - k,
{
    if k < s.len() && s[k].allocation_type != AllocationType::TopPerformer {
        lemma_first_top_performer_bounds(s, k + 1);
    }
}

/// Some candidate with the record's target has a protocol floor the
/// record's amount reaches.
pub open spec fn meets_candidate_floor(
    a: CapitalAllocation,
    cands: Seq<StrategyPerformanceData>,
) -> bool {
    exists|j: int|
        0 <= j < cands.len() && (#[trigger] cands[j]).strategy_id == a.strategy_id && a.amount
            >= protocol_floor(cands[j].protocol_type)
}

proof fn lemma_run_floors(capital: u64, cands: Seq<StrategyPerformanceData>, l: RiskLimits, k: int)
    requires
        optimal_allocation_spec(capital, cands, l) is Ok,
        0 <= k <= cands.len(),
        forall|j: int|
            0 <= j < cands.len() ==> risk_adjustment(
                (#[trigger] cands[j]).volatility_score,
                l.risk_tolerance_bps,
            ) >= 10000,
    ensures
        ({
            let start = AllocationState {
                records: fee_records(capital, l),
                remaining: capital - bps_of(capital, l.platform_fee_bps) - bps_of(
                    capital,
                    l.manager_fee_bps,
                ),
                placed: 0,
            };
            let st = allocation_run(cands, k, start, allocation_bounds(capital, cands, l));
            forall|i: int|
                0 <= i < st.records.len() && is_strategy_purpose(
                    (#[trigger] st.records[i]).allocation_type,
                ) ==> meets_candidate_floor(st.records[i], cands)
        }),
    decreases k,
{
    let start = AllocationState {
        records: fee_records(capital, l),
        remaining: capital - bps_of(capital, l.platform_fee_bps) - bps_of(capital, l.manager_fee_bps),
        placed: 0,
    };
    let b = allocation_bounds(capital, cands, l);
    if k > 0 {
        lemma_run_floors(capital, cands, l, k - 1);
        lemma_run_accounts(capital, cands, l, k - 1);
        lemma_score_total_bounds(cands);
        let prev = allocation_run(cands, k - 1, start, b);
        lemma_sum_nonneg(prev.records);
        let c = cands[k - 1];
        let st = allocation_run(cands, k, start, b);
        if prev.remaining != 0 {
            let share = prev.remaining * c.performance_score / b.total_score;
            let capped = if share > b.max_single {
                b.max_single
            } else {
                share
            };
            if !(capped < b.min_single || capped < protocol_floor(c.protocol_type)) {
                let adj = risk_adjustment(c.volatility_score, b.risk_tolerance_bps);
                assert(share <= prev.remaining) by (nonlinear_arith)
                    requires
                        share == prev.remaining * c.performance_score / b.total_score,
                        c.performance_score <= b.total_score,
                        b.total_score > 0,
                        prev.remaining >= 0,
                ;
                assert(capped * adj / 10000 >= capped) by (nonlinear_arith)
                    requires
                        capped >= 0,
                        adj >= 10000,
                ;
                if st.records.len() > prev.records.len() {
                    let last = st.records.last();
                    assert(last.amount >= protocol_floor(c.protocol_type));
                    assert(cands[k - 1].strategy_id == last.strategy_id);
                    assert forall|i: int|
                        0 <= i < st.records.len() && is_strategy_purpose(
                            (#[trigger] st.records[i]).allocation_type,
                        ) implies meets_candidate_floor(st.records[i], cands) by {
                        if i < prev.records.len() {
                            assert(st.records[i] == prev.records[i]);
                        } else {
                            assert(cands[k - 1].strategy_id == st.records[i].strategy_id);
                        }
                    }
                }
            }
        }
    } else {
        reveal_with_fuel(sum_amounts, 3);
        assert forall|i: int|
            0 <= i < start.records.len() implies !is_strategy_purpose(
            (#[trigger] start.records[i]).allocation_type) by {}
    }
}

/// Protocol floors hold after the risk adjustment whenever no candidate's
/// multiplier lies below 100%: every strategy record then carries at least
/// the floor of a candidate it targets. (A multiplier below 100% may take a
/// share that just met its floor below it.)
pub proof fn lemma_allocation_meets_protocol_floors(
    capital: u64,
    cands: Seq<StrategyPerformanceData>,
    l: RiskLimits,
)
    requires
        optimal_allocation_spec(capital, cands, l) is Ok,
        forall|j: int|
            0 <= j < cands.len() ==> risk_adjustment(
                (#[trigger] cands[j]).volatility_score,
                l.risk_tolerance_bps,
            ) >= 10000,
    ensures
        forall|i: int|
            0 <= i < optimal_allocation_spec(capital, cands, l)->Ok_0.len() && is_strategy_purpose(
                (#[trigger] optimal_allocation_spec(capital, cands, l)->Ok_0[i]).allocation_type,
            ) ==> meets_candidate_floor(optimal_allocation_spec(capital, cands, l)->Ok_0[i], cands),
{
    lemma_run_floors(capital, cands, l, cands.len() as int);
    lemma_run_accounts(capital, cands, l, cands.len() as int);
    let st = allocation_outcome(capital, cands, l);
    let out = optimal_allocation_spec(capital, cands, l)->Ok_0;
    if dust_folded(st) {
        let k = first_top_performer(st.records, 0);
        lemma_first_top_performer_bounds(st.records, 0);
        lemma_amount_le_sum(st.records, k);
        assert forall|i: int|
            0 <= i < out.len() && is_strategy_purpose((#[trigger] out[i]).allocation_type) implies meets_candidate_floor(
            out[i],
            cands,
        ) by {
            if i != k {
                assert(out[i] == st.records[i]);
            } else {
                assert(meets_candidate_floor(st.records[i], cands));
                let j = choose|j: int|
                    0 <= j < cands.len() && (#[trigger] cands[j]).strategy_id
                        == st.records[i].strategy_id && st.records[i].amount >= protocol_floor(
                        cands[j].protocol_type,
                    );
                assert(cands[j].strategy_id == out[i].strategy_id);
            }
        }
    }
}

/// A batch that names a target twice is rejected.
pub proof fn lemma_duplicate_targets_rejected(s: Seq<CapitalAllocation>, i: int, j: int)
    requires
        0 <= i < j < s.len(),
        s[i].strategy_id@ == s[j].strategy_id@,
    ensures
        validate_allocations_spec(s) is Err,
    decreases s.len(),
{
    if j < s.len() - 1 {
        lemma_duplicate_targets_rejected(s.drop_last(), i, j);
    } else {
        assert(s.drop_last()[i] == s[i]);
        assert(has_target(s.drop_last(), s.last().strategy_id@));
    }
}

/// An accepted batch names each target once, holds only positive amounts,
/// and its total is the sum of its amounts.
pub proof fn lemma_accepted_batch(s: Seq<CapitalAllocation>)
    requires
        validate_allocations_spec(s) is Ok,
    ensures
        validate_allocations_spec(s)->Ok_0 == sum_amounts(s),
        forall|i: int| 0 <= i < s.len() ==> (#[trigger] s[i]).amount > 0,
        forall|i: int, j: int|
            0 <= i < j < s.len() ==> (#[trigger] s[i]).strategy_id@ != (#[trigger] s[j]).strategy_id@,
    decreases s.len(),
{
    if s.len() > 0 {
        lemma_accepted_batch(s.drop_last());
        lemma_validated_total(s);
        let d = s.drop_last();
        assert forall|i: int| 0 <= i < s.len() implies (#[trigger] s[i]).amount > 0 by {
            if i < d.len() {
                assert(s[i] == d[i]);
            }
        }
        assert forall|i: int, j: int|
            0 <= i < j < s.len() implies (#[trigger] s[i]).strategy_id@ != (
            #[trigger] s[j]).strategy_id@ by {
            assert(s[i] == d[i]);
            if j < d.len() {
                assert(s[j] == d[j]);
            } else if s[i].strategy_id@ == s[j].strategy_id@ {
                assert(has_target(d, s.last().strategy_id@));
            }
        }
    }
}

proof fn lemma_run_targets(capital: u64, cands: Seq<StrategyPerformanceData>, l: RiskLimits, k: int)
    requires
        optimal_allocation_spec(capital, cands, l) is Ok,
        0 <= k <= cands.len(),
    ensures
        ({
            let start = AllocationState {
                records: fee_records(capital, l),
                remaining: capital - bps_of(capital, l.platform_fee_bps) - bps_of(
                    capital,
                    l.manager_fee_bps,
                ),
                placed: 0,
            };
            let st = allocation_run(cands, k, start, allocation_bounds(capital, cands, l));
            &&& forall|i: int|
                0 <= i < st.records.len() && is_strategy_purpose(
                    (#[trigger] st.records[i]).allocation_type,
                ) ==> exists|j: int|
                    0 <= j < k && (#[trigger] cands[j]).strategy_id@ == st.records[i].strategy_id@
            &&& forall|a: int, b: int|
                0 <= a < b < st.records.len() && is_strategy_purpose(
                    (#[trigger] st.records[a]).allocation_type,
                ) && is_strategy_purpose((#[trigger] st.records[b]).allocation_type)
                    ==> st.records[a].strategy_id@ != st.records[b].strategy_id@
        }),
    decreases k,
{
    let start = AllocationState {
        records: fee_records(capital, l),
        remaining: capital - bps_of(capital, l.platform_fee_bps) - bps_of(capital, l.manager_fee_bps),
        placed: 0,
    };
    let b = allocation_bounds(capital, cands, l);
    if k == 0 {
        assert forall|i: int|
            0 <= i < start.records.len() implies !is_strategy_purpose(
            (#[trigger] start.records[i]).allocation_type) by {}
    } else {
        lemma_run_targets(capital, cands, l, k - 1);
        let prev = allocation_run(cands, k - 1, start, b);
        let st = allocation_run(cands, k, start, b);
        if st.records.len() > prev.records.len() {
            assert(st.records.drop_last() =~= prev.records);
            let new_id = cands[k - 1].strategy_id;
            assert(st.records.last().strategy_id == new_id);
            assert forall|i: int|
                0 <= i < st.records.len() && is_strategy_purpose(
                    (#[trigger] st.records[i]).allocation_type,
                ) implies exists|j: int|
                0 <= j < k && (#[trigger] cands[j]).strategy_id@ == st.records[i].strategy_id@ by {
                if i < prev.records.len() {
                    assert(st.records[i] == prev.records[i]);
                    let j0 = choose|j: int|
                        0 <= j < k - 1 && (#[trigger] cands[j]).strategy_id@
                            == prev.records[i].strategy_id@;
                    assert(cands[j0].strategy_id@ == st.records[i].strategy_id@);
                } else {
                    assert(cands[k - 1].strategy_id@ == st.records[i].strategy_id@);
                }
            }
            assert forall|a: int, c: int|
                0 <= a < c < st.records.len() && is_strategy_purpose(
                    (#[trigger] st.records[a]).allocation_type,
                ) && is_strategy_purpose((#[trigger] st.records[c]).allocation_type)
                    implies st.records[a].strategy_id@ != st.records[c].strategy_id@ by {
                assert(st.records[a] == prev.records[a]);
                if c < prev.records.len() {
                    assert(st.records[c] == prev.records[c]);
                } else {
                    let j0 = choose|j: int|
                        0 <= j < k - 1 && (#[trigger] cands[j]).strategy_id@
                            == prev.records[a].strategy_id@;
                    assert(!has_repeated_candidate(cands));
                    if cands[j0].strategy_id@ == cands[k - 1].strategy_id@ {
                        assert(has_repeated_candidate(cands));
                    }
                }
            }
        }
    }
}

/// No two strategy records of an allocation target the same strategy: the
/// allocation refuses candidates that repeat one, and places each candidate
/// at most once.
pub proof fn lemma_allocation_targets_distinct(
    capital: u64,
    cands: Seq<StrategyPerformanceData>,
    l: RiskLimits,
)
    requires
        optimal_allocation_spec(capital, cands, l) is Ok,
    ensures
        !has_repeated_candidate(cands),
        forall|a: int, b: int|
            0 <= a < b < optimal_allocation_spec(capital, cands, l)->Ok_0.len() && is_strategy_purpose(
                (#[trigger] optimal_allocation_spec(capital, cands, l)->Ok_0[a]).allocation_type,
            ) && is_strategy_purpose(
                (#[trigger] optimal_allocation_spec(capital, cands, l)->Ok_0[b]).allocation_type,
            ) ==> optimal_allocation_spec(capital, cands, l)->Ok_0[a].strategy_id@
                != optimal_allocation_spec(capital, cands, l)->Ok_0[b].strategy_id@,
{
    lemma_run_targets(capital, cands, l, cands.len() as int);
    let st = allocation_outcome(capital, cands, l);
    let out = optimal_allocation_spec(capital, cands, l)->Ok_0;
    if dust_folded(st) {
        let k = first_top_performer(st.records, 0);
        lemma_first_top_performer_bounds(st.records, 0);
        assert forall|a: int, b: int|
            0 <= a < b < out.len() && is_strategy_purpose((#[trigger] out[a]).allocation_type)
                && is_strategy_purpose((#[trigger] out[b]).allocation_type) implies out[a].strategy_id@
            != out[b].strategy_id@ by {
            assert(out[a].strategy_id == st.records[a].strategy_id);
            assert(out[a].allocation_type == st.records[a].allocation_type);
            assert(out[b].strategy_id == st.records[b].strategy_id);
            assert(out[b].allocation_type == st.records[b].allocation_type);
        }
    }
}

} // verus!
