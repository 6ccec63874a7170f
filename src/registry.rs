use vstd::prelude::*;

use crate::errors::RebalancerError;
use crate::state::{Address, Portfolio, ProtocolType, Strategy, StrategyStatus, BALANCE_LIMIT};

verus! {

/// Performance fee of a new portfolio, in basis points (2%).
pub const DEFAULT_PERFORMANCE_FEE_BPS: u16 = 200;

/// A new portfolio for `manager`, created at `current_time`. The threshold
/// must lie in 1..=50 and the interval between one hour and one day.
pub fn initialize_portfolio(
    manager: Address,
    rebalance_threshold: u8,
    min_rebalance_interval: i64,
    current_time: i64,
    bump: u8,
) -> (r: Result<Portfolio, RebalancerError>)
    ensures
        !(1 <= rebalance_threshold <= 50) ==> r == Err::<Portfolio, RebalancerError>(
            RebalancerError::InvalidRebalanceThreshold,
        ),
        1 <= rebalance_threshold <= 50 && !(3600 <= min_rebalance_interval <= 86400) ==> r
            == Err::<Portfolio, RebalancerError>(RebalancerError::InvalidRebalanceInterval),
        r is Ok <==> 1 <= rebalance_threshold <= 50 && 3600 <= min_rebalance_interval <= 86400,
        r is Ok ==> r->Ok_0 == (Portfolio {
            manager,
            rebalance_threshold,
            total_strategies: 0,
            total_capital_moved: 0,
            last_rebalance: current_time,
            min_rebalance_interval,
            portfolio_creation: current_time,
            emergency_pause: false,
            performance_fee_bps: DEFAULT_PERFORMANCE_FEE_BPS,
            bump,
            reserved: vstd::array::spec_array_fill_for_copy_type(0u8),
        }),
{
    match Portfolio::validate_rebalance_threshold(rebalance_threshold) {
        Ok(()) => {},
        Err(e) => {
            return Err(e);
        },
    }
    match Portfolio::validate_min_interval(min_rebalance_interval) {
        Ok(()) => {},
        Err(e) => {
            return Err(e);
        },
    }
    Ok(
        Portfolio {
            manager,
            rebalance_threshold,
            total_strategies: 0,
            total_capital_moved: 0,
            last_rebalance: current_time,
            min_rebalance_interval,
            portfolio_creation: current_time,
            emergency_pause: false,
            performance_fee_bps: DEFAULT_PERFORMANCE_FEE_BPS,
            bump,
            reserved: vstd::array::array_fill_for_copy_types(0u8),
        },
    )
}

/// Registers a strategy with `portfolio`: checks the protocol configuration,
/// the initial balance, the pause flag and room for one more strategy, then
/// returns the new active strategy and counts it, and its balance, in the
/// portfolio (saturating). On failure the portfolio is left as it was.
pub fn register_strategy(
    portfolio: &mut Portfolio,
    strategy_id: Address,
    protocol_type: ProtocolType,
    initial_balance: u64,
    current_time: i64,
    bump: u8,
) -> (r: Result<Strategy, RebalancerError>)
    ensures
        protocol_type.validate_spec() is Err ==> r == Err::<Strategy, RebalancerError>(
            protocol_type.validate_spec()->Err_0,
        ),
        protocol_type.validate_spec() is Ok && initial_balance >= BALANCE_LIMIT ==> r == Err::<
            Strategy,
            RebalancerError,
        >(RebalancerError::MathOverflow),
        protocol_type.validate_spec() is Ok && initial_balance < BALANCE_LIMIT
            && old(portfolio).emergency_pause ==> r == Err::<Strategy, RebalancerError>(
            RebalancerError::EmergencyPauseActive,
        ),
        protocol_type.validate_spec() is Ok && initial_balance < BALANCE_LIMIT
            && !old(portfolio).emergency_pause && old(portfolio).total_strategies == u32::MAX ==> r
            == Err::<Strategy, RebalancerError>(RebalancerError::MathOverflow),
        r is Ok <==> protocol_type.validate_spec() is Ok && initial_balance < BALANCE_LIMIT
            && !old(portfolio).emergency_pause && old(portfolio).total_strategies < u32::MAX,
        r is Ok ==> r->Ok_0 == (Strategy {
            strategy_id,
            protocol_type,
            current_balance: initial_balance,
            yield_rate: 0,
            volatility_score: 0,
            performance_score: 0,
            percentile_rank: 0,
            last_updated: current_time,
            status: StrategyStatus::Active,
            total_deposits: initial_balance,
            total_withdrawals: 0,
            creation_time: current_time,
            bump,
            reserved: vstd::array::spec_array_fill_for_copy_type(0u8),
        }),
        r is Ok ==> *final(portfolio) == (Portfolio {
            total_strategies: (old(portfolio).total_strategies + 1) as u32,
            total_capital_moved: old(portfolio).total_capital_moved.saturating_add(
                initial_balance,
            ),
            ..*old(portfolio)
        }),
        r is Err ==> *final(portfolio) == *old(portfolio),
{
    match protocol_type.validate() {
        Ok(()) => {},
        Err(e) => {
            return Err(e);
        },
    }
    match Strategy::validate_balance_update(initial_balance) {
        Ok(()) => {},
        Err(e) => {
            return Err(e);
        },
    }
    if portfolio.emergency_pause {
        return Err(RebalancerError::EmergencyPauseActive);
    }
    if portfolio.total_strategies == u32::MAX {
        return Err(RebalancerError::MathOverflow);
    }
    let strategy = Strategy {
        strategy_id,
        protocol_type,
        current_balance: initial_balance,
        yield_rate: 0,
        volatility_score: 0,
        performance_score: 0,
        percentile_rank: 0,
        last_updated: current_time,
        status: StrategyStatus::Active,
        total_deposits: initial_balance,
        total_withdrawals: 0,
        creation_time: current_time,
        bump,
        reserved: vstd::array::array_fill_for_copy_types(0u8),
    };
    portfolio.total_strategies = portfolio.total_strategies + 1;
    portfolio.total_capital_moved = portfolio.total_capital_moved.saturating_add(initial_balance);
    Ok(strategy)
}

} // verus!
