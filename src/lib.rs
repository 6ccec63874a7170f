//! Ranking and capital-allocation engine for a portfolio of yield strategies.
//!
//! Every entry point is a pure function of the snapshot it is handed: it
//! returns new values (or updates the `&mut` snapshot it was lent) and keeps
//! no state between calls.

pub mod allocation;
pub mod errors;
pub mod plan;
pub mod ranking;
pub mod registry;
pub mod scoring;
pub mod state;

pub use allocation::{
    allocate_with_remainder, calculate_optimal_allocation, calculate_risk_adjustment,
    process_allocation_batch, redistribute_capital, update_strategy_allocation,
    validate_allocations, AllocationOutcome, AllocationResult, AllocationType, CapitalAllocation,
    CapitalAllocationEvent, RedistributionCompletedEvent, RiskLimits, StrategyPerformanceData,
};
pub use errors::RebalancerError;
pub use plan::{calculate_expected_improvement, execute_complete_rebalancing, RebalancingPlan};
pub use ranking::{
    assign_percentile_ranks, calculate_average_volatility, calculate_dynamic_threshold,
    calculate_percentile_rankings, execute_batch_ranking, execute_ranking_cycle,
    process_all_strategies_with_ranking, should_rebalance_strategy, RankingResults, StrategyData,
};
pub use registry::{initialize_portfolio, register_strategy};
pub use scoring::{calculate_performance_score, update_performance};
pub use state::{
    Address, CapitalPosition, Portfolio, PositionType, ProtocolType, Strategy, StrategyStatus,
};
