use vstd::prelude::*;

verus! {

/// Every way an engine call can fail; a failed call changes nothing.
#[derive(Clone, Copy, Debug, PartialEq, Eq, Structural)]
pub enum RebalancerError {
    InvalidManager,
    InvalidRebalanceThreshold,
    InvalidRebalanceInterval,
    RebalanceIntervalNotMet,
    DeviationBelowThreshold,
    StrategyAlreadyExists,
    StrategyNotFound,
    InvalidProtocolType,
    InsufficientBalance,
    MathOverflow,
    DivisionByZero,
    InvalidTokenMint,
    TokenAccountOwnerMismatch,
    Unauthorized,
    PortfolioNotInitialized,
    InvalidAllocationPercentage,
    InvalidTotalAllocation,
    EmergencyPauseActive,
    ExcessiveYieldRate,
    BalanceOverflow,
    InvalidVolatilityScore,
    InvalidPoolId,
    InvalidReserveAddress,
    InvalidUtilization,
    InvalidPairId,
    DuplicateTokenMints,
    InvalidRewardMultiplier,
    InvalidFeeTier,
    InvalidValidatorId,
    InvalidStakePool,
    InvalidCommission,
    InvalidUnstakeDelay,
    InsufficientStrategies,
    TooManyStrategies,
    InvalidPerformanceScore,
    DuplicateStrategy,
}

} // verus!
