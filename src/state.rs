use vstd::prelude::*;

use crate::errors::RebalancerError;

verus! {

/// Opaque 32-byte identifier of a strategy, a manager or a treasury.
#[derive(Clone, Copy, Debug, PartialEq, Eq, Hash)]
pub struct Address {
    pub bytes: [u8; 32],
}

/// The all-zero identifier, which names nothing.
pub open spec fn zero_address() -> Address {
    Address { bytes: vstd::array::spec_array_fill_for_copy_type(0u8) }
}

impl Address {
    pub open spec fn view(&self) -> Seq<u8> {
        self.bytes@
    }

    /// The all-zero identifier, which names nothing.
    pub open spec fn is_zero_spec(&self) -> bool {
        forall|i: int| 0 <= i < 32 ==> #[trigger] self@[i] == 0u8
    }

    pub fn new(bytes: [u8; 32]) -> (r: Address)
        ensures
            r@ == bytes@,
    {
        Address { bytes }
    }

    pub fn zero() -> (r: Address)
        ensures
            r == zero_address(),
            r.is_zero_spec(),
    {
        let bytes: [u8; 32] = vstd::array::array_fill_for_copy_types(0u8);
        let r = Address { bytes };
        assert(r.is_zero_spec());
        r
    }

    pub fn is_zero(&self) -> (r: bool)
        ensures
            r == self.is_zero_spec(),
    {
        let mut i: usize = 0;
        while i < 32
            invariant
                0 <= i <= 32,
                self@.len() == 32,
                forall|j: int| 0 <= j < i ==> #[trigger] self@[j] == 0u8,
            decreases 32 - i,
        {
            if self.bytes[i] != 0 {
                return false;
            }
            i = i + 1;
        }
        true
    }

    /// Byte-wise equality.
    pub fn same_as(&self, other: &Address) -> (r: bool)
        ensures
            r == (self@ == other@),
    {
        let mut i: usize = 0;
        while i < 32
            invariant
                0 <= i <= 32,
                self@.len() == 32,
                other@.len() == 32,
                forall|j: int| 0 <= j < i ==> #[trigger] self@[j] == other@[j],
            decreases 32 - i,
        {
            if self.bytes[i] != other.bytes[i] {
                return false;
            }
            i = i + 1;
        }
        assert(self@ =~= other@);
        true
    }
}

/// Configuration and bookkeeping of one managed portfolio.
#[derive(Clone, Copy, Debug)]
pub struct Portfolio {
    pub manager: Address,
    /// Bottom percentile (1 to 50) considered for reallocation.
    pub rebalance_threshold: u8,
    pub total_strategies: u32,
    pub total_capital_moved: u64,
    pub last_rebalance: i64,
    pub min_rebalance_interval: i64,
    pub portfolio_creation: i64,
    pub emergency_pause: bool,
    pub performance_fee_bps: u16,
    pub bump: u8,
    pub reserved: [u8; 31],
}

/// Snapshot of one strategy.
#[derive(Clone, Copy, Debug)]
pub struct Strategy {
    pub strategy_id: Address,
    pub protocol_type: ProtocolType,
    /// Capital currently allocated, in the smallest currency unit.
    pub current_balance: u64,
    /// Annual yield in basis points (0 to 50000).
    pub yield_rate: u64,
    /// Risk metric, 0 to 10000 (hundredths of a percent).
    pub volatility_score: u32,
    pub performance_score: u64,
    /// Position among peers, 0 (worst) to 100 (best).
    pub percentile_rank: u8,
    pub last_updated: i64,
    pub status: StrategyStatus,
    pub total_deposits: u64,
    pub total_withdrawals: u64,
    pub creation_time: i64,
    pub bump: u8,
    pub reserved: [u8; 23],
}

/// Protocol family of a strategy, with the parameters of that family.
#[derive(Clone, Copy, Debug)]
pub enum ProtocolType {
    StableLending { pool_id: Address, utilization: u16, reserve_address: Address },
    YieldFarming {
        pair_id: Address,
        reward_multiplier: u8,
        token_a_mint: Address,
        token_b_mint: Address,
        fee_tier: u16,
    },
    LiquidStaking { validator_id: Address, commission: u16, stake_pool: Address, unstake_delay: u32 },
}

#[derive(Clone, Copy, Debug, PartialEq, Eq, Structural)]
pub enum StrategyStatus {
    Active,
    Paused,
    Deprecated,
}

/// Holdings of one strategy position.
#[derive(Clone, Copy, Debug)]
pub struct CapitalPosition {
    pub strategy_id: Address,
    pub token_a_amount: u64,
    pub token_b_amount: u64,
    pub lp_tokens: u64,
    pub platform_controlled_lp: u64,
    pub position_type: PositionType,
    pub entry_price_a: u64,
    pub entry_price_b: u64,
    pub last_rebalance: i64,
    pub accrued_fees: u64,
    pub impermanent_loss: i64,
    pub bump: u8,
    pub reserved: [u8; 15],
}

#[derive(Clone, Copy, Debug, PartialEq, Eq, Structural)]
pub enum PositionType {
    SingleAsset,
    LiquidityPair,
    StakedPosition,
}

/// Largest yield rate, in basis points, that a strategy may report.
pub const MAX_YIELD_RATE: u64 = 50000;

/// Largest volatility score (100.00%).
pub const MAX_VOLATILITY_SCORE: u32 = 10000;

/// Balances must stay below this bound, which leaves headroom for
/// fixed-point products.
pub const BALANCE_LIMIT: u64 = 18446744073709551;

/// The moment at which the interval since the last rebalance has elapsed:
/// `last + interval`, saturated to the range of `i64`.
pub open spec fn interval_end(last: i64, interval: i64) -> int {
    if last + interval > i64::MAX {
        i64::MAX as int
    } else if last + interval < i64::MIN {
        i64::MIN as int
    } else {
        last + interval
    }
}

impl Portfolio {
    pub open spec fn can_rebalance_spec(&self, current_time: i64) -> bool {
        !self.emergency_pause && current_time >= interval_end(
            self.last_rebalance,
            self.min_rebalance_interval,
        )
    }

    pub fn validate_rebalance_threshold(threshold: u8) -> (r: Result<(), RebalancerError>)
        ensures
            r is Ok <==> 1 <= threshold <= 50,
            r is Err ==> r == Err::<(), _>(RebalancerError::InvalidRebalanceThreshold),
    {
        if 1 <= threshold && threshold <= 50 {
            Ok(())
        } else {
            Err(RebalancerError::InvalidRebalanceThreshold)
        }
    }

    /// A cycle may run when the portfolio is not paused and the minimum
    /// interval since the last rebalance has elapsed.
    pub fn can_rebalance(&self, current_time: i64) -> (r: bool)
        ensures
            r == self.can_rebalance_spec(current_time),
    {
        let sum: i128 = self.last_rebalance as i128 + self.min_rebalance_interval as i128;
        let end: i64 = if sum > i64::MAX as i128 {
            i64::MAX
        } else if sum < i64::MIN as i128 {
            i64::MIN
        } else {
            sum as i64
        };
        !self.emergency_pause && current_time >= end
    }

    pub fn validate_min_interval(interval: i64) -> (r: Result<(), RebalancerError>)
        ensures
            r is Ok <==> 3600 <= interval <= 86400,
            r is Err ==> r == Err::<(), _>(RebalancerError::InvalidRebalanceInterval),
    {
        if 3600 <= interval && interval <= 86400 {
            Ok(())
        } else {
            Err(RebalancerError::InvalidRebalanceInterval)
        }
    }
}

impl Strategy {
    pub fn validate_yield_rate(rate: u64) -> (r: Result<(), RebalancerError>)
        ensures
            r is Ok <==> rate <= MAX_YIELD_RATE,
            r is Err ==> r == Err::<(), _>(RebalancerError::InvalidAllocationPercentage),
    {
        if rate <= MAX_YIELD_RATE {
            Ok(())
        } else {
            Err(RebalancerError::InvalidAllocationPercentage)
        }
    }

    pub fn validate_balance_update(new_balance: u64) -> (r: Result<(), RebalancerError>)
        ensures
            r is Ok <==> new_balance < BALANCE_LIMIT,
            r is Err ==> r == Err::<(), _>(RebalancerError::MathOverflow),
    {
        if new_balance < BALANCE_LIMIT {
            Ok(())
        } else {
            Err(RebalancerError::MathOverflow)
        }
    }

    pub fn validate_volatility_score(score: u32) -> (r: Result<(), RebalancerError>)
        ensures
            r is Ok <==> score <= MAX_VOLATILITY_SCORE,
            r is Err ==> r == Err::<(), _>(RebalancerError::InvalidAllocationPercentage),
    {
        if score <= MAX_VOLATILITY_SCORE {
            Ok(())
        } else {
            Err(RebalancerError::InvalidAllocationPercentage)
        }
    }
}

impl ProtocolType {
    /// The outcome of checking a protocol configuration: the checks of each
    /// family run in a fixed order and the first that fails names the error.
    pub open spec fn validate_spec(&self) -> Result<(), RebalancerError> {
        match *self {
            ProtocolType::StableLending { pool_id, utilization, reserve_address } => {
                if pool_id.is_zero_spec() || reserve_address.is_zero_spec() {
                    Err(RebalancerError::InvalidProtocolType)
                } else if utilization > 10000 {
                    Err(RebalancerError::InvalidAllocationPercentage)
                } else {
                    Ok(())
                }
            },
            ProtocolType::YieldFarming {
                pair_id,
                reward_multiplier,
                token_a_mint,
                token_b_mint,
                fee_tier,
            } => {
                if pair_id.is_zero_spec() {
                    Err(RebalancerError::InvalidProtocolType)
                } else if token_a_mint.is_zero_spec() || token_b_mint.is_zero_spec() || token_a_mint@
                    == token_b_mint@ {
                    Err(RebalancerError::InvalidTokenMint)
                } else if reward_multiplier < 1 || reward_multiplier > 10 || fee_tier > 1000 {
                    Err(RebalancerError::InvalidAllocationPercentage)
                } else {
                    Ok(())
                }
            },
            ProtocolType::LiquidStaking { validator_id, commission, stake_pool, unstake_delay } => {
                if validator_id.is_zero_spec() || stake_pool.is_zero_spec() {
                    Err(RebalancerError::InvalidProtocolType)
                } else if commission > 1000 || unstake_delay > 50 {
                    Err(RebalancerError::InvalidAllocationPercentage)
                } else {
                    Ok(())
                }
            },
        }
    }

    pub fn validate(&self) -> (r: Result<(), RebalancerError>)
        ensures
            r == self.validate_spec(),
    {
        match self {
            ProtocolType::StableLending { pool_id, utilization, reserve_address } => {
                if pool_id.is_zero() || reserve_address.is_zero() {
                    return Err(RebalancerError::InvalidProtocolType);
                }
                if *utilization > 10000 {
                    return Err(RebalancerError::InvalidAllocationPercentage);
                }
                Ok(())
            },
            ProtocolType::YieldFarming {
                pair_id,
                reward_multiplier,
                token_a_mint,
                token_b_mint,
                fee_tier,
            } => {
                if pair_id.is_zero() {
                    return Err(RebalancerError::InvalidProtocolType);
                }
                if token_a_mint.is_zero() || token_b_mint.is_zero() || token_a_mint.same_as(
                    token_b_mint,
                ) {
                    return Err(RebalancerError::InvalidTokenMint);
                }
                if *reward_multiplier < 1 || *reward_multiplier > 10 || *fee_tier > 1000 {
                    return Err(RebalancerError::InvalidAllocationPercentage);
                }
                Ok(())
            },
            ProtocolType::LiquidStaking { validator_id, commission, stake_pool, unstake_delay } => {
                if validator_id.is_zero() || stake_pool.is_zero() {
                    return Err(RebalancerError::InvalidProtocolType);
                }
                if *commission > 1000 || *unstake_delay > 50 {
                    return Err(RebalancerError::InvalidAllocationPercentage);
                }
                Ok(())
            },
        }
    }

    pub fn get_protocol_name(&self) -> (r: &'static str)
        ensures
            self is StableLending ==> r@ == "Stable Lending"@,
            self is YieldFarming ==> r@ == "Yield Farming"@,
            self is LiquidStaking ==> r@ == "Liquid Staking"@,
    {
        match self {
            ProtocolType::StableLending { .. } => "Stable Lending",
            ProtocolType::YieldFarming { .. } => "Yield Farming",
            ProtocolType::LiquidStaking { .. } => "Liquid Staking",
        }
    }
}

} // verus!
