use anchor_lang::prelude::Pubkey;
use rebalancer::{
    initialize_portfolio, register_strategy, Address, Portfolio, ProtocolType, RebalancerError,
    Strategy, StrategyStatus,
};

fn new_unique() -> Address {
    Address::new(Pubkey::new_unique().to_bytes())
}

fn fresh_portfolio() -> Portfolio {
    initialize_portfolio(new_unique(), 25, 3600, 1000, 254).unwrap()
}

#[test]
fn portfolio_parameter_checks() {
    assert_eq!(Portfolio::validate_rebalance_threshold(0), Err(RebalancerError::InvalidRebalanceThreshold));
    assert_eq!(Portfolio::validate_rebalance_threshold(1), Ok(()));
    assert_eq!(Portfolio::validate_rebalance_threshold(50), Ok(()));
    assert_eq!(Portfolio::validate_rebalance_threshold(51), Err(RebalancerError::InvalidRebalanceThreshold));
    assert_eq!(Portfolio::validate_min_interval(3599), Err(RebalancerError::InvalidRebalanceInterval));
    assert_eq!(Portfolio::validate_min_interval(3600), Ok(()));
    assert_eq!(Portfolio::validate_min_interval(86400), Ok(()));
    assert_eq!(Portfolio::validate_min_interval(86401), Err(RebalancerError::InvalidRebalanceInterval));
}

#[test]
fn strategy_metric_checks() {
    assert_eq!(Strategy::validate_yield_rate(50000), Ok(()));
    assert_eq!(Strategy::validate_yield_rate(50001), Err(RebalancerError::InvalidAllocationPercentage));
    assert_eq!(Strategy::validate_volatility_score(10000), Ok(()));
    assert_eq!(Strategy::validate_volatility_score(10001), Err(RebalancerError::InvalidAllocationPercentage));
    assert_eq!(Strategy::validate_balance_update(u64::MAX / 1000 - 1), Ok(()));
    assert_eq!(Strategy::validate_balance_update(u64::MAX / 1000), Err(RebalancerError::MathOverflow));
}

#[test]
fn can_rebalance_waits_for_interval_and_pause() {
    let mut p = fresh_portfolio();
    assert!(!p.can_rebalance(4599));
    assert!(p.can_rebalance(4600));
    p.emergency_pause = true;
    assert!(!p.can_rebalance(4600));
    p.emergency_pause = false;
    p.last_rebalance = i64::MAX - 10;
    // the end of the interval saturates at the largest time
    assert!(!p.can_rebalance(i64::MAX - 1));
    assert!(p.can_rebalance(i64::MAX));
}

#[test]
fn protocol_validation_order() {
    let zero = Address::zero();
    let ok_lending = ProtocolType::StableLending { pool_id: new_unique(), utilization: 10000, reserve_address: new_unique() };
    assert_eq!(ok_lending.validate(), Ok(()));
    let bad = ProtocolType::StableLending { pool_id: zero, utilization: 20000, reserve_address: new_unique() };
    assert_eq!(bad.validate(), Err(RebalancerError::InvalidProtocolType));
    let bad = ProtocolType::StableLending { pool_id: new_unique(), utilization: 10001, reserve_address: new_unique() };
    assert_eq!(bad.validate(), Err(RebalancerError::InvalidAllocationPercentage));

    let mint = new_unique();
    let same_mints = ProtocolType::YieldFarming {
        pair_id: new_unique(),
        reward_multiplier: 3,
        token_a_mint: mint,
        token_b_mint: mint,
        fee_tier: 300,
    };
    assert_eq!(same_mints.validate(), Err(RebalancerError::InvalidTokenMint));
    let zero_mint = ProtocolType::YieldFarming {
        pair_id: new_unique(),
        reward_multiplier: 3,
        token_a_mint: new_unique(),
        token_b_mint: zero,
        fee_tier: 300,
    };
    assert_eq!(zero_mint.validate(), Err(RebalancerError::InvalidTokenMint));
    let bad_multiplier = ProtocolType::YieldFarming {
        pair_id: new_unique(),
        reward_multiplier: 11,
        token_a_mint: new_unique(),
        token_b_mint: new_unique(),
        fee_tier: 300,
    };
    assert_eq!(bad_multiplier.validate(), Err(RebalancerError::InvalidAllocationPercentage));
    let zero_pair = ProtocolType::YieldFarming {
        pair_id: zero,
        reward_multiplier: 0,
        token_a_mint: zero,
        token_b_mint: zero,
        fee_tier: 5000,
    };
    assert_eq!(zero_pair.validate(), Err(RebalancerError::InvalidProtocolType));

    let ok_staking = ProtocolType::LiquidStaking { validator_id: new_unique(), commission: 1000, stake_pool: new_unique(), unstake_delay: 50 };
    assert_eq!(ok_staking.validate(), Ok(()));
    let bad = ProtocolType::LiquidStaking { validator_id: new_unique(), commission: 1000, stake_pool: new_unique(), unstake_delay: 51 };
    assert_eq!(bad.validate(), Err(RebalancerError::InvalidAllocationPercentage));
    let bad = ProtocolType::LiquidStaking { validator_id: new_unique(), commission: 0, stake_pool: zero, unstake_delay: 0 };
    assert_eq!(bad.validate(), Err(RebalancerError::InvalidProtocolType));
}

#[test]
fn protocol_names() {
    let zero = Address::zero();
    assert_eq!(
        ProtocolType::StableLending { pool_id: zero, utilization: 0, reserve_address: zero }.get_protocol_name(),
        "Stable Lending"
    );
    assert_eq!(
        ProtocolType::YieldFarming { pair_id: zero, reward_multiplier: 1, token_a_mint: zero, token_b_mint: zero, fee_tier: 0 }
            .get_protocol_name(),
        "Yield Farming"
    );
    assert_eq!(
        ProtocolType::LiquidStaking { validator_id: zero, commission: 0, stake_pool: zero, unstake_delay: 0 }.get_protocol_name(),
        "Liquid Staking"
    );
}

#[test]
fn address_comparisons() {
    let a = new_unique();
    let b = new_unique();
    assert!(a.same_as(&a));
    assert!(!a.same_as(&b));
    assert!(Address::zero().is_zero());
    assert!(!a.is_zero());
    assert_eq!(Address::new([7u8; 32]).bytes, [7u8; 32]);
}

#[test]
fn initialize_portfolio_sets_fields() {
    let manager = new_unique();
    let p = initialize_portfolio(manager, 25, 3600, 1000, 254).unwrap();
    assert_eq!(p.manager, manager);
    assert_eq!(p.rebalance_threshold, 25);
    assert_eq!(p.total_strategies, 0);
    assert_eq!(p.last_rebalance, 1000);
    assert_eq!(p.portfolio_creation, 1000);
    assert_eq!(p.performance_fee_bps, 200);
    assert!(!p.emergency_pause);
    assert_eq!(p.reserved, [0u8; 31]);
    assert_eq!(initialize_portfolio(manager, 0, 3600, 1, 1).unwrap_err(), RebalancerError::InvalidRebalanceThreshold);
    assert_eq!(initialize_portfolio(manager, 10, 100, 1, 1).unwrap_err(), RebalancerError::InvalidRebalanceInterval);
}

#[test]
fn register_strategy_counts_and_checks() {
    let mut p = fresh_portfolio();
    let id = new_unique();
    let protocol = ProtocolType::LiquidStaking { validator_id: new_unique(), commission: 100, stake_pool: new_unique(), unstake_delay: 5 };
    let s = register_strategy(&mut p, id, protocol, 5_000, 2000, 9).unwrap();
    assert_eq!(s.strategy_id, id);
    assert_eq!(s.status, StrategyStatus::Active);
    assert_eq!(s.current_balance, 5_000);
    assert_eq!(s.total_deposits, 5_000);
    assert_eq!(s.creation_time, 2000);
    assert_eq!(p.total_strategies, 1);
    assert_eq!(p.total_capital_moved, 5_000);

    let bad = ProtocolType::LiquidStaking { validator_id: new_unique(), commission: 2000, stake_pool: new_unique(), unstake_delay: 5 };
    assert_eq!(register_strategy(&mut p, id, bad, 1, 1, 1).unwrap_err(), RebalancerError::InvalidAllocationPercentage);
    assert_eq!(register_strategy(&mut p, id, protocol, u64::MAX, 1, 1).unwrap_err(), RebalancerError::MathOverflow);
    p.emergency_pause = true;
    assert_eq!(register_strategy(&mut p, id, protocol, 1, 1, 1).unwrap_err(), RebalancerError::EmergencyPauseActive);
    p.emergency_pause = false;
    p.total_strategies = u32::MAX;
    assert_eq!(register_strategy(&mut p, id, protocol, 1, 1, 1).unwrap_err(), RebalancerError::MathOverflow);
    assert_eq!(p.total_capital_moved, 5_000);
}
