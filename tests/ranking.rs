use anchor_lang::prelude::Pubkey;
use rebalancer::ranking::{MAX_THRESHOLD, MIN_THRESHOLD};
use rebalancer::{
    assign_percentile_ranks, calculate_average_volatility, calculate_dynamic_threshold,
    calculate_percentile_rankings, execute_batch_ranking, execute_ranking_cycle,
    process_all_strategies_with_ranking, should_rebalance_strategy, Address, Portfolio,
    ProtocolType, RebalancerError, Strategy, StrategyData, StrategyStatus,
};

fn new_unique() -> Address {
    Address::new(Pubkey::new_unique().to_bytes())
}

fn data(score: u64, balance: u64, volatility: u32) -> StrategyData {
    StrategyData {
        strategy_id: new_unique(),
        performance_score: score,
        current_balance: balance,
        volatility_score: volatility,
        percentile_rank: 0,
        rebalance_threshold: 25,
    }
}

fn lending() -> ProtocolType {
    ProtocolType::StableLending {
        pool_id: new_unique(),
        utilization: 8000,
        reserve_address: new_unique(),
    }
}

fn strategy(balance: u64, score: u64, volatility: u32, rank: u8, status: StrategyStatus) -> Strategy {
    Strategy {
        strategy_id: new_unique(),
        protocol_type: lending(),
        current_balance: balance,
        yield_rate: 1000,
        volatility_score: volatility,
        performance_score: score,
        percentile_rank: rank,
        last_updated: 0,
        status,
        total_deposits: balance,
        total_withdrawals: 0,
        creation_time: 0,
        bump: 255,
        reserved: [0; 23],
    }
}

fn portfolio(total_strategies: u32, last_rebalance: i64, paused: bool) -> Portfolio {
    Portfolio {
        manager: new_unique(),
        rebalance_threshold: 25,
        total_strategies,
        total_capital_moved: 0,
        last_rebalance,
        min_rebalance_interval: 3600,
        portfolio_creation: 0,
        emergency_pause: paused,
        performance_fee_bps: 200,
        bump: 255,
        reserved: [0u8; 31],
    }
}

#[test]
fn test_calculate_average_volatility() {
    let strategies = vec![
        data(8000, 1_000_000_000, 2000),
        data(6000, 2_000_000_000, 5000),
        data(4000, 500_000_000, 8000),
    ];
    let avg_volatility = calculate_average_volatility(&strategies).unwrap();
    assert_eq!(avg_volatility, 50);
}

#[test]
fn test_calculate_dynamic_threshold() {
    let low_vol_strategies = vec![data(8000, 1_000_000_000, 2000)];
    let threshold = calculate_dynamic_threshold(&low_vol_strategies).unwrap();
    assert_eq!(threshold, 19);

    let high_vol_strategies = vec![data(8000, 1_000_000_000, 8000)];
    let threshold = calculate_dynamic_threshold(&high_vol_strategies).unwrap();
    assert_eq!(threshold, 31);

    let extreme_vol_strategies = vec![data(8000, 1_000_000_000, 10000)];
    let threshold = calculate_dynamic_threshold(&extreme_vol_strategies).unwrap();
    assert_eq!(threshold, 35);
}

#[test]
fn test_dynamic_threshold_bounds() {
    let zero_vol_strategies = vec![data(8000, 1_000_000_000, 0)];
    let threshold = calculate_dynamic_threshold(&zero_vol_strategies).unwrap();
    assert_eq!(threshold, 15);
    assert!(threshold >= 10);
}

#[test]
fn test_percentile_ranking_with_dynamic_threshold() {
    let mut strategies = vec![
        data(8000, 1_000_000_000, 2000),
        data(6000, 2_000_000_000, 4000),
        data(4000, 500_000_000, 6000),
    ];
    let underperformers = calculate_percentile_rankings(&mut strategies).unwrap();
    let expected_threshold = 23u8;
    assert_eq!(strategies[0].rebalance_threshold, expected_threshold);
    assert!(strategies[0].percentile_rank > strategies[1].percentile_rank);
    assert!(strategies[1].percentile_rank > strategies[2].percentile_rank);
    assert_eq!(underperformers.len(), 1);
    assert_eq!(underperformers[0], strategies[2].strategy_id);
}

#[test]
fn test_tie_breaking_logic() {
    let mut strategies = vec![
        data(5000, 2_000_000_000, 3000),
        data(5000, 1_000_000_000, 3000),
    ];
    calculate_percentile_rankings(&mut strategies).unwrap();
    assert!(strategies[0].percentile_rank > strategies[1].percentile_rank);
    assert_eq!(strategies[0].current_balance, 2_000_000_000);
}

#[test]
fn execute_ranking_test_edge_cases() {
    let mut single_strategy = vec![data(5000, 1_000_000_000, 3000)];
    let underperformers = calculate_percentile_rankings(&mut single_strategy).unwrap();
    assert_eq!(single_strategy[0].percentile_rank, 50);
    assert_eq!(underperformers.len(), 0);
    assert_eq!(single_strategy[0].rebalance_threshold, 21);
}

#[test]
fn test_real_ranking_implementation() {
    let mut strategies = vec![
        data(9500, 10_000_000_000, 1000),
        data(7500, 5_000_000_000, 3000),
        data(5000, 2_000_000_000, 5000),
        data(2500, 1_000_000_000, 7000),
    ];
    let underperformers = calculate_percentile_rankings(&mut strategies).unwrap();
    let expected_threshold = 23u8;
    assert_eq!(strategies[0].rebalance_threshold, expected_threshold);
    assert!(strategies[0].percentile_rank > strategies[1].percentile_rank);
    assert!(strategies[1].percentile_rank > strategies[2].percentile_rank);
    assert!(strategies[2].percentile_rank > strategies[3].percentile_rank);
    assert_eq!(strategies[0].percentile_rank, 100);
    assert_eq!(strategies[1].percentile_rank, 66);
    assert_eq!(strategies[2].percentile_rank, 33);
    assert_eq!(strategies[3].percentile_rank, 0);
    assert_eq!(underperformers.len(), 1);
    assert_eq!(underperformers[0], strategies[3].strategy_id);
}

#[test]
fn test_should_rebalance_strategy_logic() {
    let good_strategy = strategy(1_000_000_000, 7500, 2000, 75, StrategyStatus::Active);
    let poor_strategy = strategy(100_000_000, 2000, 8000, 10, StrategyStatus::Active);
    let inactive_strategy = strategy(1_000_000_000, 1000, 9000, 5, StrategyStatus::Paused);
    let dust_strategy = strategy(10_000_000, 1000, 9000, 5, StrategyStatus::Active);

    assert!(!should_rebalance_strategy(&good_strategy, 25));
    assert!(should_rebalance_strategy(&poor_strategy, 25));
    assert!(!should_rebalance_strategy(&inactive_strategy, 25));
    assert!(!should_rebalance_strategy(&dust_strategy, 25));

    assert!(!should_rebalance_strategy(&poor_strategy, 5));
    assert!(should_rebalance_strategy(&poor_strategy, 15));
}

#[test]
fn test_volatility_edge_cases() {
    let zero_vol_strategies = vec![data(8000, 1_000_000_000, 0)];
    let avg_vol = calculate_average_volatility(&zero_vol_strategies).unwrap();
    assert_eq!(avg_vol, 0);
    let threshold = calculate_dynamic_threshold(&zero_vol_strategies).unwrap();
    assert_eq!(threshold, 15);

    let empty_strategies: Vec<StrategyData> = vec![];
    assert!(calculate_average_volatility(&empty_strategies).is_err());
    assert!(calculate_dynamic_threshold(&empty_strategies).is_err());
}

#[test]
fn empty_input_is_insufficient_strategies() {
    let empty: Vec<StrategyData> = vec![];
    assert_eq!(calculate_average_volatility(&empty), Err(RebalancerError::InsufficientStrategies));
    assert_eq!(calculate_dynamic_threshold(&empty), Err(RebalancerError::InsufficientStrategies));
    let mut empty_mut: Vec<StrategyData> = vec![];
    assert_eq!(
        calculate_percentile_rankings(&mut empty_mut),
        Err(RebalancerError::InsufficientStrategies)
    );
}

#[test]
fn threshold_at_forty_percent_average_is_twenty_three() {
    let strategies = vec![data(1, 1, 4000), data(1, 1, 4000)];
    assert_eq!(calculate_average_volatility(&strategies), Ok(40));
    assert_eq!(calculate_dynamic_threshold(&strategies), Ok(23));
}

#[test]
fn threshold_rises_with_volatility_and_stays_in_band() {
    let mut last = 0u8;
    for v in (0..=10000u32).step_by(250) {
        let t = calculate_dynamic_threshold(&vec![data(1, 1, v)]).unwrap();
        assert!(t >= last);
        assert!(t >= MIN_THRESHOLD && t <= MAX_THRESHOLD);
        last = t;
    }
    // volatility scores beyond 100% average out at 100%
    assert_eq!(calculate_average_volatility(&vec![data(1, 1, u32::MAX)]), Ok(100));
    assert_eq!(calculate_dynamic_threshold(&vec![data(1, 1, u32::MAX)]), Ok(35));
}

#[test]
fn equal_scores_break_ties_by_balance_then_volatility() {
    let a = data(5000, 1_000, 4000);
    let b = data(5000, 1_000, 2000);
    let c = data(5000, 2_000, 9000);
    let d = data(6000, 1, 9999);
    let mut strategies = vec![a, b, c, d];
    assert_eq!(assign_percentile_ranks(&mut strategies, 23), vec![a.strategy_id]);
    let order: Vec<Address> = strategies.iter().map(|s| s.strategy_id).collect();
    assert_eq!(order, vec![d.strategy_id, c.strategy_id, b.strategy_id, a.strategy_id]);
}

#[test]
fn equal_keys_keep_input_order() {
    let a = data(5000, 1_000, 2000);
    let b = data(5000, 1_000, 2000);
    let mut strategies = vec![a, b];
    assign_percentile_ranks(&mut strategies, 10);
    assert_eq!(strategies[0].strategy_id, a.strategy_id);
    assert_eq!(strategies[1].strategy_id, b.strategy_id);
    assert_eq!(strategies[0].percentile_rank, 100);
    assert_eq!(strategies[1].percentile_rank, 0);
}

#[test]
fn ranking_twice_changes_nothing() {
    let mut strategies = vec![
        data(2500, 1_000_000_000, 7000),
        data(9500, 10_000_000_000, 1000),
        data(5000, 2_000_000_000, 5000),
        data(7500, 5_000_000_000, 3000),
        data(7500, 5_000_000_000, 3000),
        data(100, 5, 10000),
    ];
    let first = assign_percentile_ranks(&mut strategies, 23);
    let after_first: Vec<(Address, u8)> =
        strategies.iter().map(|s| (s.strategy_id, s.percentile_rank)).collect();
    let second = assign_percentile_ranks(&mut strategies, 23);
    let after_second: Vec<(Address, u8)> =
        strategies.iter().map(|s| (s.strategy_id, s.percentile_rank)).collect();
    assert_eq!(first, second);
    assert_eq!(after_first, after_second);
}

#[test]
fn large_portfolio_flags_its_quota_from_the_bottom() {
    let mut strategies: Vec<StrategyData> =
        (0..10u64).map(|i| data(1000 * (i + 1), 1_000_000_000, 2000)).collect();
    let underperformers = assign_percentile_ranks(&mut strategies, 23);
    // floor(10 * 23 / 100) = 2
    assert_eq!(underperformers, vec![strategies[8].strategy_id, strategies[9].strategy_id]);
    assert_eq!(strategies[0].percentile_rank, 100);
    assert_eq!(strategies[1].percentile_rank, 88);
    assert_eq!(strategies[9].percentile_rank, 0);

    let mut five: Vec<StrategyData> =
        (0..5u64).map(|i| data(1000 * (i + 1), 1_000_000_000, 2000)).collect();
    // floor(5 * 10 / 100) = 0, raised to one
    let underperformers = assign_percentile_ranks(&mut five, 10);
    assert_eq!(underperformers, vec![five[4].strategy_id]);
}

#[test]
fn process_all_updates_active_ranks_and_lists_candidates() {
    let mut strategies = vec![
        strategy(1_000_000_000, 9000, 2000, 0, StrategyStatus::Active),
        strategy(1_000_000_000, 8000, 2000, 7, StrategyStatus::Paused),
        strategy(2_000_000_000, 2000, 2000, 0, StrategyStatus::Active),
    ];
    let paused_before = strategies[1];
    let key = new_unique();
    let results =
        process_all_strategies_with_ranking(&key, &key, &mut strategies, 1_700_000_000).unwrap();
    assert_eq!(results.total_strategies, 3);
    assert_eq!(results.active_strategies, 2);
    assert_eq!(results.ranking_timestamp, 1_700_000_000);
    assert_eq!(strategies[0].percentile_rank, 100);
    assert_eq!(strategies[0].last_updated, 1_700_000_000);
    assert_eq!(strategies[2].percentile_rank, 0);
    assert_eq!(strategies[1].percentile_rank, paused_before.percentile_rank);
    assert_eq!(strategies[1].last_updated, 0);
    // threshold 15 + 20 * 20 / 100 = 19: the bottom one is flagged
    assert_eq!(results.underperformers, vec![strategies[2].strategy_id]);
    assert_eq!(results.rebalancing_candidates, vec![strategies[2].strategy_id]);
}

#[test]
fn process_all_needs_two_strategies() {
    let mut one = vec![strategy(1_000_000_000, 9000, 2000, 0, StrategyStatus::Active)];
    let key = new_unique();
    assert_eq!(
        process_all_strategies_with_ranking(&key, &key, &mut one, 5).unwrap_err(),
        RebalancerError::InsufficientStrategies
    );
    let mut none_active = vec![
        strategy(1_000_000_000, 9000, 2000, 0, StrategyStatus::Paused),
        strategy(1_000_000_000, 9000, 2000, 0, StrategyStatus::Deprecated),
    ];
    assert_eq!(
        process_all_strategies_with_ranking(&key, &key, &mut none_active, 5).unwrap_err(),
        RebalancerError::InsufficientStrategies
    );
}

#[test]
fn batch_ranking_needs_two_active_strategies() {
    let mut strategies = vec![
        strategy(1_000_000_000, 9000, 2000, 0, StrategyStatus::Active),
        strategy(1_000_000_000, 8000, 2000, 0, StrategyStatus::Paused),
    ];
    assert_eq!(
        execute_batch_ranking(&mut strategies, 9).unwrap_err(),
        RebalancerError::InsufficientStrategies
    );
    assert_eq!(strategies[0].last_updated, 0);
    strategies[1].status = StrategyStatus::Active;
    let results = execute_batch_ranking(&mut strategies, 9).unwrap();
    assert_eq!(results.active_strategies, 2);
    assert_eq!(strategies[0].percentile_rank, 100);
    assert_eq!(strategies[1].percentile_rank, 0);
    assert_eq!(strategies[1].last_updated, 9);
}

#[test]
fn ranking_cycle_checks_pause_interval_and_count() {
    let mut p = portfolio(2, 1000, true);
    assert_eq!(execute_ranking_cycle(&mut p, 10_000), Err(RebalancerError::EmergencyPauseActive));
    let mut p = portfolio(2, 1000, false);
    assert_eq!(execute_ranking_cycle(&mut p, 4599), Err(RebalancerError::RebalanceIntervalNotMet));
    assert_eq!(p.last_rebalance, 1000);
    let mut p = portfolio(1, 1000, false);
    assert_eq!(execute_ranking_cycle(&mut p, 4600), Err(RebalancerError::InsufficientStrategies));
    let mut p = portfolio(2, 1000, false);
    assert_eq!(execute_ranking_cycle(&mut p, 4600), Ok(()));
    assert_eq!(p.last_rebalance, 4600);
}

#[test]
fn calculating_rankings_twice_gives_the_same_outcome() {
    let mut strategies = vec![
        data(2500, 1_000_000_000, 7000),
        data(7500, 5_000_000_000, 3000),
        data(9500, 10_000_000_000, 1000),
        data(5000, 2_000_000_000, 5000),
        data(5000, 2_000_000_000, 4999),
    ];
    let first = calculate_percentile_rankings(&mut strategies).unwrap();
    let snapshot: Vec<(Address, u8, u8)> = strategies
        .iter()
        .map(|s| (s.strategy_id, s.percentile_rank, s.rebalance_threshold))
        .collect();
    let second = calculate_percentile_rankings(&mut strategies).unwrap();
    let again: Vec<(Address, u8, u8)> = strategies
        .iter()
        .map(|s| (s.strategy_id, s.percentile_rank, s.rebalance_threshold))
        .collect();
    assert_eq!(first, second);
    assert_eq!(snapshot, again);
    // (70 + 30 + 10 + 50 + 49) / 5 = 41; 15 + 41 * 20 / 100 = 23; floor(5 * 23 / 100) = 1
    assert_eq!(snapshot[0].2, 23);
    assert_eq!(first, vec![snapshot[4].0]);
}
