use std::collections::HashMap;

use anchor_lang::prelude::Pubkey;
use rebalancer::{
    allocate_with_remainder, calculate_expected_improvement, calculate_optimal_allocation, calculate_risk_adjustment,
    execute_complete_rebalancing, process_allocation_batch, redistribute_capital,
    update_strategy_allocation, validate_allocations, Address, AllocationType, CapitalAllocation,
    Portfolio, ProtocolType, RebalancerError, RiskLimits, StrategyPerformanceData,
};

fn new_unique() -> Address {
    Address::new(Pubkey::new_unique().to_bytes())
}

fn lending() -> ProtocolType {
    ProtocolType::StableLending { pool_id: new_unique(), utilization: 7500, reserve_address: new_unique() }
}

fn farming() -> ProtocolType {
    ProtocolType::YieldFarming {
        pair_id: new_unique(),
        reward_multiplier: 3,
        token_a_mint: new_unique(),
        token_b_mint: new_unique(),
        fee_tier: 300,
    }
}

fn staking() -> ProtocolType {
    ProtocolType::LiquidStaking {
        validator_id: new_unique(),
        commission: 500,
        stake_pool: new_unique(),
        unstake_delay: 10,
    }
}

fn candidate(score: u64, balance: u64, volatility: u32, protocol_type: ProtocolType, rank: u8) -> StrategyPerformanceData {
    StrategyPerformanceData {
        strategy_id: new_unique(),
        performance_score: score,
        current_balance: balance,
        volatility_score: volatility,
        protocol_type,
        percentile_rank: rank,
    }
}

fn portfolio() -> Portfolio {
    Portfolio {
        manager: new_unique(),
        rebalance_threshold: 25,
        total_strategies: 5,
        total_capital_moved: 0,
        last_rebalance: 0,
        min_rebalance_interval: 3600,
        portfolio_creation: 0,
        emergency_pause: false,
        performance_fee_bps: 200,
        bump: 255,
        reserved: [0u8; 31],
    }
}

fn record(amount: u64, allocation_type: AllocationType) -> CapitalAllocation {
    CapitalAllocation { strategy_id: new_unique(), amount, allocation_type }
}

fn three_candidates() -> Vec<StrategyPerformanceData> {
    vec![
        candidate(8000, 1_000_000_000, 2000, lending(), 90),
        candidate(7000, 2_000_000_000, 3000, farming(), 85),
        candidate(6000, 500_000_000, 4000, staking(), 80),
    ]
}

#[test]
fn test_optimal_allocation_calculation() {
    let available_capital = 10_000_000_000u64;
    let top_strategies = three_candidates();
    let risk_limits = RiskLimits::default();
    let allocations =
        calculate_optimal_allocation(available_capital, &top_strategies, &risk_limits).unwrap();

    assert!(!allocations.is_empty());
    let total_allocated: u64 = allocations.iter().map(|a| a.amount).sum();
    assert!(total_allocated <= available_capital);

    let strategy_allocations: HashMap<Address, u64> = allocations
        .iter()
        .filter(|a| {
            matches!(a.allocation_type, AllocationType::TopPerformer | AllocationType::RiskDiversification)
        })
        .map(|a| (a.strategy_id, a.amount))
        .collect();
    if strategy_allocations.len() >= 2 {
        let top_strategy_allocation =
            strategy_allocations.get(&top_strategies[0].strategy_id).unwrap_or(&0);
        let second_strategy_allocation =
            strategy_allocations.get(&top_strategies[1].strategy_id).unwrap_or(&0);
        assert!(top_strategy_allocation >= second_strategy_allocation);
    }
    for allocation in &allocations {
        println!("  Amount: {}, Type: {:?}", allocation.amount, allocation.allocation_type);
    }
}

#[test]
fn test_risk_adjustment_calculation() {
    let risk_limits = RiskLimits::default();
    let low_vol_adjustment = calculate_risk_adjustment(1000, &risk_limits);
    let high_vol_adjustment = calculate_risk_adjustment(8000, &risk_limits);
    assert!(low_vol_adjustment > high_vol_adjustment);
    assert!(low_vol_adjustment <= 15000);
    assert!(high_vol_adjustment >= 5000);
}

#[test]
fn test_rebalancing_plan_generation() {
    let portfolio = portfolio();
    let strategies = vec![
        candidate(9000, 5_000_000_000, 1500, lending(), 95),
        StrategyPerformanceData {
            strategy_id: new_unique(),
            performance_score: 2000,
            current_balance: 2_000_000_000,
            volatility_score: 8500,
            protocol_type: ProtocolType::YieldFarming {
                pair_id: new_unique(),
                reward_multiplier: 1,
                token_a_mint: new_unique(),
                token_b_mint: new_unique(),
                fee_tier: 1000,
            },
            percentile_rank: 15,
        },
    ];
    let plan = execute_complete_rebalancing(&portfolio, &strategies).unwrap();
    assert!(!plan.extraction_targets.is_empty());
    assert!(!plan.redistribution_plan.is_empty());
    assert!(plan.total_to_extract > 0);
    assert!(plan.estimated_fees > 0);
}

#[test]
fn plan_values_are_exact() {
    let strategies = vec![
        candidate(9000, 5_000_000_000, 1500, lending(), 95),
        candidate(2000, 2_000_000_000, 8500, farming(), 15),
    ];
    let plan = execute_complete_rebalancing(&portfolio(), &strategies).unwrap();
    assert_eq!(plan.extraction_targets, vec![strategies[1].strategy_id]);
    assert_eq!(plan.total_to_extract, 1_990_000_000);
    assert_eq!(plan.estimated_fees, 39_800_000);
    assert_eq!(plan.expected_improvement, 1350);
    assert_eq!(plan.unallocated_capital, 0);
    let amounts: Vec<u64> = plan.redistribution_plan.iter().map(|a| a.amount).collect();
    // 0.5% and 1.5% fees; the 40% cap times 108%, then the leftover joins it
    assert_eq!(amounts, vec![9_950_000, 29_850_000, 1_950_200_000]);
    assert_eq!(plan.redistribution_plan[2].strategy_id, strategies[0].strategy_id);
    assert_eq!(plan.redistribution_plan[2].allocation_type, AllocationType::TopPerformer);
}

#[test]
fn plan_failures() {
    let only_top = vec![candidate(9000, 5_000_000_000, 1500, lending(), 95)];
    assert_eq!(
        execute_complete_rebalancing(&portfolio(), &only_top).unwrap_err(),
        RebalancerError::InsufficientStrategies
    );
    let only_under = vec![candidate(2000, 2_000_000_000, 8500, farming(), 15)];
    assert_eq!(
        execute_complete_rebalancing(&portfolio(), &only_under).unwrap_err(),
        RebalancerError::InsufficientStrategies
    );
    // 109_999_999 - 10_000_000 lies below the 0.1 unit floor
    let small = vec![
        candidate(9000, 5_000_000_000, 1500, lending(), 95),
        candidate(2000, 109_999_999, 8500, farming(), 15),
    ];
    assert_eq!(
        execute_complete_rebalancing(&portfolio(), &small).unwrap_err(),
        RebalancerError::InsufficientBalance
    );
    let zero_scores = vec![
        candidate(0, 5_000_000_000, 1500, lending(), 95),
        candidate(2000, 2_000_000_000, 8500, farming(), 15),
    ];
    assert_eq!(
        execute_complete_rebalancing(&portfolio(), &zero_scores).unwrap_err(),
        RebalancerError::InvalidPerformanceScore
    );
}

#[test]
fn plan_takes_the_best_five_top_performers() {
    let mut strategies: Vec<StrategyPerformanceData> =
        (0..5).map(|_| candidate(1000, 5_000_000_000, 1500, lending(), 80)).collect();
    strategies.push(candidate(9000, 5_000_000_000, 1500, lending(), 100));
    strategies.push(candidate(2000, 20_000_000_000, 8500, farming(), 15));
    let plan = execute_complete_rebalancing(&portfolio(), &strategies).unwrap();
    // (9000 + 4 * 1000) / 5 = 2600; 15% of it
    assert_eq!(plan.expected_improvement, 390);
    // best first: the rank-100 strategy leads; of the equal rank-80 ones the
    // last given is left out
    assert_eq!(plan.redistribution_plan[2].strategy_id, strategies[5].strategy_id);
    for a in &plan.redistribution_plan {
        assert!(strategies[4].strategy_id != a.strategy_id);
    }
    let total: u64 = plan.redistribution_plan.iter().map(|a| a.amount).sum();
    assert_eq!(total + plan.unallocated_capital, plan.total_to_extract);
}

#[test]
fn top_performers_tie_break_by_score_balance_volatility() {
    let a = candidate(5000, 100, 3000, lending(), 90);
    let b = candidate(5000, 100, 2000, lending(), 90);
    let c = candidate(5000, 200, 9000, lending(), 90);
    let d = candidate(6000, 1, 9000, lending(), 90);
    let e = candidate(9999, 1, 0, lending(), 76);
    let f = candidate(1, 1, 0, lending(), 91);
    let under = candidate(2000, 20_000_000_000, 8500, farming(), 15);
    let strategies = vec![a, b, c, d, e, f, under];
    let plan = execute_complete_rebalancing(&portfolio(), &strategies).unwrap();
    // chosen f, d, c, b, a; e (lowest percentile) is left out
    assert_eq!(plan.expected_improvement, (1 + 6000 + 5000 * 3) / 5 * 15 / 100);
    for r in &plan.redistribution_plan {
        assert!(e.strategy_id != r.strategy_id);
    }
}

#[test]
fn allocation_amounts_are_exact_and_conserve_capital() {
    let capital = 10_000_000_000u64;
    let cands = three_candidates();
    let allocations = calculate_optimal_allocation(capital, &cands, &RiskLimits::default()).unwrap();
    let amounts: Vec<u64> = allocations.iter().map(|a| a.amount).collect();
    assert_eq!(amounts, vec![50_000_000, 150_000_000, 6_894_758_401, 1_893_546_666, 1_011_694_933]);
    let kinds: Vec<AllocationType> = allocations.iter().map(|a| a.allocation_type).collect();
    assert_eq!(
        kinds,
        vec![
            AllocationType::PlatformFee,
            AllocationType::ManagerIncentive,
            AllocationType::TopPerformer,
            AllocationType::TopPerformer,
            AllocationType::TopPerformer,
        ]
    );
    assert_eq!(amounts.iter().sum::<u64>(), capital);
}

#[test]
fn fourth_placed_strategy_is_diversification() {
    let cands: Vec<StrategyPerformanceData> =
        (0..4).map(|_| candidate(5000, 1, 0, lending(), 90)).collect();
    let limits = RiskLimits { risk_tolerance_bps: 10000, ..RiskLimits::default() };
    let allocations = calculate_optimal_allocation(100_000_000_000, &cands, &limits).unwrap();
    let kinds: Vec<AllocationType> =
        allocations.iter().skip(2).map(|a| a.allocation_type).collect();
    assert_eq!(
        kinds,
        vec![
            AllocationType::TopPerformer,
            AllocationType::TopPerformer,
            AllocationType::TopPerformer,
            AllocationType::RiskDiversification,
        ]
    );
    assert_eq!(allocations.iter().map(|a| a.amount).sum::<u64>(), 100_000_000_000);
}

#[test]
fn candidates_below_their_protocol_floor_are_skipped() {
    // the 40% cap of one unit stays below the staking floor of one unit
    let cands = vec![candidate(5000, 1, 0, staking(), 90)];
    let allocations = calculate_optimal_allocation(1_000_000_000, &cands, &RiskLimits::default()).unwrap();
    let amounts: Vec<u64> = allocations.iter().map(|a| a.amount).collect();
    assert_eq!(amounts, vec![5_000_000, 15_000_000]);
    // the same capital reaches the lending floor
    let cands = vec![candidate(5000, 1, 0, lending(), 90)];
    let allocations = calculate_optimal_allocation(1_000_000_000, &cands, &RiskLimits::default()).unwrap();
    assert_eq!(allocations.iter().map(|a| a.amount).sum::<u64>(), 1_000_000_000);
    for a in allocations.iter().skip(2) {
        assert!(a.amount >= 100_000_000);
    }
}

#[test]
fn allocation_errors() {
    let cands = three_candidates();
    let limits = RiskLimits::default();
    assert_eq!(
        calculate_optimal_allocation(0, &cands, &limits).unwrap_err(),
        RebalancerError::InsufficientBalance
    );
    assert_eq!(
        calculate_optimal_allocation(1_000, &vec![], &limits).unwrap_err(),
        RebalancerError::InsufficientStrategies
    );
    assert_eq!(
        calculate_optimal_allocation(u64::MAX, &cands, &limits).unwrap_err(),
        RebalancerError::MathOverflow
    );
    let greedy = RiskLimits { platform_fee_bps: 6000, manager_fee_bps: 6000, ..RiskLimits::default() };
    assert_eq!(
        calculate_optimal_allocation(1_000_000, &cands, &greedy).unwrap_err(),
        RebalancerError::InvalidAllocationPercentage
    );
    let c = candidate(5000, 1, 0, lending(), 90);
    let repeated = vec![c, candidate(4000, 1, 0, farming(), 85), StrategyPerformanceData { performance_score: 1, ..c }];
    assert_eq!(
        calculate_optimal_allocation(1_000_000_000, &repeated, &limits).unwrap_err(),
        RebalancerError::DuplicateStrategy
    );
    let zero = vec![candidate(0, 1, 0, lending(), 90)];
    assert_eq!(
        calculate_optimal_allocation(1_000_000, &zero, &limits).unwrap_err(),
        RebalancerError::InvalidPerformanceScore
    );
}

#[test]
fn risk_adjustment_values_and_band() {
    let limits = RiskLimits::default();
    assert_eq!(calculate_risk_adjustment(1000, &limits), 11200);
    assert_eq!(calculate_risk_adjustment(8000, &limits), 5600);
    // 5000 * 80% falls below the band and is raised to its floor
    assert_eq!(calculate_risk_adjustment(10000, &limits), 5000);
    let bold = RiskLimits { risk_tolerance_bps: 20000, ..RiskLimits::default() };
    assert_eq!(calculate_risk_adjustment(0, &bold), 15000);
    let neutral = RiskLimits { risk_tolerance_bps: 10000, ..RiskLimits::default() };
    assert_eq!(calculate_risk_adjustment(2500, &neutral), 12500);
    let mut last = u32::MAX;
    for v in (0..=12000u32).step_by(100) {
        let a = calculate_risk_adjustment(v, &limits);
        assert!(a <= last && (5000..=15000).contains(&a));
        last = a;
    }
}

#[test]
fn validate_allocations_rejects_duplicates_and_bad_amounts() {
    let a = record(10, AllocationType::TopPerformer);
    let b = record(20, AllocationType::PlatformFee);
    assert_eq!(validate_allocations(&vec![a, b]), Ok(30));
    assert_eq!(validate_allocations(&vec![]), Ok(0));
    let dup = CapitalAllocation { amount: 5, ..a };
    assert_eq!(validate_allocations(&vec![a, b, dup]), Err(RebalancerError::DuplicateStrategy));
    assert_eq!(
        validate_allocations(&vec![a, record(0, AllocationType::TopPerformer)]),
        Err(RebalancerError::InsufficientBalance)
    );
    assert_eq!(
        validate_allocations(&vec![record(u64::MAX / 1000, AllocationType::TopPerformer)]),
        Err(RebalancerError::BalanceOverflow)
    );
}

#[test]
fn update_strategy_allocation_checks_amount() {
    let id = new_unique();
    assert_eq!(update_strategy_allocation(id, 1, AllocationType::ManagerIncentive), Ok(()));
    assert_eq!(
        update_strategy_allocation(id, 0, AllocationType::TopPerformer),
        Err(RebalancerError::InsufficientBalance)
    );
    assert_eq!(
        update_strategy_allocation(id, u64::MAX / 1000, AllocationType::TopPerformer),
        Err(RebalancerError::BalanceOverflow)
    );
}

#[test]
fn batch_processing_tallies_by_purpose() {
    let mut p = portfolio();
    p.total_capital_moved = 100;
    let batch = vec![
        record(10, AllocationType::PlatformFee),
        record(20, AllocationType::ManagerIncentive),
        record(30, AllocationType::TopPerformer),
        record(40, AllocationType::RiskDiversification),
    ];
    let result = process_allocation_batch(&batch, &mut p, 77).unwrap();
    assert_eq!(result.total_allocated, 100);
    assert_eq!(result.strategies_updated, 2);
    assert_eq!(result.total_strategy_allocation, 70);
    assert_eq!(result.platform_fees, 10);
    assert_eq!(result.manager_fees, 20);
    assert_eq!(p.total_capital_moved, 200);
    assert_eq!(p.last_rebalance, 77);
}

#[test]
fn redistribution_checks_then_applies() {
    let batch = vec![record(10, AllocationType::PlatformFee), record(30, AllocationType::TopPerformer)];
    let mut paused = portfolio();
    paused.emergency_pause = true;
    assert_eq!(
        redistribute_capital(&mut paused, &batch, 5).unwrap_err(),
        RebalancerError::EmergencyPauseActive
    );
    let mut p = portfolio();
    assert_eq!(
        redistribute_capital(&mut p, &vec![], 5).unwrap_err(),
        RebalancerError::InsufficientStrategies
    );
    let many: Vec<CapitalAllocation> = (0..21).map(|_| record(1, AllocationType::TopPerformer)).collect();
    assert_eq!(redistribute_capital(&mut p, &many, 5).unwrap_err(), RebalancerError::TooManyStrategies);
    let dup = vec![batch[0], batch[0]];
    assert_eq!(redistribute_capital(&mut p, &dup, 5).unwrap_err(), RebalancerError::DuplicateStrategy);
    assert_eq!(p.total_capital_moved, 0);
    let event = redistribute_capital(&mut p, &batch, 5).unwrap();
    assert_eq!(event.total_allocated, 40);
    assert_eq!(event.strategies_updated, 1);
    assert_eq!(event.platform_fees, 10);
    assert_eq!(event.manager_fees, 0);
    assert_eq!(event.timestamp, 5);
    assert_eq!(p.total_capital_moved, 40);
    assert_eq!(p.last_rebalance, 5);
}

#[test]
fn expected_improvement_is_fifteen_percent_of_average() {
    assert_eq!(calculate_expected_improvement(&vec![]), 0);
    let top = vec![candidate(9000, 1, 0, lending(), 90), candidate(8000, 1, 0, lending(), 90)];
    assert_eq!(calculate_expected_improvement(&top), 1275);
}

#[test]
fn risk_adjustment_applies_after_the_floor_check() {
    // the second share (105_000_000) meets the lending floor, then 80% of it
    // does not; the leftover joins the first top performer instead
    let cands = vec![
        candidate(7900, 1, 0, lending(), 90),
        candidate(2100, 1, 5000, lending(), 80),
    ];
    let allocations =
        calculate_optimal_allocation(1_000_000_000, &cands, &RiskLimits::default()).unwrap();
    let amounts: Vec<u64> = allocations.iter().map(|a| a.amount).collect();
    assert_eq!(amounts, vec![5_000_000, 15_000_000, 896_000_000, 84_000_000]);
    assert_eq!(amounts.iter().sum::<u64>(), 1_000_000_000);
}

#[test]
fn extractable_capital_at_the_floor_is_enough() {
    let strategies = vec![
        candidate(9000, 5_000_000_000, 1500, lending(), 95),
        candidate(2000, 110_000_000, 8500, farming(), 15),
    ];
    let plan = execute_complete_rebalancing(&portfolio(), &strategies).unwrap();
    assert_eq!(plan.total_to_extract, 100_000_000);
    // the 40% cap (40_000_000) stays below the lending floor: only the fees go
    let amounts: Vec<u64> = plan.redistribution_plan.iter().map(|a| a.amount).collect();
    assert_eq!(amounts, vec![500_000, 1_500_000]);
    assert_eq!(plan.unallocated_capital, 98_000_000);
}

#[test]
fn remainder_is_returned_to_the_caller() {
    let cands = vec![candidate(5000, 1, 0, staking(), 90)];
    let outcome = allocate_with_remainder(1_000_000_000, &cands, &RiskLimits::default()).unwrap();
    let amounts: Vec<u64> = outcome.allocations.iter().map(|a| a.amount).collect();
    assert_eq!(amounts, vec![5_000_000, 15_000_000]);
    assert_eq!(outcome.unallocated, 980_000_000);
    // dust at or below 0.001 unit stays with the caller too
    let cands = vec![candidate(1, 1, 0, lending(), 90)];
    let outcome = allocate_with_remainder(1000, &cands, &RiskLimits::default()).unwrap();
    let amounts: Vec<u64> = outcome.allocations.iter().map(|a| a.amount).collect();
    assert_eq!(amounts, vec![5, 15]);
    assert_eq!(outcome.unallocated, 980);
    let folded = allocate_with_remainder(10_000_000_000, &three_candidates(), &RiskLimits::default()).unwrap();
    assert_eq!(folded.unallocated, 0);
}
