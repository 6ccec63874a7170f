use vstd::prelude::*;

use crate::errors::RebalancerError;
use crate::state::{Strategy, StrategyStatus, BALANCE_LIMIT, MAX_VOLATILITY_SCORE, MAX_YIELD_RATE};

verus! {

/// Below this balance (0.1 unit) the balance is normalized linearly.
pub const BALANCE_FLOOR: u64 = 100_000_000;

/// At or above this balance (100 units) the balance scores in full.
pub const BALANCE_CAP: u64 = 100_000_000_000;

/// `floor(1000 * ln(BALANCE_FLOOR))`.
pub const LN_BALANCE_FLOOR_MILLI: u64 = 18420;

/// `floor(1000 * ln(BALANCE_CAP))`.
pub const LN_BALANCE_CAP_MILLI: u64 = 25328;

/// Full scale of every normalized metric and of the composite score.
pub const SCORE_SCALE: u64 = 10000;

/// Yield rate on a 0..=10000 scale; rates above the maximum score in full.
pub open spec fn normalized_yield(yield_rate: u64) -> int {
    if yield_rate > MAX_YIELD_RATE {
        10000
    } else {
        yield_rate * 10000 / 50000
    }
}

/// Balance on a 0..=10000 scale: zero for nothing, linear below the floor,
/// full at or above the cap, and in between the position of the logarithm
/// of the balance (`ln_milli`, in thousandths) between the logarithms of the
/// floor and of the cap.
pub open spec fn normalized_balance(balance: u64, ln_milli: u64) -> int {
    if balance == 0 {
        0
    } else if balance >= BALANCE_CAP {
        10000
    } else if balance < BALANCE_FLOOR {
        balance * 1000 / BALANCE_FLOOR as int
    } else {
        let above = if ln_milli > LN_BALANCE_FLOOR_MILLI {
            ln_milli - LN_BALANCE_FLOOR_MILLI
        } else {
            0
        };
        above * 10000 / (LN_BALANCE_CAP_MILLI - LN_BALANCE_FLOOR_MILLI) as int
    }
}

/// Volatility inverted onto a 0..=10000 scale, so that calm scores high.
pub open spec fn normalized_inverse_volatility(volatility: u32) -> int {
    if volatility > MAX_VOLATILITY_SCORE {
        0
    } else {
        10000 - volatility
    }
}

/// Composite score: 45% yield, 35% balance, 20% inverse volatility, each
/// weighted term rounded down.
pub open spec fn performance_score(yield_rate: u64, balance: u64, volatility: u32, ln_milli: u64) -> int {
    normalized_yield(yield_rate) * 4500 / 10000 + normalized_balance(balance, ln_milli) * 3500
        / 10000 + normalized_inverse_volatility(volatility) * 2000 / 10000
}

/// What a caller owes for the logarithm argument: where the balance lies in
/// the logarithmic band, `ln_milli` is `floor(1000 * ln(balance))`, which
/// never exceeds the logarithm of the cap there.
pub open spec fn ln_argument_in_range(balance: u64, ln_milli: u64) -> bool {
    BALANCE_FLOOR <= balance < BALANCE_CAP ==> ln_milli <= LN_BALANCE_CAP_MILLI
}

/// Weighted composite performance score of a strategy, in `0..=10000`.
///
/// `ln_balance_milli` is `floor(1000 * ln(balance))`; it is read only when
/// the balance lies between the floor and the cap.
pub fn calculate_performance_score(
    yield_rate: u64,
    balance: u64,
    volatility: u32,
    ln_balance_milli: u64,
) -> (r: Result<u64, RebalancerError>)
    requires
        ln_argument_in_range(balance, ln_balance_milli),
    ensures
        r is Ok,
        r->Ok_0 == performance_score(yield_rate, balance, volatility, ln_balance_milli),
        r->Ok_0 <= SCORE_SCALE,
{
    let normalized_yield: u64 = if yield_rate > MAX_YIELD_RATE {
        10000
    } else {
        (yield_rate as u128 * 10000u128 / 50000u128) as u64
    };
    let normalized_balance: u64 = if balance == 0 {
        0
    } else if balance >= BALANCE_CAP {
        10000
    } else if balance < BALANCE_FLOOR {
        assert(balance * 1000 / 100_000_000 <= 1000) by (nonlinear_arith)
            requires
                balance < 100_000_000,
        ;
        (balance as u128 * 1000u128 / BALANCE_FLOOR as u128) as u64
    } else {
        let above: u64 = ln_balance_milli.saturating_sub(LN_BALANCE_FLOOR_MILLI);
        assert(above * 10000 / 6908 <= 10000) by (nonlinear_arith)
            requires
                above <= 6908,
        ;
        (above as u128 * 10000u128 / (LN_BALANCE_CAP_MILLI - LN_BALANCE_FLOOR_MILLI) as u128) as u64
    };
    assert(normalized_balance <= 10000);
    let normalized_inverse_volatility: u64 = if volatility > MAX_VOLATILITY_SCORE {
        0
    } else {
        (10000 - volatility) as u64
    };
    let yield_component = match normalized_yield.checked_mul(4500) {
        Some(p) => p / 10000,
        None => {
            return Err(RebalancerError::BalanceOverflow);
        },
    };
    let balance_component = match normalized_balance.checked_mul(3500) {
        Some(p) => p / 10000,
        None => {
            return Err(RebalancerError::BalanceOverflow);
        },
    };
    let volatility_component = match normalized_inverse_volatility.checked_mul(2000) {
        Some(p) => p / 10000,
        None => {
            return Err(RebalancerError::BalanceOverflow);
        },
    };
    let partial = match yield_component.checked_add(balance_component) {
        Some(s) => s,
        None => {
            return Err(RebalancerError::BalanceOverflow);
        },
    };
    match partial.checked_add(volatility_component) {
        Some(score) => Ok(score),
        None => Err(RebalancerError::BalanceOverflow),
    }
}

/// Records new metrics of an active strategy and recomputes its score. The
/// yield rate, volatility and balance must lie in their ranges; on failure
/// the strategy is left as it was.
pub fn update_performance(
    strategy: &mut Strategy,
    yield_rate: u64,
    volatility_score: u32,
    current_balance: u64,
    current_time: i64,
    ln_balance_milli: u64,
) -> (r: Result<(), RebalancerError>)
    requires
        ln_argument_in_range(current_balance, ln_balance_milli),
    ensures
        yield_rate > MAX_YIELD_RATE ==> r == Err::<(), RebalancerError>(
            RebalancerError::InvalidAllocationPercentage,
        ),
        yield_rate <= MAX_YIELD_RATE && volatility_score > MAX_VOLATILITY_SCORE ==> r == Err::<
            (),
            RebalancerError,
        >(RebalancerError::InvalidAllocationPercentage),
        yield_rate <= MAX_YIELD_RATE && volatility_score <= MAX_VOLATILITY_SCORE && current_balance
            >= BALANCE_LIMIT ==> r == Err::<(), RebalancerError>(RebalancerError::MathOverflow),
        yield_rate <= MAX_YIELD_RATE && volatility_score <= MAX_VOLATILITY_SCORE && current_balance
            < BALANCE_LIMIT && old(strategy).status != StrategyStatus::Active ==> r == Err::<
            (),
            RebalancerError,
        >(RebalancerError::StrategyNotFound),
        r is Ok <==> yield_rate <= MAX_YIELD_RATE && volatility_score <= MAX_VOLATILITY_SCORE
            && current_balance < BALANCE_LIMIT && old(strategy).status == StrategyStatus::Active,
        r is Ok ==> *final(strategy) == (Strategy {
            yield_rate,
            volatility_score,
            current_balance,
            last_updated: current_time,
            performance_score: performance_score(
                yield_rate,
                current_balance,
                volatility_score,
                ln_balance_milli,
            ) as u64,
            ..*old(strategy)
        }),
        r is Err ==> *final(strategy) == *old(strategy),
{
    match Strategy::validate_yield_rate(yield_rate) {
        Ok(()) => {},
        Err(e) => {
            return Err(e);
        },
    }
    match Strategy::validate_volatility_score(volatility_score) {
        Ok(()) => {},
        Err(e) => {
            return Err(e);
        },
    }
    match Strategy::validate_balance_update(current_balance) {
        Ok(()) => {},
        Err(e) => {
            return Err(e);
        },
    }
    if strategy.status != StrategyStatus::Active {
        return Err(RebalancerError::StrategyNotFound);
    }
    let score = match calculate_performance_score(
        yield_rate,
        current_balance,
        volatility_score,
        ln_balance_milli,
    ) {
        Ok(s) => s,
        Err(e) => {
            return Err(e);
        },
    };
    strategy.yield_rate = yield_rate;
    strategy.volatility_score = volatility_score;
    strategy.current_balance = current_balance;
    strategy.last_updated = current_time;
    strategy.performance_score = score;
    Ok(())
}

/// Every score lies within `[0, 10000]`; the maximal yield with a balance at
/// or above the cap and no volatility scores exactly 10000.
pub proof fn lemma_score_bounds(yield_rate: u64, balance: u64, volatility: u32, ln_milli: u64)
    requires
        ln_argument_in_range(balance, ln_milli),
    ensures
        0 <= performance_score(yield_rate, balance, volatility, ln_milli) <= SCORE_SCALE,
        yield_rate >= MAX_YIELD_RATE && balance >= BALANCE_CAP && volatility == 0
            ==> performance_score(yield_rate, balance, volatility, ln_milli) == SCORE_SCALE,
{
    let ny = normalized_yield(yield_rate);
    let nb = normalized_balance(balance, ln_milli);
    let nv = normalized_inverse_volatility(volatility);
    if yield_rate <= MAX_YIELD_RATE {
        assert(yield_rate * 10000 / 50000 <= 10000) by (nonlinear_arith)
            requires
                yield_rate <= 50000,
        ;
    }
    if balance > 0 && balance < BALANCE_FLOOR {
        assert(balance * 1000 / 100_000_000 <= 1000) by (nonlinear_arith)
            requires
                balance < 100_000_000,
        ;
    }
    if BALANCE_FLOOR <= balance < BALANCE_CAP {
        let above = if ln_milli > LN_BALANCE_FLOOR_MILLI {
            ln_milli - LN_BALANCE_FLOOR_MILLI
        } else {
            0
        };
        assert(above * 10000 / 6908 <= 10000) by (nonlinear_arith)
            requires
                0 <= above <= 6908,
        ;
    }
    assert(0 <= ny <= 10000 && 0 <= nb <= 10000 && 0 <= nv <= 10000);
    assert(ny * 4500 / 10000 + nb * 3500 / 10000 + nv * 2000 / 10000 <= 10000) by (nonlinear_arith)
        requires
            0 <= ny <= 10000,
            0 <= nb <= 10000,
            0 <= nv <= 10000,
    ;
    assert(ny * 4500 / 10000 + nb * 3500 / 10000 + nv * 2000 / 10000 >= 0) by (nonlinear_arith)
        requires
            0 <= ny,
            0 <= nb,
            0 <= nv,
    ;
}

} // verus!
