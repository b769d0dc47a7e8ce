use vstd::prelude::*;

use vstd::arithmetic::div_mod::lemma_div_is_ordered;
use vstd::arithmetic::mul::lemma_mul_inequality;
use vstd::arithmetic::mul::lemma_mul_upper_bound;

use crate::config::spec_stats;
use crate::variant::AutomatonVariant;

verus! {

/// Addition on `u64` that sticks at the maximum instead of wrapping.
pub open spec fn sat_add64(a: u64, b: u64) -> u64 {
    if a + b > u64::MAX {
        u64::MAX
    } else {
        (a + b) as u64
    }
}

/// Subtraction on `u64` that sticks at zero instead of wrapping.
pub open spec fn sat_sub64(a: u64, b: u64) -> u64 {
    if a < b {
        0u64
    } else {
        (a - b) as u64
    }
}

/// One step of the cost curve: multiply by `ratio` hundredths, floor, and
/// stick at `u64::MAX` on overflow.
pub open spec fn next_cost(cost: u64, ratio: u64) -> u64 {
    if cost * ratio / 100 > u64::MAX {
        u64::MAX
    } else {
        (cost * ratio / 100) as u64
    }
}

/// Price of the next unit after `owned` have been bought: `base_cost`
/// multiplied `owned` times by `ratio` hundredths, flooring after every
/// multiplication.
pub open spec fn cost_spec(base_cost: u64, ratio: u64, owned: nat) -> u64
    decreases owned,
{
    if owned == 0 {
        base_cost
    } else {
        next_cost(cost_spec(base_cost, ratio, (owned - 1) as nat), ratio)
    }
}

/// One curve step never lowers the price while the ratio is at least 1.
proof fn lemma_next_cost_ge(cost: u64, ratio: u64)
    requires
        ratio >= 100,
    ensures
        next_cost(cost, ratio) >= cost,
{
    lemma_mul_inequality(100, ratio as int, cost as int);
    assert(cost * 100 == 100 * cost) by (nonlinear_arith);
    assert(cost * ratio == ratio * cost) by (nonlinear_arith);
    lemma_div_is_ordered(cost * 100, cost * ratio, 100);
    assert(cost * 100 / 100 == cost) by (nonlinear_arith);
}

/// The price of a unit is monotonically non-decreasing in the number
/// already owned, for any ratio of at least 1.
pub proof fn lemma_cost_nondecreasing(base_cost: u64, ratio: u64, fewer: nat, more: nat)
    requires
        ratio >= 100,
        fewer <= more,
    ensures
        cost_spec(base_cost, ratio, fewer) <= cost_spec(base_cost, ratio, more),
    decreases more,
{
    if fewer < more {
        lemma_cost_nondecreasing(base_cost, ratio, fewer, (more - 1) as nat);
        lemma_next_cost_ge(cost_spec(base_cost, ratio, (more - 1) as nat), ratio);
    }
}

/// The price of a unit strictly increases with the number already owned
/// whenever the ratio is above 1 and the base cost is large enough for one
/// curve step to gain at least one whole unit of currency — until the curve
/// saturates at `u64::MAX`.
///
/// Every variant of the catalog except the Portal satisfies the premise on
/// `base_cost`; a curve such as `base_cost == 1, ratio == 101` does not, and
/// indeed stays at 1 forever there.
pub proof fn lemma_cost_strictly_increasing(base_cost: u64, ratio: u64, owned: nat)
    requires
        ratio > 100,
        base_cost * (ratio - 100) >= 100,
        cost_spec(base_cost, ratio, owned) < u64::MAX,
    ensures
        cost_spec(base_cost, ratio, owned + 1) > cost_spec(base_cost, ratio, owned),
{
    let c = cost_spec(base_cost, ratio, owned);
    lemma_cost_nondecreasing(base_cost, ratio, 0, owned);
    assert(c >= base_cost);
    lemma_mul_inequality(base_cost as int, c as int, ratio - 100);
    assert(base_cost * (ratio - 100) <= c * (ratio - 100));
    assert(c * ratio == c * 100 + c * (ratio - 100)) by (nonlinear_arith);
    assert(c * ratio >= c * 100 + 100);
    assert(c * 100 + 100 == (c + 1) * 100) by (nonlinear_arith);
    lemma_div_is_ordered((c + 1) * 100, c * ratio, 100);
    assert((c + 1) * 100 / 100 == c + 1) by (nonlinear_arith);
    assert(cost_spec(base_cost, ratio, owned + 1) == next_cost(c, ratio));
}

/// The cost curve of every variant but the Portal strictly increases with
/// each purchase until it saturates; the Portal's stays at zero.
pub proof fn lemma_catalog_cost_strict(variant: AutomatonVariant, owned: nat)
    ensures
        variant != AutomatonVariant::Portal && cost_spec(
            spec_stats(variant).base_cost,
            spec_stats(variant).ratio,
            owned,
        ) < u64::MAX ==> cost_spec(
            spec_stats(variant).base_cost,
            spec_stats(variant).ratio,
            owned + 1,
        ) > cost_spec(spec_stats(variant).base_cost, spec_stats(variant).ratio, owned),
        variant == AutomatonVariant::Portal ==> cost_spec(
            spec_stats(variant).base_cost,
            spec_stats(variant).ratio,
            owned,
        ) == 0,
    decreases owned,
{
    let stats = spec_stats(variant);
    if variant == AutomatonVariant::Portal {
        if owned > 0 {
            lemma_catalog_cost_strict(variant, (owned - 1) as nat);
        }
    } else {
        crate::config::lemma_catalog_well_formed(variant);
        if cost_spec(stats.base_cost, stats.ratio, owned) < u64::MAX {
            lemma_cost_strictly_increasing(stats.base_cost, stats.ratio, owned);
        }
    }
}

/// If one curve step leaves the price unchanged, it stays unchanged for
/// every later owned count.
proof fn lemma_cost_fixed_point(base_cost: u64, ratio: u64, at: nat, later: nat)
    requires
        at <= later,
        next_cost(cost_spec(base_cost, ratio, at), ratio) == cost_spec(base_cost, ratio, at),
    ensures
        cost_spec(base_cost, ratio, later) == cost_spec(base_cost, ratio, at),
    decreases later,
{
    if at < later {
        lemma_cost_fixed_point(base_cost, ratio, at, (later - 1) as nat);
    }
}

/// Evaluate the cost curve.
pub fn cost_curve(base_cost: u64, ratio: u64, owned: u64) -> (cost: u64)
    ensures
        cost == cost_spec(base_cost, ratio, owned as nat),
{
    let mut cost = base_cost;
    let mut bought: u64 = 0;
    while bought < owned
        invariant
            bought <= owned,
            cost == cost_spec(base_cost, ratio, bought as nat),
        ensures
            cost == cost_spec(base_cost, ratio, owned as nat),
        decreases owned - bought,
    {
        proof {
            lemma_mul_upper_bound(cost as int, u64::MAX as int, ratio as int, u64::MAX as int);
        }
        let wide = cost as u128 * ratio as u128 / 100;
        let stepped = if wide > u64::MAX as u128 {
            u64::MAX
        } else {
            wide as u64
        };
        assert(stepped == next_cost(cost, ratio));
        if stepped == cost {
            proof {
                lemma_cost_fixed_point(base_cost, ratio, bought as nat, owned as nat);
            }
            break;
        }
        cost = stepped;
        bought = bought + 1;
    }
    cost
}

} // verus!

