//! The score of a replay.
//!
//! The score is `max(1, round(10^6 * (log2(initial_cost) - log2(final_cost))))`.
//! The logarithms need floating point, which this crate does not touch: the
//! caller computes the rounded product and hands it in, and this module
//! decides what the score is. Where the final cost is no smaller than the
//! initial one the ratio cannot be positive, so the score is 1 whatever was
//! handed in. The formula says nothing for a cost of zero; here a final cost
//! of zero after a positive initial cost earns the largest score there is,
//! and an initial cost of zero earns 1.
use vstd::prelude::*;

verus! {

/// The score for the costs `initial_cost` and `final_cost`, where
/// `scaled_log_ratio` stands for `10^6 * (log2(initial_cost) - log2(final_cost))`,
/// rounded to an integer.
pub open spec fn score_of(initial_cost: int, final_cost: int, scaled_log_ratio: int) -> int {
    if initial_cost <= 0 || final_cost < 0 || final_cost >= initial_cost {
        1
    } else if final_cost == 0 {
        i64::MAX as int
    } else if scaled_log_ratio < 1 {
        1
    } else {
        scaled_log_ratio
    }
}

/// Computes the score of a replay from its two costs and the rounded, scaled
/// logarithm of their ratio.
///
/// `scaled_log_ratio` is read only where `0 < final_cost < initial_cost`.
pub fn score(initial_cost: i64, final_cost: i64, scaled_log_ratio: i64) -> (s: i64)
    ensures
        s == score_of(initial_cost as int, final_cost as int, scaled_log_ratio as int),
        s >= 1,
{
    if initial_cost <= 0 || final_cost < 0 || final_cost >= initial_cost {
        1
    } else if final_cost == 0 {
        i64::MAX
    } else if scaled_log_ratio < 1 {
        1
    } else {
        scaled_log_ratio
    }
}

/// A replay that leaves the cost as it was scores 1, whatever the logarithms are taken to be.
pub proof fn equal_costs_score_one(cost: int, scaled_log_ratio: int)
    ensures
        score_of(cost, cost, scaled_log_ratio) == 1,
{
}

/// With the initial cost fixed, a smaller final cost never scores less,
/// provided the scaled logarithm handed in for it is not the smaller one:
/// the floor at 1 and the treatment of a cost of zero keep the order that
/// the logarithm gives.
pub proof fn smaller_final_cost_scores_no_less(
    initial_cost: i64,
    smaller: i64,
    larger: i64,
    ratio_of_smaller: i64,
    ratio_of_larger: i64,
)
    requires
        0 <= smaller <= larger,
        ratio_of_larger <= ratio_of_smaller,
    ensures
        score_of(initial_cost as int, smaller as int, ratio_of_smaller as int) >= score_of(
            initial_cost as int,
            larger as int,
            ratio_of_larger as int,
        ),
{
}

} // verus!
