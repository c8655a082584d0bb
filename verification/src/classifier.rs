//! The rule that turns the outcome of one operator application into the next
//! state of the agent, and the test that tells a major improvement from a
//! minor one.

use crate::search_state::{Comparison, MedianRatio, SearchState};
use vstd::arithmetic::div_mod::*;
use vstd::prelude::*;

verus! {

/// The relative distance above which a new best solution counts as a major
/// improvement, and the share of improving generations among the last thousand
/// below which a first solution does: 0.01, in parts per million.
pub const SIGNIFICANCE_THRESHOLD: u64 = 10_000;

/// The absolute value of an integer.
pub open spec fn magnitude(a: int) -> int {
    if a < 0 {
        -a
    } else {
        a
    }
}

/// The relative difference of two fitness values, in parts per million and
/// rounded down: their distance over the larger of their magnitudes, and zero
/// when both are zero.
pub open spec fn relative_change(a: int, b: int) -> int {
    let larger = if magnitude(a) >= magnitude(b) {
        magnitude(a)
    } else {
        magnitude(b)
    };
    if larger == 0 {
        0
    } else {
        (magnitude(a - b) * 1_000_000) / larger
    }
}

/// The sum of the squared relative differences of the first `n` components.
pub open spec fn squared_distance_upto(a: Seq<i64>, b: Seq<i64>, n: nat) -> int
    decreases n,
{
    if n == 0 {
        0
    } else {
        squared_distance_upto(a, b, (n - 1) as nat) + relative_change(
            a[n - 1] as int,
            b[n - 1] as int,
        ) * relative_change(a[n - 1] as int, b[n - 1] as int)
    }
}

/// The square of the relative distance between two fitness vectors: the
/// squared Euclidean norm of their componentwise relative differences, over
/// the components that both have.
pub open spec fn squared_relative_distance(a: Seq<i64>, b: Seq<i64>) -> int {
    squared_distance_upto(
        a,
        b,
        if a.len() <= b.len() {
            a.len()
        } else {
            b.len()
        },
    )
}

/// Whether the relative distance between two fitness vectors exceeds the
/// significance threshold. The norm is compared by its square, so no root is taken.
pub open spec fn is_significant_distance(a: Seq<i64>, b: Seq<i64>) -> bool {
    squared_relative_distance(a, b) > SIGNIFICANCE_THRESHOLD * SIGNIFICANCE_THRESHOLD
}

/// Whether a new best solution is a significant change. Without a best
/// solution to measure against, it is one while fewer than one in a hundred of
/// the last thousand generations improved; with one, it is one when the
/// fitness vectors are further apart than the threshold.
pub open spec fn is_significant_change_spec(
    best_fitness: Option<Seq<i64>>,
    new_fitness: Seq<i64>,
    improvement_1000_ratio: u32,
) -> bool {
    match best_fitness {
        None => improvement_1000_ratio < SIGNIFICANCE_THRESHOLD,
        Some(best) => is_significant_distance(best, new_fitness),
    }
}

/// The state that follows an action, from how the new solution compares to the
/// agent's original one and to the best known one.
pub open spec fn classify_spec(
    compare_to_old: Comparison,
    compare_to_best: Comparison,
    is_significant: bool,
    ratio: MedianRatio,
) -> SearchState {
    if compare_to_best == Comparison::Less {
        if is_significant {
            SearchState::BestMajorImprovement(ratio)
        } else {
            SearchState::BestMinorImprovement(ratio)
        }
    } else if compare_to_old == Comparison::Less {
        SearchState::DiverseImprovement(ratio)
    } else {
        SearchState::Stagnated(ratio)
    }
}

fn magnitude_of(a: i64) -> (m: u64)
    ensures
        m == magnitude(a as int),
{
    if a < 0 {
        (-(a as i128)) as u64
    } else {
        a as u64
    }
}

/// The relative difference of two fitness values in parts per million.
pub fn relative_change_of(a: i64, b: i64) -> (change: u64)
    ensures
        change == relative_change(a as int, b as int),
        change <= 2_000_000,
{
    let ma = magnitude_of(a);
    let mb = magnitude_of(b);
    let larger = if ma >= mb {
        ma
    } else {
        mb
    };
    if larger == 0 {
        0
    } else {
        let wide: i128 = a as i128 - b as i128;
        let diff: u128 = if wide < 0 {
            (-wide) as u128
        } else {
            wide as u128
        };
        proof {
            assert(diff <= 2 * larger);
            assert(diff * 1_000_000 <= 2_000_000 * larger) by (nonlinear_arith)
                requires
                    diff <= 2 * larger,
            ;
            lemma_div_pos_is_pos(diff * 1_000_000, larger as int);
            lemma_div_is_ordered(diff * 1_000_000, 2_000_000 * larger, larger as int);
            lemma_div_multiples_vanish(2_000_000, larger as int);
            assert(2_000_000 * larger == larger * 2_000_000) by (nonlinear_arith);
        }
        ((diff * 1_000_000) / (larger as u128)) as u64
    }
}

/// The square of the relative distance between two fitness vectors.
pub fn squared_distance(a: &Vec<i64>, b: &Vec<i64>) -> (squared: u128)
    ensures
        squared == squared_relative_distance(a@, b@),
{
    let n = if a.len() <= b.len() {
        a.len()
    } else {
        b.len()
    };
    let mut sum: u128 = 0;
    let mut i: usize = 0;
    while i < n
        invariant
            i <= n,
            n <= a.len(),
            n <= b.len(),
            sum == squared_distance_upto(a@, b@, i as nat),
            sum <= i * 4_000_000_000_000,
        decreases n - i,
    {
        let change = relative_change_of(a[i], b[i]);
        proof {
            assert(change * change <= 4_000_000_000_000) by (nonlinear_arith)
                requires
                    0 <= change <= 2_000_000,
            ;
            assert((i + 1) * 4_000_000_000_000 <= 0x1_0000_0000_0000_0000 * 4_000_000_000_000)
                by (nonlinear_arith)
                requires
                    i + 1 <= 0x1_0000_0000_0000_0000,
            ;
        }
        sum = sum + (change as u128) * (change as u128);
        i = i + 1;
    }
    sum
}

/// Whether a new best solution is a significant change.
pub fn is_significant_change(
    best_fitness: Option<&Vec<i64>>,
    new_fitness: &Vec<i64>,
    improvement_1000_ratio: u32,
) -> (significant: bool)
    ensures
        significant == is_significant_change_spec(
            match best_fitness {
                Some(best) => Some(best@),
                None => None,
            },
            new_fitness@,
            improvement_1000_ratio,
        ),
{
    match best_fitness {
        None => (improvement_1000_ratio as u64) < SIGNIFICANCE_THRESHOLD,
        Some(best) => squared_distance(best, new_fitness) > 100_000_000,
    }
}

/// Classifies the outcome of an action. A solution better than the best known
/// one is a major or a minor improvement of the best, by its significance;
/// otherwise one better than the agent's original is an improvement of a
/// diverse solution; anything else is stagnation. The state is tagged with the
/// pace of the action.
pub fn classify(
    compare_to_old: Comparison,
    compare_to_best: Comparison,
    is_significant: bool,
    ratio: MedianRatio,
) -> (state: SearchState)
    ensures
        state == classify_spec(compare_to_old, compare_to_best, is_significant, ratio),
{
    match (compare_to_old, compare_to_best) {
        (_, Comparison::Less) => {
            if is_significant {
                SearchState::BestMajorImprovement(ratio)
            } else {
                SearchState::BestMinorImprovement(ratio)
            }
        },
        (Comparison::Less, _) => SearchState::DiverseImprovement(ratio),
        (_, _) => SearchState::Stagnated(ratio),
    }
}

/// Every classified state ends the episode and carries the pace it was given.
pub proof fn lemma_classified_state_is_terminal(
    compare_to_old: Comparison,
    compare_to_best: Comparison,
    is_significant: bool,
    ratio: MedianRatio,
)
    ensures
        classify_spec(compare_to_old, compare_to_best, is_significant, ratio).is_terminal_spec(),
        classify_spec(compare_to_old, compare_to_best, is_significant, ratio).ratio() == ratio,
{
}

/// Two fitness vectors that agree in every shared component are at distance
/// zero, so a solution as fit as the best is never a significant change.
pub proof fn lemma_equal_fitness_is_insignificant(a: Seq<i64>, b: Seq<i64>, n: nat)
    requires
        n <= a.len(),
        n <= b.len(),
        forall|i: int| 0 <= i < n ==> a[i] == b[i],
    ensures
        squared_distance_upto(a, b, n) == 0,
    decreases n,
{
    if n > 0 {
        lemma_equal_fitness_is_insignificant(a, b, (n - 1) as nat);
        let x = a[n - 1] as int;
        assert(relative_change(x, x) == 0) by {
            if magnitude(x) != 0 {
                lemma_div_basics_1(magnitude(x));
            }
        }
    }
}

} // verus!
