//! The learning rule, the reduction of the values that several agents learnt
//! for one action, and the policy that picks the next action.

use crate::estimates::{is_max_estimate, is_min_value, least_value, ActionEstimates};
use crate::fixed_point::floor_div;
use crate::heuristics::Random;
use crate::search_state::SearchAction;
use vstd::arithmetic::div_mod::*;
use vstd::prelude::*;

verus! {

/// One, in parts per million.
pub const PPM: u32 = 1_000_000;

/// The value that the learning rule with step size `alpha`, in parts per
/// million, gives an estimate `old` after a return of `reward`: the estimate
/// moves towards the return by the share `alpha` of their distance, rounded
/// down to the next millionth.
pub open spec fn learned_value(alpha: int, reward: int, old: int) -> int {
    old + (alpha * (reward - old)) / (PPM as int)
}

/// The learnt value lies between the old estimate and the return.
pub proof fn lemma_learned_value_between(alpha: int, reward: int, old: int)
    requires
        0 <= alpha <= PPM,
    ensures
        reward >= old ==> old <= learned_value(alpha, reward, old) <= reward,
        reward <= old ==> reward <= learned_value(alpha, reward, old) <= old,
{
    let diff = reward - old;
    let x = alpha * diff;
    let q = x / (PPM as int);
    lemma_fundamental_div_mod(x, PPM as int);
    lemma_mod_bound(x, PPM as int);
    if diff >= 0 {
        assert(0 <= q <= diff) by (nonlinear_arith)
            requires
                x == PPM * q + x % (PPM as int),
                0 <= x % (PPM as int) < PPM,
                x == alpha * diff,
                0 <= alpha <= PPM,
                diff >= 0,
        ;
    } else {
        assert(diff <= q <= 0) by (nonlinear_arith)
            requires
                x == PPM * q + x % (PPM as int),
                0 <= x % (PPM as int) < PPM,
                x == alpha * diff,
                0 <= alpha <= PPM,
                diff < 0,
        ;
    }
}

/// Monte-Carlo learning: every estimate moves towards the return realised in
/// the episode.
pub struct MonteCarlo {
    alpha: u32,
}

impl MonteCarlo {
    #[verifier::type_invariant]
    spec fn step_is_a_share(self) -> bool {
        self.alpha <= PPM
    }

    /// The step size, in parts per million.
    pub closed spec fn alpha(&self) -> int {
        self.alpha as int
    }

    /// A learning rule with the step size `alpha`, a share in parts per
    /// million. A share above one counts as one.
    pub fn new(alpha: u32) -> (learning: MonteCarlo)
        ensures
            learning.alpha() == (if alpha <= PPM {
                alpha
            } else {
                PPM
            }),
    {
        if alpha <= PPM {
            MonteCarlo { alpha }
        } else {
            MonteCarlo { alpha: PPM }
        }
    }

    /// The estimate after a return of `reward_value`.
    pub fn value(&self, reward_value: i64, old_value: i64) -> (new_value: i64)
        ensures
            new_value == learned_value(self.alpha(), reward_value as int, old_value as int),
    {
        proof {
            use_type_invariant(self);
            lemma_learned_value_between(self.alpha as int, reward_value as int, old_value as int);
        }
        let diff: i128 = reward_value as i128 - old_value as i128;
        assert(-0x4000_0000_0000_0000_0000_0000 <= self.alpha * diff <= 0x4000_0000_0000_0000_0000_0000)
            by (nonlinear_arith)
            requires
                0 <= self.alpha <= 1_000_000,
                -0x1_0000_0000_0000_0000 <= diff <= 0x1_0000_0000_0000_0000,
        ;
        let scaled: i128 = (self.alpha as i128) * diff;
        let step = floor_div(scaled, PPM as u64);
        (old_value as i128 + step) as i64
    }
}

/// The sum of a sequence of values.
pub open spec fn sum_of(values: Seq<i64>) -> int
    decreases values.len(),
{
    if values.len() == 0 {
        0
    } else {
        sum_of(values.drop_last()) + values.last()
    }
}

/// The largest of a sequence of values, and zero for none.
pub open spec fn max_of(values: Seq<i64>) -> int
    decreases values.len(),
{
    if values.len() == 0 {
        0
    } else if values.len() == 1 {
        values[0] as int
    } else if max_of(values.drop_last()) >= values.last() {
        max_of(values.drop_last())
    } else {
        values.last() as int
    }
}

/// The one value that stands for the values learnt in one batch for an action
/// of the state at `state_index`: their maximum in the state that holds the
/// best known solution, their arithmetic mean, rounded down, in every other.
pub open spec fn reduced_value(state_index: int, values: Seq<i64>) -> int {
    if state_index == 0 {
        max_of(values)
    } else {
        sum_of(values) / (values.len() as int)
    }
}

/// The sum of `n` values of 64 bits stays within `n` times their range.
proof fn lemma_sum_bounds(values: Seq<i64>)
    ensures
        -0x8000_0000_0000_0000 * values.len() <= sum_of(values) <= 0x7fff_ffff_ffff_ffff
            * values.len(),
    decreases values.len(),
{
    if values.len() > 0 {
        lemma_sum_bounds(values.drop_last());
        assert(0x7fff_ffff_ffff_ffff * (values.len() - 1) + 0x7fff_ffff_ffff_ffff
            == 0x7fff_ffff_ffff_ffff * values.len()) by (nonlinear_arith);
        assert(-0x8000_0000_0000_0000 * (values.len() - 1) - 0x8000_0000_0000_0000
            == -0x8000_0000_0000_0000 * values.len()) by (nonlinear_arith);
    }
}

/// Reduces the values learnt in one batch for one action to one.
pub fn reduce_values(state_index: usize, values: &Vec<i64>) -> (reduced: i64)
    requires
        values.len() > 0,
    ensures
        reduced == reduced_value(state_index as int, values@),
{
    if state_index == 0 {
        let mut best = values[0];
        let mut i: usize = 1;
        assert(values@.subrange(0, 1).drop_last() =~= Seq::<i64>::empty());
        while i < values.len()
            invariant
                1 <= i <= values.len(),
                best == max_of(values@.subrange(0, i as int)),
            decreases values.len() - i,
        {
            assert(values@.subrange(0, i + 1).drop_last() =~= values@.subrange(0, i as int));
            if values[i] > best {
                best = values[i];
            }
            i = i + 1;
        }
        assert(values@.subrange(0, values.len() as int) =~= values@);
        best
    } else {
        let mut sum: i128 = 0;
        let mut i: usize = 0;
        while i < values.len()
            invariant
                i <= values.len(),
                sum == sum_of(values@.subrange(0, i as int)),
            decreases values.len() - i,
        {
            proof {
                assert(values@.subrange(0, i + 1).drop_last() =~= values@.subrange(0, i as int));
                lemma_sum_bounds(values@.subrange(0, i as int));
                lemma_sum_bounds(values@.subrange(0, i + 1));
                assert(0x7fff_ffff_ffff_ffff * (i + 1) <= 0x7fff_ffff_ffff_ffff
                    * 0xffff_ffff_ffff_ffff) by (nonlinear_arith)
                    requires
                        i + 1 <= 0xffff_ffff_ffff_ffff,
                ;
                assert(-0x8000_0000_0000_0000 * (i + 1) >= -0x8000_0000_0000_0000
                    * 0xffff_ffff_ffff_ffff) by (nonlinear_arith)
                    requires
                        i + 1 <= 0xffff_ffff_ffff_ffff,
                ;
            }
            sum = sum + values[i] as i128;
            i = i + 1;
        }
        proof {
            assert(values@.subrange(0, values.len() as int) =~= values@);
            lemma_sum_bounds(values@);
            let n = values.len() as int;
            let total = sum as int;
            let q = total / n;
            lemma_fundamental_div_mod(total, n);
            lemma_mod_bound(total, n);
            assert(-0x8000_0000_0000_0000 <= q <= 0x7fff_ffff_ffff_ffff) by (nonlinear_arith)
                requires
                    total == n * q + total % n,
                    0 <= total % n < n,
                    -0x8000_0000_0000_0000 * n <= total <= 0x7fff_ffff_ffff_ffff * n,
                    n > 0,
            ;
            assert(-0x8000_0000_0000_0000 * n >= -0x8000_0000_0000_0000 * 0xffff_ffff_ffff_ffff)
                by (nonlinear_arith)
                requires
                    n <= 0xffff_ffff_ffff_ffff,
            ;
        }
        floor_div(sum, values.len() as u64) as i64
    }
}

} // verus!

verus! {

/// The action that the policy takes. With nothing to choose from there is
/// none. An exploring policy takes the action at the drawn position, if the
/// draw names one; otherwise the best action is exploited.
pub open spec fn chosen_action(
    estimates: Map<usize, i64>,
    actions: Seq<usize>,
    explore: bool,
    drawn: usize,
    action: Option<SearchAction>,
) -> bool {
    if actions.len() == 0 {
        action is None
    } else if explore && drawn < actions.len() {
        action == Some(SearchAction::Search { heuristic_idx: actions[drawn as int] })
    } else {
        action matches Some(SearchAction::Search { heuristic_idx }) && is_max_estimate(
            estimates,
            heuristic_idx,
            estimates[heuristic_idx],
        )
    }
}

/// Picks the action, given what the random source has drawn.
pub fn choose_action(
    estimates: &ActionEstimates,
    actions: &Vec<usize>,
    explore: bool,
    drawn: usize,
) -> (action: Option<SearchAction>)
    requires
        forall|key: usize|
            #![trigger actions@.contains(key)]
            #![trigger estimates@.contains_key(key)]
            actions@.contains(key) <==> estimates@.contains_key(key),
    ensures
        chosen_action(estimates@, actions@, explore, drawn, action),
        action matches Some(SearchAction::Search { heuristic_idx }) ==> estimates@.contains_key(
            heuristic_idx,
        ),
{
    if actions.len() == 0 {
        None
    } else if explore && drawn < actions.len() {
        assert(actions@.contains(actions@[drawn as int]));
        Some(SearchAction::Search { heuristic_idx: actions[drawn] })
    } else {
        assert(actions@.contains(actions@[0]));
        assert(estimates@.contains_key(actions@[0]));
        match estimates.max_estimate() {
            Some((action, _)) => Some(action),
            None => None,
        }
    }
}

/// The weights with which an exploring policy draws among `actions`: each
/// estimate less the smallest one, so that no weight is negative.
pub fn exploration_weights(estimates: &ActionEstimates, actions: &Vec<usize>) -> (weights: Vec<u64>)
    requires
        forall|key: usize|
            #![trigger actions@.contains(key)]
            #![trigger estimates@.contains_key(key)]
            actions@.contains(key) <==> estimates@.contains_key(key),
    ensures
        weights.len() == actions.len(),
        forall|j: int|
            0 <= j < actions.len() ==> #[trigger] weights[j] == estimates@[actions[j]]
                - least_value(estimates@),
{
    let mut weights: Vec<u64> = Vec::new();
    let least = match estimates.min_value() {
        Some(least) => least,
        None => 0,
    };
    proof {
        if actions.len() > 0 {
            assert(actions@.contains(actions@[0]));
            assert(estimates@.contains_key(actions@[0]));
        }
    }
    let mut j: usize = 0;
    while j < actions.len()
        invariant
            j <= actions.len(),
            weights.len() == j,
            forall|key: usize|
                #![trigger actions@.contains(key)]
                #![trigger estimates@.contains_key(key)]
                actions@.contains(key) <==> estimates@.contains_key(key),
            actions.len() > 0 ==> is_min_value(estimates@, least),
            forall|k: int| 0 <= k < j ==> #[trigger] weights[k] == estimates@[actions[k]] - least,
        decreases actions.len() - j,
    {
        assert(actions@.contains(actions@[j as int]));
        let estimate = match estimates.get(actions[j]) {
            Some(estimate) => estimate,
            None => least,
        };
        weights.push((estimate as i128 - least as i128) as u64);
        j = j + 1;
    }
    proof {
        if actions.len() > 0 {
            assert(is_min_value(estimates@, least_value(estimates@)));
            assert(least_value(estimates@) == least);
        }
    }
    weights
}

/// The epsilon-weighted policy: with the probability epsilon it explores, and
/// draws an action with a weight that grows with its estimate; otherwise it
/// exploits the best action.
pub struct EpsilonWeighted {
    epsilon: u32,
    random: Box<dyn Random>,
}

impl EpsilonWeighted {
    /// The probability of exploring, in parts per million.
    pub closed spec fn epsilon(&self) -> int {
        self.epsilon as int
    }

    /// A policy that explores with the probability `epsilon`, in parts per
    /// million, on draws from `random`.
    pub fn new(epsilon: u32, random: Box<dyn Random>) -> (policy: EpsilonWeighted)
        ensures
            policy.epsilon() == epsilon,
    {
        EpsilonWeighted { epsilon, random }
    }

    /// Selects an action among those that have an estimate: the action
    /// chosen for some order of the actions, a decision to explore or not,
    /// and a draw. There is an action exactly if `estimates` is not empty,
    /// and it is one of them.
    pub fn select(&self, estimates: &ActionEstimates) -> (action: Option<SearchAction>)
        ensures
            exists|actions: Seq<usize>, explore: bool, drawn: usize|
                {
                    &&& #[trigger] chosen_action(estimates@, actions, explore, drawn, action)
                    &&& actions.no_duplicates()
                    &&& forall|key: usize|
                        actions.contains(key) <==> #[trigger] estimates@.contains_key(key)
                },
            action is None <==> forall|key: usize| !estimates@.contains_key(key),
            action matches Some(SearchAction::Search { heuristic_idx }) ==> estimates@.contains_key(
                heuristic_idx,
            ),
    {
        let actions = estimates.actions();
        if actions.len() == 0 {
            assert(chosen_action(estimates@, actions@, false, 0, None));
            return None;
        }
        assert(actions@.contains(actions@[0]));
        assert(estimates@.contains_key(actions@[0]));
        let explore = self.random.uniform() < self.epsilon;
        let drawn = if explore {
            let weights = exploration_weights(estimates, &actions);
            self.random.weighted(&weights)
        } else {
            0
        };
        choose_action(estimates, &actions, explore, drawn)
    }
}

} // verus!
