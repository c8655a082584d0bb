//! The states and actions of the search agents, and the rewards of the
//! states, shaped by the pace of the action that led to them.

use crate::fixed_point::{ceil_div, lemma_floor_of_negative, lemma_quotient_bound};
use vstd::arithmetic::div_mod::*;
use vstd::arithmetic::mul::*;
use vstd::prelude::*;

verus! {

/// One reward unit. Rewards and estimates are fixed-point numbers counted in
/// millionths of a unit.
pub const UNIT: i64 = 1_000_000;

/// The largest magnitude of a reward that can be modulated: a slow negative
/// reward is at most doubled, and the double has to fit in an `i64`.
pub const MAX_REWARD: i64 = 0x3fff_ffff_ffff_ffff;

/// The outcome of comparing two solutions under an objective.
#[derive(Clone, Copy, Debug, PartialEq, Eq, Structural)]
pub enum Comparison {
    Less,
    Equal,
    Greater,
}

/// The pace of one operator application: its duration over the running median
/// of all durations, both in milliseconds. A zero median stands for an unknown
/// one, and the ratio is then taken as one.
#[derive(Clone, Copy, Debug)]
pub struct MedianRatio {
    pub duration: u64,
    pub median: u64,
}

impl MedianRatio {
    /// The ratio of a duration to the running median, which may be unknown.
    pub fn from_durations(duration: u64, median: Option<u64>) -> (ratio: MedianRatio)
        ensures
            ratio.duration == duration,
            ratio.median == (match median {
                Some(m) => m,
                None => 0,
            }),
    {
        match median {
            Some(m) => MedianRatio { duration, median: m },
            None => MedianRatio { duration, median: 0 },
        }
    }

    /// Numerator and denominator of the ratio clamped to the range from one
    /// half to two. An unknown median gives one.
    pub open spec fn clamped(self) -> (int, int) {
        if self.median == 0 {
            (1, 1)
        } else if self.duration > 2 * self.median {
            (2, 1)
        } else if 2 * self.duration < self.median {
            (1, 2)
        } else {
            (self.duration as int, self.median as int)
        }
    }

    /// Whether the clamped ratio is at least 1.001, the pace from which a
    /// reward is modulated.
    pub open spec fn is_slow(self) -> bool {
        self.clamped().0 * 1000 >= self.clamped().1 * 1001
    }

    /// The reward `value` modulated by the pace. At a nominal pace the reward
    /// is unchanged. At a slow pace with clamped ratio `r`, a zero reward
    /// becomes `-2 * r`, a negative one is multiplied by `r`, and a positive
    /// one is divided by `r`. Results are rounded down to the next millionth.
    pub open spec fn eval_spec(self, value: int) -> int {
        let (n, d) = self.clamped();
        if !self.is_slow() {
            value
        } else if value == 0 {
            (-2 * UNIT * n) / d
        } else if value < 0 {
            (value * n) / d
        } else {
            (value * d) / n
        }
    }

    fn clamp(&self) -> (r: (u64, u64))
        ensures
            (r.0 as int, r.1 as int) == self.clamped(),
            1 <= r.0,
            1 <= r.1,
            r.0 <= 2 * r.1,
            r.1 <= 2 * r.0,
    {
        if self.median == 0 {
            (1, 1)
        } else if self.duration as u128 > 2 * (self.median as u128) {
            (2, 1)
        } else if 2 * (self.duration as u128) < self.median as u128 {
            (1, 2)
        } else {
            (self.duration, self.median)
        }
    }

    /// Modulates the reward `value` by the pace.
    pub fn eval(&self, value: i64) -> (reward: i64)
        requires
            -MAX_REWARD <= value <= MAX_REWARD,
        ensures
            reward == self.eval_spec(value as int),
    {
        let (n, d) = self.clamp();
        if (n as u128) * 1000 < (d as u128) * 1001 {
            value
        } else if value == 0 {
            let x: u128 = 2 * (UNIT as u128) * (n as u128);
            proof {
                assert(x <= 4 * UNIT * d) by (nonlinear_arith)
                    requires
                        x == 2 * UNIT * n,
                        n <= 2 * d,
                ;
                assert(x + d - 1 <= (4 * UNIT + 1) * d) by (nonlinear_arith)
                    requires
                        x <= 4 * UNIT * d,
                        d >= 1,
                ;
                lemma_quotient_bound(x + d - 1, d as int, 4 * UNIT + 1);
                lemma_floor_of_negative(x as int, d as int);
                assert(-2 * UNIT * n == -(x as int)) by (nonlinear_arith)
                    requires
                        x == 2 * UNIT * n,
                ;
            }
            let q = ceil_div(x, d);
            -(q as i64)
        } else if value < 0 {
            let m: u128 = (-(value as i128)) as u128;
            proof {
                assert(m * n <= 2 * m * d && 0 <= m * n) by (nonlinear_arith)
                    requires
                        0 <= n <= 2 * d,
                        m >= 0,
                ;
                assert(2 * m * d <= 0x7fff_ffff_ffff_fffe * d) by (nonlinear_arith)
                    requires
                        m <= 0x3fff_ffff_ffff_ffff,
                        d >= 0,
                ;
                assert(0x7fff_ffff_ffff_fffe * d <= 0x7fff_ffff_ffff_fffe * 0xffff_ffff_ffff_ffff)
                    by (nonlinear_arith)
                    requires
                        d <= 0xffff_ffff_ffff_ffff,
                ;
            }
            let x: u128 = m * (n as u128);
            proof {
                assert(x + d - 1 <= (2 * m + 1) * d) by (nonlinear_arith)
                    requires
                        x <= 2 * m * d,
                        d >= 1,
                ;
                lemma_quotient_bound(x + d - 1, d as int, 2 * m + 1);
                lemma_floor_of_negative(x as int, d as int);
                assert(value * n == -(x as int)) by (nonlinear_arith)
                    requires
                        x == m * n,
                        m == -value,
                ;
            }
            let q = ceil_div(x, d);
            -(q as i64)
        } else {
            proof {
                assert(0 <= value * d <= value * n) by (nonlinear_arith)
                    requires
                        0 <= d <= n,
                        value > 0,
                ;
                assert(value * n <= 0x3fff_ffff_ffff_ffff * 0xffff_ffff_ffff_ffff) by (nonlinear_arith)
                    requires
                        0 <= value <= 0x3fff_ffff_ffff_ffff,
                        0 <= n <= 0xffff_ffff_ffff_ffff,
                ;
                lemma_mul_is_commutative(value as int, n as int);
                lemma_quotient_bound(value * d, n as int, value as int);
            }
            let x: u128 = (value as u128) * (d as u128);
            (x / (n as u128)) as i64
        }
    }
}

impl Default for MedianRatio {
    /// The ratio of a state that no action has led to yet; its pace is nominal.
    fn default() -> (ratio: MedianRatio)
        ensures
            ratio.duration == 0,
            ratio.median == 0,
    {
        MedianRatio { duration: 0, median: 0 }
    }
}

} // verus!

verus! {

/// What an agent can do in a state: apply the operator at an index of the registry.
#[derive(Clone, Copy, Debug, PartialEq, Eq, Structural)]
pub enum SearchAction {
    /// An action which performs the search.
    Search { heuristic_idx: usize },
}

/// The number of state variants.
pub const STATE_COUNT: usize = 6;

/// The state of a search agent. Each variant carries the pace of the action
/// that led to it. The pace shapes the reward only: two states of one variant
/// are the same state, whatever their paces.
#[derive(Clone, Copy, Debug)]
pub enum SearchState {
    /// A state with the best known solution.
    BestKnown(MedianRatio),
    /// A state with diverse (not the best known) solution.
    Diverse(MedianRatio),
    /// A state with new best known solution found (major improvement).
    BestMajorImprovement(MedianRatio),
    /// A state with new best known solution found (minor improvement).
    BestMinorImprovement(MedianRatio),
    /// A state with improved diverse solution.
    DiverseImprovement(MedianRatio),
    /// A state with equal or degraded solution.
    Stagnated(MedianRatio),
}

impl SearchState {
    /// The pace carried by the state.
    pub open spec fn ratio(self) -> MedianRatio {
        match self {
            SearchState::BestKnown(ratio) => ratio,
            SearchState::Diverse(ratio) => ratio,
            SearchState::BestMajorImprovement(ratio) => ratio,
            SearchState::BestMinorImprovement(ratio) => ratio,
            SearchState::DiverseImprovement(ratio) => ratio,
            SearchState::Stagnated(ratio) => ratio,
        }
    }

    /// The position of the variant, which identifies the state in the
    /// estimate tables.
    pub open spec fn index_spec(self) -> int {
        match self {
            SearchState::BestKnown(_) => 0,
            SearchState::Diverse(_) => 1,
            SearchState::BestMajorImprovement(_) => 2,
            SearchState::BestMinorImprovement(_) => 3,
            SearchState::DiverseImprovement(_) => 4,
            SearchState::Stagnated(_) => 5,
        }
    }

    /// The reward of the state before modulation, in millionths.
    pub open spec fn base_reward(self) -> int {
        match self {
            SearchState::BestKnown(_) => 0,
            SearchState::Diverse(_) => 0,
            SearchState::BestMajorImprovement(_) => 1000 * UNIT,
            SearchState::BestMinorImprovement(_) => 100 * UNIT,
            SearchState::DiverseImprovement(_) => 10 * UNIT,
            SearchState::Stagnated(_) => -UNIT,
        }
    }

    /// The reward of the state: its base reward modulated by its pace.
    pub open spec fn reward_spec(self) -> int {
        self.ratio().eval_spec(self.base_reward())
    }

    /// Whether the state ends an episode: an agent acts only while it holds
    /// the best known or a diverse solution.
    pub open spec fn is_terminal_spec(self) -> bool {
        self.index_spec() >= 2
    }

    /// The position of the variant.
    pub fn index(&self) -> (index: usize)
        ensures
            index == self.index_spec(),
            index < STATE_COUNT,
    {
        match self {
            SearchState::BestKnown(_) => 0,
            SearchState::Diverse(_) => 1,
            SearchState::BestMajorImprovement(_) => 2,
            SearchState::BestMinorImprovement(_) => 3,
            SearchState::DiverseImprovement(_) => 4,
            SearchState::Stagnated(_) => 5,
        }
    }

    /// Whether the state ends an episode.
    pub fn is_terminal(&self) -> (terminal: bool)
        ensures
            terminal == self.is_terminal_spec(),
    {
        self.index() >= 2
    }

    /// The reward of the state.
    pub fn reward(&self) -> (reward: i64)
        ensures
            reward == self.reward_spec(),
    {
        match self {
            SearchState::BestKnown(median_ratio) => median_ratio.eval(0),
            SearchState::Diverse(median_ratio) => median_ratio.eval(0),
            SearchState::BestMajorImprovement(median_ratio) => median_ratio.eval(1000 * UNIT),
            SearchState::BestMinorImprovement(median_ratio) => median_ratio.eval(100 * UNIT),
            SearchState::DiverseImprovement(median_ratio) => median_ratio.eval(10 * UNIT),
            SearchState::Stagnated(median_ratio) => median_ratio.eval(-UNIT),
        }
    }
}

impl PartialEq for SearchState {
    fn eq(&self, other: &Self) -> (equal: bool) {
        self.index() == other.index()
    }
}

impl vstd::std_specs::cmp::PartialEqSpecImpl for SearchState {
    open spec fn obeys_eq_spec() -> bool {
        true
    }

    /// States are equal when their variants are: the pace is no part of the identity.
    open spec fn eq_spec(&self, other: &Self) -> bool {
        self.index_spec() == other.index_spec()
    }
}

/// At a nominal pace every state earns its base reward.
pub proof fn lemma_nominal_pace_keeps_reward(state: SearchState)
    requires
        !state.ratio().is_slow(),
    ensures
        state.reward_spec() == state.base_reward(),
{
}

/// At a slow pace with clamped ratio `n / d`: the states that hold a solution
/// earn `-2 * n / d`, an improvement earns its base reward times `d / n`, and
/// stagnation earns `-n / d`, each rounded down to the next millionth.
pub proof fn lemma_slow_pace_reward(state: SearchState)
    requires
        state.ratio().is_slow(),
    ensures
        ({
            let (n, d) = state.ratio().clamped();
            state.reward_spec() == match state {
                SearchState::BestKnown(_) => (-2 * UNIT * n) / d,
                SearchState::Diverse(_) => (-2 * UNIT * n) / d,
                SearchState::BestMajorImprovement(_) => (1000 * UNIT * d) / n,
                SearchState::BestMinorImprovement(_) => (100 * UNIT * d) / n,
                SearchState::DiverseImprovement(_) => (10 * UNIT * d) / n,
                SearchState::Stagnated(_) => (-UNIT * n) / d,
            }
        }),
{
}

/// A slow action is always rewarded less than the same action at a nominal
/// pace, and the modulation is bounded: a positive reward is at most halved,
/// a negative one at most doubled, and a zero reward drops by at most four units.
pub proof fn lemma_slow_pace_lowers_reward(ratio: MedianRatio, value: int)
    requires
        ratio.is_slow(),
    ensures
        ratio.eval_spec(value) < value,
        value > 0 ==> 2 * ratio.eval_spec(value) >= value - 1,
        value < 0 ==> ratio.eval_spec(value) >= 2 * value,
        value == 0 ==> ratio.eval_spec(value) >= -4 * UNIT,
{
    let (n, d) = ratio.clamped();
    assert(1 <= d < n <= 2 * d);
    if value == 0 {
        let x = 2 * UNIT * n;
        assert(x > 2 * UNIT * d && x <= 4 * UNIT * d) by (nonlinear_arith)
            requires
                x == 2 * UNIT * n,
                1 <= d < n <= 2 * d,
        ;
        assert(-2 * UNIT * n == -x) by (nonlinear_arith)
            requires
                x == 2 * UNIT * n,
        ;
        lemma_fundamental_div_mod(-x, d);
        lemma_mod_bound(-x, d);
        let q = (-x) / d;
        assert(q >= -4 * UNIT && q < 0) by (nonlinear_arith)
            requires
                -x == d * q + (-x) % d,
                0 <= (-x) % d < d,
                0 < x <= 4 * UNIT * d,
                d >= 1,
        ;
    } else if value < 0 {
        let x = value * n;
        lemma_fundamental_div_mod(x, d);
        lemma_mod_bound(x, d);
        let q = x / d;
        assert(q < value && q >= 2 * value) by (nonlinear_arith)
            requires
                x == d * q + x % d,
                0 <= x % d < d,
                x == value * n,
                value < 0,
                1 <= d < n <= 2 * d,
        ;
    } else {
        let x = value * d;
        lemma_fundamental_div_mod(x, n);
        lemma_mod_bound(x, n);
        let q = x / n;
        assert(q < value && 2 * q >= value - 1) by (nonlinear_arith)
            requires
                x == n * q + x % n,
                0 <= x % n < n,
                x == value * d,
                value > 0,
                1 <= d < n <= 2 * d,
        ;
    }
}

} // verus!
