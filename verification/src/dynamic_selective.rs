//! The dynamic-selective hyper-heuristic: it turns the parents of a
//! generation into offspring by sending each one through an episode in which
//! a learning agent selects the operator to apply.

use crate::classifier::{
    classify,
    classify_spec,
    is_significant_change,
    is_significant_change_spec,
    lemma_classified_state_is_terminal,
};
use crate::estimates::{covers, ActionEstimates};
use crate::heuristics::{
    HeuristicContext,
    HeuristicObjective,
    HeuristicOperators,
    HeuristicPopulation,
    HeuristicSolution,
    HyperHeuristic,
    Random,
};
use crate::learning::{EpsilonWeighted, MonteCarlo};
use crate::mdp::{
    batch_learnt,
    entry_evolved,
    is_trail,
    Episode,
    offered_by_any,
    offered_to_all,
    offers,
    reached,
    Agent,
    Simulator,
    StateEstimates,
};
use crate::remedian::{median_of, observe_all, Remedian};
use crate::search_state::{Comparison, MedianRatio, SearchAction, SearchState, STATE_COUNT};
use crate::timer::Timer;
use vstd::prelude::*;

verus! {

/// The index of the state that holds the best known solution.
pub const BEST_KNOWN: usize = 0;

/// The index of the state that holds a diverse solution.
pub const DIVERSE: usize = 1;

/// The width of the buckets of the median of the durations.
pub const MEDIAN_BASE: usize = 11;

/// The step size of the learning rule: 0.1, in parts per million.
pub const ALPHA: u32 = 100_000;

/// The probability with which the policy explores: 0.1, in parts per million.
pub const EPSILON: u32 = 100_000;

/// How `solution` compares to the best solution of the population. A
/// solution is better than no solution.
pub open spec fn compared_to_best<C: HeuristicContext>(
    heuristic_ctx: &C,
    solution: &C::Solution,
) -> Comparison {
    let ranked = heuristic_ctx.population_spec().ranked_spec();
    if ranked.len() > 0 {
        heuristic_ctx.objective_spec().order(solution, &ranked[0])
    } else {
        Comparison::Less
    }
}

/// Whether `solution`, a new best, is a significant change over the best
/// solution of the population.
pub open spec fn is_significant<C: HeuristicContext>(
    heuristic_ctx: &C,
    solution: &C::Solution,
) -> bool {
    let ranked = heuristic_ctx.population_spec().ranked_spec();
    let objective = heuristic_ctx.objective_spec();
    is_significant_change_spec(
        if ranked.len() > 0 {
            Some(objective.fitness_spec(&ranked[0]))
        } else {
            None
        },
        objective.fitness_spec(solution),
        heuristic_ctx.statistics_spec().improvement_1000_ratio,
    )
}

/// The state of an agent whose action has turned the parent `original` into
/// `solution` at the pace `ratio`.
pub open spec fn outcome<C: HeuristicContext>(
    heuristic_ctx: &C,
    original: &C::Solution,
    solution: &C::Solution,
    ratio: MedianRatio,
) -> SearchState {
    classify_spec(
        heuristic_ctx.objective_spec().order(solution, original),
        compared_to_best(heuristic_ctx, solution),
        is_significant(heuristic_ctx, solution),
        ratio,
    )
}

/// The state in which the agent of a parent starts: it holds the best known
/// solution unless the parent is worse than the best of the population.
pub open spec fn initial_state<C: HeuristicContext>(
    heuristic_ctx: &C,
    solution: &C::Solution,
) -> SearchState {
    if compared_to_best(heuristic_ctx, solution) == Comparison::Greater {
        SearchState::Diverse(MedianRatio { duration: 0, median: 0 })
    } else {
        SearchState::BestKnown(MedianRatio { duration: 0, median: 0 })
    }
}

/// The running median that a tower of levels stands for, with zero for none.
pub open spec fn median_or_zero(levels: Seq<Seq<u64>>) -> u64 {
    if levels.len() > 0 {
        median_of(levels.last())
    } else {
        0
    }
}

/// Compares a solution to the best solution of the population.
pub fn compare_to_best<C: HeuristicContext>(heuristic_ctx: &C, solution: &C::Solution) -> (comparison:
    Comparison)
    ensures
        comparison == compared_to_best(heuristic_ctx, solution),
{
    let ranked = heuristic_ctx.population().ranked();
    let ghost model = heuristic_ctx.population_spec().ranked_spec();
    assert(ranked@.map_values(|individual: &C::Solution| *individual).len() == model.len());
    if ranked.len() > 0 {
        assert(ranked@.map_values(|individual: &C::Solution| *individual)[0] == model[0]);
        heuristic_ctx.objective().total_order(solution, ranked[0])
    } else {
        Comparison::Less
    }
}

/// Tells whether a new best solution is a significant change.
fn check_significance<C: HeuristicContext>(heuristic_ctx: &C, solution: &C::Solution) -> (significant:
    bool)
    ensures
        significant == is_significant(heuristic_ctx, solution),
{
    let objective = heuristic_ctx.objective();
    let ranked = heuristic_ctx.population().ranked();
    let ghost model = heuristic_ctx.population_spec().ranked_spec();
    assert(ranked@.map_values(|individual: &C::Solution| *individual).len() == model.len());
    let new_fitness = objective.fitness(solution);
    let ratio = heuristic_ctx.statistics().improvement_1000_ratio;
    if ranked.len() > 0 {
        assert(ranked@.map_values(|individual: &C::Solution| *individual)[0] == model[0]);
        let best_fitness = objective.fitness(ranked[0]);
        is_significant_change(Some(&best_fitness), &new_fitness, ratio)
    } else {
        is_significant_change(None, &new_fitness, ratio)
    }
}

/// The registry of the operators among which the agents select.
#[verifier::reject_recursive_types(C)]
pub struct SearchActionRegistry<C: HeuristicContext> {
    pub heuristics: HeuristicOperators<C>,
}

/// The agent of one parent: it works on a copy of the parent and records how
/// long its actions took.
#[verifier::reject_recursive_types(C)]
pub struct SearchAgent<'a, C: HeuristicContext> {
    /// The context of the run.
    pub heuristic_ctx: &'a C,
    /// The operators to select among.
    pub registry: &'a SearchActionRegistry<C>,
    /// The estimates that the agent offers for each state.
    pub estimates: &'a StateEstimates,
    /// The running median of the durations of all actions so far.
    pub median: &'a Remedian,
    /// The state of the agent.
    pub state: SearchState,
    /// The parent.
    pub original: &'a C::Solution,
    /// The working solution.
    pub solution: C::Solution,
    /// The durations of the actions taken, in milliseconds.
    pub runtime: Vec<u64>,
}

impl<'a, C: HeuristicContext> SearchAgent<'a, C> {
    /// The agent of the parent `original`. It works on a copy of the parent,
    /// has taken no action, and starts in the state that holds the best
    /// known solution unless the parent is worse than the best of the
    /// population.
    pub fn new(
        heuristic_ctx: &'a C,
        registry: &'a SearchActionRegistry<C>,
        estimates: &'a StateEstimates,
        median: &'a Remedian,
        original: &'a C::Solution,
    ) -> (agent: Self)
        ensures
            agent.heuristic_ctx == heuristic_ctx,
            agent.registry == registry,
            agent.estimates == estimates,
            agent.median == median,
            agent.original == original,
            agent.solution == *original,
            agent.state == initial_state(heuristic_ctx, original),
            agent.runtime@.len() == 0,
    {
        let state = match compare_to_best(heuristic_ctx, original) {
            Comparison::Greater => SearchState::Diverse(MedianRatio { duration: 0, median: 0 }),
            _ => SearchState::BestKnown(MedianRatio { duration: 0, median: 0 }),
        };
        SearchAgent {
            heuristic_ctx,
            registry,
            estimates,
            median,
            state,
            original,
            solution: original.deep_copy(),
            runtime: Vec::new(),
        }
    }

    /// The pace of an action that took `duration` milliseconds.
    pub open spec fn pace(&self, duration: u64) -> MedianRatio {
        MedianRatio { duration, median: median_or_zero(self.median@) }
    }

    /// Whether `produced` may be what comes of `action`: what the operator
    /// at the index of the action may make of the working solution, and
    /// nothing where the index names no operator.
    pub open spec fn produces(&self, action: SearchAction, produced: Option<C::Solution>) -> bool {
        let SearchAction::Search { heuristic_idx } = action;
        if heuristic_idx < self.registry.heuristics.len() {
            self.registry.heuristics[heuristic_idx as int].0.may_produce(
                self.heuristic_ctx,
                &self.solution,
                produced,
            )
        } else {
            produced is None
        }
    }

    /// Whether `after` is this agent after it has settled on what an action
    /// that took `duration` milliseconds has produced. The duration is
    /// recorded. A new solution replaces the working one, and the state is
    /// the one that classifies it; without one the working solution stays,
    /// and the state is stagnation. Nothing else changes.
    pub open spec fn settled(
        &self,
        produced: Option<C::Solution>,
        duration: u64,
        after: &Self,
    ) -> bool {
        &&& after.heuristic_ctx == self.heuristic_ctx
        &&& after.registry == self.registry
        &&& after.estimates == self.estimates
        &&& after.median == self.median
        &&& after.original == self.original
        &&& after.runtime@ == self.runtime@.push(duration)
        &&& match produced {
            Some(new_solution) => after.solution == new_solution && after.state == outcome(
                self.heuristic_ctx,
                self.original,
                &new_solution,
                self.pace(duration),
            ),
            None => after.solution == self.solution && after.state == SearchState::Stagnated(
                self.pace(duration),
            ),
        }
    }

    /// Applies the operator that `action` names to the working solution.
    /// An action that names no operator comes to nothing.
    pub fn apply(&self, action: &SearchAction) -> (produced: Option<C::Solution>)
        ensures
            self.produces(*action, produced),
    {
        let SearchAction::Search { heuristic_idx } = *action;
        if heuristic_idx < self.registry.heuristics.len() {
            self.registry.heuristics[heuristic_idx].0.search(self.heuristic_ctx, &self.solution)
        } else {
            None
        }
    }

    /// Settles on what an action that took `duration` milliseconds has
    /// produced.
    pub fn settle(&mut self, produced: Option<C::Solution>, duration: u64)
        requires
            old(self).median.wf(),
        ensures
            old(self).settled(produced, duration, final(self)),
    {
        let ratio = MedianRatio::from_durations(duration, self.median.approx_median());
        assert(ratio == self.pace(duration));
        match produced {
            Some(new_solution) => {
                let objective = self.heuristic_ctx.objective();
                let compare_to_old = objective.total_order(&new_solution, self.original);
                let compare_to_best = compare_to_best(self.heuristic_ctx, &new_solution);
                let is_significant_change = match compare_to_best {
                    Comparison::Less => check_significance(self.heuristic_ctx, &new_solution),
                    _ => false,
                };
                self.state = classify(compare_to_old, compare_to_best, is_significant_change, ratio);
                self.solution = new_solution;
            },
            None => {
                self.state = SearchState::Stagnated(ratio);
            },
        }
        self.runtime.push(duration);
    }
}

impl<'a, C: HeuristicContext> Agent for SearchAgent<'a, C> {
    /// The running median that the agent reads is well formed.
    open spec fn inv(&self) -> bool {
        self.median.wf()
    }

    open spec fn state_spec(&self) -> SearchState {
        self.state
    }

    /// Whether `after` is this agent after it has taken `action`: the
    /// operator that the action names has made something of the working
    /// solution, or failed, and the agent has settled on what it made.
    open spec fn acted(&self, action: SearchAction, after: &Self) -> bool {
        exists|produced: Option<C::Solution>, duration: u64|
            #![trigger self.settled(produced, duration, after)]
            self.produces(action, produced) && self.settled(produced, duration, after)
    }

    /// One action from a state that holds a solution, none from any other.
    open spec fn steps_left(&self) -> nat {
        if self.state.is_terminal_spec() {
            0
        } else {
            1
        }
    }

    /// The initial estimates of the state.
    open spec fn offered(&self, state: int) -> Map<usize, i64> {
        if 0 <= state < STATE_COUNT {
            match self.estimates@[state] {
                Some(estimates) => estimates,
                None => Map::empty(),
            }
        } else {
            Map::empty()
        }
    }

    fn get_state(&self) -> (state: SearchState) {
        self.state
    }

    fn can_act(&self) -> (acting: bool) {
        !self.state.is_terminal()
    }

    /// A copy of the initial estimates of `state`.
    fn get_actions(&self, state: &SearchState) -> (estimates: ActionEstimates)
        ensures
            estimates@ == (match self.estimates@[state.index_spec()] {
                Some(offered) => offered,
                None => Map::empty(),
            }),
    {
        match self.estimates.get(state) {
            Some(found) => found.copy(),
            None => {
                let none = ActionEstimates::new();
                assert(none@.dom() =~= Set::<usize>::empty());
                none
            },
        }
    }

    /// Applies the operator that the action names to the working solution,
    /// times it, and moves to the state that classifies what the operator
    /// has made. An operator that fails, or an action that names none, leaves
    /// the solution as it is and ends in stagnation.
    fn take_action(&mut self, action: &SearchAction) {
        let timer = Timer::start();
        let produced = self.apply(action);
        let duration = timer.elapsed_millis();
        let ghost before = *self;
        self.settle(produced, duration);
        assert(before.settled(produced, duration, &*self));
    }
}

} // verus!

verus! {

/// Whether the best estimate of a state is zero or less: the state has
/// estimates, and none of them is positive.
pub open spec fn is_stagnated(estimates: Option<Map<usize, i64>>) -> bool {
    estimates matches Some(values) && (exists|key: usize| values.contains_key(key)) && forall|
        key: usize,
    | #[trigger] values.contains_key(key) ==> values[key] <= 0
}

/// Whether the best estimate of a state is positive.
pub open spec fn is_improving(estimates: Option<Map<usize, i64>>) -> bool {
    estimates matches Some(values) && exists|key: usize| #[trigger]
        values.contains_key(key) && values[key] > 0
}

/// Whether the estimates are to be exchanged: the search from the best known
/// solution has stagnated while the search from diverse solutions pays.
pub open spec fn exchange_is_due(table: Seq<Option<Map<usize, i64>>>) -> bool {
    is_stagnated(table[BEST_KNOWN as int]) && is_improving(table[DIVERSE as int])
}

/// The table after the exchange: where it is due, the state that holds the
/// best known solution takes over the estimates of the state that holds a
/// diverse one. Nothing else changes.
pub open spec fn exchanged(table: Seq<Option<Map<usize, i64>>>) -> Seq<Option<Map<usize, i64>>> {
    if exchange_is_due(table) {
        table.update(BEST_KNOWN as int, table[DIVERSE as int])
    } else {
        table
    }
}

/// Whether every state that has estimates is one in which agents act, and
/// has an estimate for each of the `count` operators and for nothing else.
pub open spec fn shaped(table: Seq<Option<Map<usize, i64>>>, count: nat) -> bool {
    forall|state: int|
        0 <= state < STATE_COUNT ==> ((#[trigger] table[state]) matches Some(estimates) ==> state
            <= DIVERSE && covers(estimates, count))
}

/// Whether the table is the one that agents start from: in the two states in
/// which agents act, an estimate of zero for each of the `count` operators;
/// in the other states, estimates for no action.
pub open spec fn seeded(table: Seq<Option<Map<usize, i64>>>, count: nat) -> bool {
    forall|state: int|
        0 <= state < STATE_COUNT ==> ((#[trigger] table[state]) matches Some(estimates) && (
        if state <= DIVERSE {
            covers(estimates, count) && forall|key: usize| key < count ==> estimates[key] == 0
        } else {
            forall|key: usize| !estimates.contains_key(key)
        }))
}

/// After an exchange that was due, the state that holds the best known
/// solution has the estimates of the state that holds a diverse one, action
/// by action, and every other state has the estimates it had.
pub proof fn lemma_exchange_copies_diverse(table: Seq<Option<Map<usize, i64>>>)
    requires
        table.len() == STATE_COUNT,
        exchange_is_due(table),
    ensures
        exchanged(table)[BEST_KNOWN as int] == table[DIVERSE as int],
        forall|state: int| 1 <= state < STATE_COUNT ==> exchanged(table)[state] == table[state],
{
}

/// After the exchange no exchange is due, and a table that was in shape still is.
pub proof fn lemma_exchange_settles(table: Seq<Option<Map<usize, i64>>>, count: nat)
    requires
        table.len() == STATE_COUNT,
    ensures
        !exchange_is_due(exchanged(table)),
        shaped(table, count) ==> shaped(exchanged(table), count),
{
    if exchange_is_due(table) {
        let after = exchanged(table);
        let values = table[DIVERSE as int]->Some_0;
        let key = choose|key: usize| #[trigger] values.contains_key(key) && values[key] > 0;
        assert(after[BEST_KNOWN as int] == Some(values));
        assert(values.contains_key(key) && values[key] > 0);
        assert(!is_stagnated(after[BEST_KNOWN as int]));
        if shaped(table, count) {
            assert forall|state: int| 0 <= state < STATE_COUNT implies ((
            #[trigger] after[state]) matches Some(estimates) ==> state <= DIVERSE && covers(
                estimates,
                count,
            )) by {
                if state == BEST_KNOWN {
                    assert(table[DIVERSE as int] is Some);
                } else {
                    assert(after[state] == table[state]);
                }
            }
        }
    }
}

/// Copies the estimates of the state that holds a diverse solution to the
/// state that holds the best known one, where the best estimate of the latter
/// is zero or less and the best estimate of the former is positive.
pub fn try_exchange_estimates(heuristic_simulator: &mut Simulator)
    ensures
        final(heuristic_simulator).estimates() == exchanged(old(heuristic_simulator).estimates()),
        final(heuristic_simulator).alpha() == old(heuristic_simulator).alpha(),
        final(heuristic_simulator).epsilon() == old(heuristic_simulator).epsilon(),
{
    let ghost before = heuristic_simulator.estimates();
    let table = heuristic_simulator.get_state_estimates();
    proof {
        table.lemma_view_len();
    }
    let best_known_max = match table.at(BEST_KNOWN) {
        Some(estimates) => estimates.max_estimate(),
        None => None,
    };
    let diverse_state_max = match table.at(DIVERSE) {
        Some(estimates) => estimates.max_estimate(),
        None => None,
    };
    let is_best_known_stagnation = match best_known_max {
        Some((_, max)) => max <= 0,
        None => false,
    };
    let is_diverse_improvement = match diverse_state_max {
        Some((_, max)) => max > 0,
        None => false,
    };
    proof {
        assert(is_best_known_stagnation == is_stagnated(before[BEST_KNOWN as int])) by {
            if let Some((SearchAction::Search { heuristic_idx }, max)) = best_known_max {
                let values = before[BEST_KNOWN as int]->Some_0;
                assert(values.contains_key(heuristic_idx));
            }
        }
        assert(is_diverse_improvement == is_improving(before[DIVERSE as int])) by {
            if let Some((SearchAction::Search { heuristic_idx }, max)) = diverse_state_max {
                let values = before[DIVERSE as int]->Some_0;
                assert(values.contains_key(heuristic_idx));
            }
        }
    }
    if is_best_known_stagnation && is_diverse_improvement {
        let estimates = match table.at(DIVERSE) {
            Some(estimates) => estimates.copy(),
            None => ActionEstimates::new(),
        };
        heuristic_simulator.set_action_estimates(
            SearchState::BestKnown(MedianRatio { duration: 0, median: 0 }),
            estimates,
        );
    }
}

/// A hyper-heuristic which selects the operators by how they have worked so
/// far in the search. The selection is modelled as a Markov decision process.
#[verifier::reject_recursive_types(C)]
pub struct DynamicSelective<C: HeuristicContext> {
    heuristic_simulator: Simulator,
    initial_estimates: StateEstimates,
    action_registry: SearchActionRegistry<C>,
    heuristic_median: Remedian,
}

impl<C: HeuristicContext> DynamicSelective<C> {
    /// The operators with their names, by their index.
    pub closed spec fn operators(&self) -> Seq<(Box<dyn crate::heuristics::HeuristicOperator<C>>, String)> {
        self.action_registry.heuristics@
    }

    /// The estimates learnt so far, by the index of the state.
    pub closed spec fn estimates(&self) -> Seq<Option<Map<usize, i64>>> {
        self.heuristic_simulator.estimates()
    }

    /// The estimates from which a state starts, by the index of the state.
    pub closed spec fn initial_estimates(&self) -> Seq<Option<Map<usize, i64>>> {
        self.initial_estimates@
    }

    /// The step size with which the estimates learn, in parts per million.
    pub closed spec fn alpha(&self) -> int {
        self.heuristic_simulator.alpha()
    }

    /// The probability with which the policy explores, in parts per million.
    pub closed spec fn epsilon(&self) -> int {
        self.heuristic_simulator.epsilon()
    }

    /// The registry of the operators.
    pub closed spec fn registry(&self) -> &SearchActionRegistry<C> {
        &self.action_registry
    }

    /// The table of the estimates from which a state starts.
    pub closed spec fn initial_table(&self) -> &StateEstimates {
        &self.initial_estimates
    }

    /// The estimator of the running median of the durations.
    pub closed spec fn median_estimator(&self) -> &Remedian {
        &self.heuristic_median
    }

    /// Whether `agent` is the agent that a search starts for the parent
    /// `solution`: it reads the registry, the initial estimates and the
    /// running median of this hyper-heuristic, works on a copy of the parent,
    /// has taken no action, and is in the state in which the parent starts.
    pub open spec fn starts(
        &self,
        agent: SearchAgent<C>,
        heuristic_ctx: &C,
        solution: &C::Solution,
    ) -> bool {
        &&& agent.heuristic_ctx == heuristic_ctx
        &&& agent.registry == self.registry()
        &&& agent.estimates == self.initial_table()
        &&& agent.median == self.median_estimator()
        &&& agent.original == solution
        &&& agent.solution == *solution
        &&& agent.state == initial_state(heuristic_ctx, solution)
        &&& agent.runtime@.len() == 0
    }

    /// The levels of the running median of the durations.
    pub closed spec fn median(&self) -> Seq<Seq<u64>> {
        self.heuristic_median@
    }

    /// Whether the running median keeps its own invariant, with buckets of
    /// the width that this hyper-heuristic uses.
    pub closed spec fn median_wf(&self) -> bool {
        self.heuristic_median.wf() && self.heuristic_median.base() == MEDIAN_BASE
    }

    /// The invariant: every state that has estimates has one for every
    /// operator of the registry, the initial estimates are those given at
    /// creation, the estimates learn by a tenth of the distance to the
    /// return, and the running median is well formed.
    pub open spec fn wf(&self) -> bool {
        &&& self.median_wf()
        &&& self.alpha() == ALPHA
        &&& self.epsilon() == EPSILON
        &&& seeded(self.initial_estimates(), self.operators().len())
        &&& shaped(self.estimates(), self.operators().len())
    }

    /// The operators with their names.
    pub fn get_operators(&self) -> (operators: &HeuristicOperators<C>)
        ensures
            operators@ == self.operators(),
    {
        &self.action_registry.heuristics
    }

    /// The estimates learnt so far.
    pub fn get_state_estimates(&self) -> (table: &StateEstimates)
        ensures
            table@ == self.estimates(),
    {
        self.heuristic_simulator.get_state_estimates()
    }

    /// The estimates from which a state starts.
    pub fn get_initial_estimates(&self) -> (table: &StateEstimates)
        ensures
            table@ == self.initial_estimates(),
    {
        &self.initial_estimates
    }

    /// The running median of the durations of all actions so far, in
    /// milliseconds, or nothing before the first action.
    pub fn approx_median(&self) -> (estimate: Option<u64>)
        requires
            self.wf(),
        ensures
            estimate matches Some(m) ==> self.median().len() > 0 && m == median_of(
                self.median().last(),
            ),
            estimate is None <==> self.median().len() == 0,
    {
        self.heuristic_median.approx_median()
    }

    /// Creates a hyper-heuristic over `operators` that draws from `random`.
    /// It has learnt nothing, and every operator starts with an estimate of zero.
    pub fn new(operators: HeuristicOperators<C>, random: Box<dyn Random>) -> (heuristic: Self)
        ensures
            heuristic.wf(),
            heuristic.operators() == operators@,
            heuristic.median().len() == 0,
            forall|state: int| 0 <= state < STATE_COUNT ==> heuristic.estimates()[state] is None,
    {
        let operator_estimates = ActionEstimates::zeros(operators.len());
        let mut initial_estimates = StateEstimates::new();
        initial_estimates.set(BEST_KNOWN, operator_estimates.copy());
        initial_estimates.set(DIVERSE, operator_estimates);
        let mut state: usize = 2;
        while state < STATE_COUNT
            invariant
                2 <= state <= STATE_COUNT,
                initial_estimates@.len() == STATE_COUNT,
                forall|s: int|
                    0 <= s < 2 ==> ((#[trigger] initial_estimates@[s]) matches Some(estimates)
                        && covers(estimates, operators.len() as nat) && forall|key: usize|
                        key < operators.len() ==> estimates[key] == 0),
                forall|s: int|
                    2 <= s < state ==> ((#[trigger] initial_estimates@[s]) matches Some(estimates)
                        && forall|key: usize| !estimates.contains_key(key)),
            decreases STATE_COUNT - state,
        {
            initial_estimates.set(state, ActionEstimates::new());
            state = state + 1;
        }
        DynamicSelective {
            heuristic_simulator: Simulator::new(
                MonteCarlo::new(ALPHA),
                EpsilonWeighted::new(EPSILON, random),
            ),
            initial_estimates,
            heuristic_median: Remedian::new(MEDIAN_BASE),
            action_registry: SearchActionRegistry { heuristics: operators },
        }
    }
}

} // verus!

verus! {

/// The durations that the agents have recorded, agent after agent.
pub open spec fn all_runtimes<C: HeuristicContext>(agents: Seq<SearchAgent<C>>) -> Seq<u64>
    decreases agents.len(),
{
    if agents.len() == 0 {
        Seq::empty()
    } else {
        all_runtimes(agents.drop_last()) + agents.last().runtime@
    }
}

/// An agent that has not acted yet ends its episode as it started it, or
/// after exactly one action.
proof fn lemma_episode_is_one_step<'a, C: HeuristicContext>(
    before: SearchAgent<'a, C>,
    after: SearchAgent<'a, C>,
)
    requires
        reached(before, after),
    ensures
        after == before || exists|action: SearchAction| before.acted(action, &after),
{
    let episode = choose|episode: Episode<SearchAgent<'a, C>>|
        #[trigger] is_trail(episode) && episode.path.first() == before && episode.path.last()
            == after;
    lemma_trail_is_one_step(episode);
    if episode.actions.len() == 1 {
        assert(episode.path[0].acted(episode.actions[0], &episode.path[1]));
    }
}

/// The episode of an agent that has not acted yet has one action at most.
proof fn lemma_trail_is_one_step<'a, C: HeuristicContext>(episode: Episode<SearchAgent<'a, C>>)
    requires
        is_trail(episode),
    ensures
        episode.actions.len() <= 1,
{
    let path = episode.path;
    if episode.actions.len() >= 1 {
        assert(path[0].steps_left() > 0 && path[0].acted(episode.actions[0], &path[1]));
        let (produced, duration) = choose|produced: Option<C::Solution>, duration: u64|
            #![trigger path[0].settled(produced, duration, &path[1])]
            path[0].produces(episode.actions[0], produced) && path[0].settled(
                produced,
                duration,
                &path[1],
            );
        lemma_classified_state_is_terminal(
            path[0].heuristic_ctx.objective_spec().order(&path[1].solution, path[0].original),
            compared_to_best(path[0].heuristic_ctx, &path[1].solution),
            is_significant(path[0].heuristic_ctx, &path[1].solution),
            path[0].pace(duration),
        );
        assert(path[1].steps_left() == 0);
        if episode.actions.len() >= 2 {
            assert(path[1].steps_left() > 0 && path[1].acted(episode.actions[1], &path[2]));
        }
    }
}

impl<C: HeuristicContext> HyperHeuristic<C> for DynamicSelective<C> {
    open spec fn inv(&self) -> bool {
        self.wf()
    }

    /// There is one offspring for each parent, and without an operator to
    /// select the offspring are the parents.
    open spec fn may_search(
        &self,
        heuristic_ctx: &C,
        parents: Seq<C::Solution>,
        offspring: Seq<C::Solution>,
    ) -> bool {
        offspring.len() == parents.len() && (self.operators().len() == 0 ==> offspring == parents)
    }

    /// Sends every parent through one episode and returns what the agents
    /// hold at the end, in the order of the parents. An agent is started for
    /// each parent, and the agents run their episodes as one batch. The
    /// offspring at a position is the solution that the agent of the parent at
    /// the position holds at the end. With an operator to select, every agent
    /// takes one action; without one, the offspring are the parents. The
    /// durations that the agents have recorded go into the running median,
    /// agent after agent. The estimates learn what the episodes teach and are
    /// exchanged where that is due. The registry of operators and the initial
    /// estimates stay as they are.
    fn search(&mut self, heuristic_ctx: &C, solutions: Vec<&C::Solution>) -> (offspring: Vec<
        C::Solution,
    >)
        ensures
            offspring.len() == solutions.len(),
            final(self).operators() == old(self).operators(),
            final(self).initial_estimates() == old(self).initial_estimates(),
            exists|
                started: Seq<SearchAgent<C>>,
                finished: Seq<SearchAgent<C>>,
                learnt: Seq<Option<Map<usize, i64>>>,
            |
                {
                    &&& #[trigger] batch_learnt(
                        old(self).estimates(),
                        learnt,
                        ALPHA as int,
                        started,
                        finished,
                    )
                    &&& started.len() == solutions.len()
                    &&& finished.len() == solutions.len()
                    &&& learnt.len() == STATE_COUNT
                    &&& forall|k: int|
                        0 <= k < solutions.len() ==> old(self).starts(
                            #[trigger] started[k],
                            heuristic_ctx,
                            solutions[k],
                        )
                    &&& forall|k: int|
                        0 <= k < solutions.len() ==> #[trigger] offspring[k] == finished[k].solution
                    &&& forall|k: int|
                        0 <= k < solutions.len() ==> (#[trigger] finished[k]).runtime@.len() == (
                        if old(self).operators().len() > 0 {
                            1nat
                        } else {
                            0nat
                        })
                    &&& final(self).estimates() == exchanged(learnt)
                    &&& final(self).median() == observe_all(
                        old(self).median(),
                        MEDIAN_BASE as nat,
                        all_runtimes(finished),
                    )
                },
            !exchange_is_due(final(self).estimates()),
            old(self).operators().len() == 0 ==> forall|i: int|
                0 <= i < solutions.len() ==> #[trigger] offspring[i] == *solutions[i],
    {
        let registry = &self.action_registry;
        let estimates = &self.initial_estimates;
        let median = &self.heuristic_median;
        let ghost count = registry.heuristics@.len();
        let ghost before = self.heuristic_simulator.estimates();

        let mut agents: Vec<SearchAgent<C>> = Vec::new();
        let mut i: usize = 0;
        while i < solutions.len()
            invariant
                i <= solutions.len(),
                agents.len() == i,
                median.wf(),
                registry == old(self).registry(),
                estimates == old(self).initial_table(),
                median == old(self).median_estimator(),
                forall|k: int|
                    0 <= k < i ==> (#[trigger] agents[k]).median == median && agents[k].estimates
                        == estimates && agents[k].solution == *solutions[k]
                        && agents[k].runtime@.len() == 0 && !agents[k].state.is_terminal_spec()
                        && old(self).starts(agents[k], heuristic_ctx, solutions[k]),
            decreases solutions.len() - i,
        {
            agents.push(SearchAgent::new(heuristic_ctx, registry, estimates, median, solutions[i]));
            i = i + 1;
        }

        let ghost started = agents@;
        let mut done = self.heuristic_simulator.run_episodes(agents);

        proof {
            let after = self.heuristic_simulator.estimates();
            estimates.lemma_view_len();
            assert forall|state: int| 0 <= state < STATE_COUNT implies ((
            #[trigger] after[state]) matches Some(learnt) ==> state <= DIVERSE && covers(
                learnt,
                count,
            )) by {
                assert(entry_evolved(before[state], after[state], started, state));
                if after[state] is Some && before[state] is None {
                    let learnt = after[state]->Some_0;
                    let k = choose|k: int|
                        0 <= k < started.len() && learnt.dom() == (#[trigger] started[k]).offered(
                            state,
                        ).dom();
                    let key = choose|key: usize| learnt.contains_key(key);
                    assert(learnt.dom().contains(key));
                    assert(estimates@[state] is Some);
                }
            }
        }

        let ghost finished = done@;
        let ghost total = solutions.len();
        proof {
            self.heuristic_simulator.lemma_estimates_len();
            assert forall|k: int| 0 <= k < total implies {
                &&& count > 0 ==> (#[trigger] finished[k]).runtime@.len() == 1
                &&& count == 0 ==> finished[k].runtime@.len() == 0 && finished[k].solution
                    == *solutions[k]
            } by {
                lemma_episode_is_one_step(started[k], finished[k]);
                let state = started[k].state.index_spec();
                assert(started[k].steps_left() == 1);
                if count > 0 {
                    assert(offered_to_all(before, started, state)) by {
                        if before[state] is Some {
                            assert(before[state]->Some_0.dom().contains(0));
                        } else {
                            assert forall|j: int| 0 <= j < started.len() implies offers(
                                (#[trigger] started[j]).offered(state).dom(),
                            ) by {
                                assert(estimates@[state] is Some);
                                assert(started[j].offered(state).dom().contains(0));
                            }
                        }
                    }
                } else {
                    assert(!offered_by_any(before, started, state)) by {
                        if before[state] is None {
                            assert forall|j: int| 0 <= j < started.len() implies !offers(
                                (#[trigger] started[j]).offered(state).dom(),
                            ) by {
                                assert(estimates@[state] is Some);
                            }
                        }
                    }
                }
            }
        }

        let mut reversed: Vec<(C::Solution, Vec<u64>)> = Vec::new();
        while done.len() > 0
            invariant
                done.len() + reversed.len() == total,
                finished.len() == total,
                done@ == finished.subrange(0, done.len() as int),
                forall|j: int|
                    0 <= j < reversed.len() ==> (#[trigger] reversed[j]).0 == finished[total - 1
                        - j].solution && reversed[j].1 == finished[total - 1 - j].runtime,
            decreases done.len(),
        {
            let ghost position = done.len() - 1;
            match done.pop() {
                Some(agent) => {
                    assert(agent == finished[position]);
                    let SearchAgent { solution, runtime, .. } = agent;
                    reversed.push((solution, runtime));
                    assert(done@ =~= finished.subrange(0, done.len() as int));
                },
                None => {},
            }
        }

        let ghost turned = reversed@;
        let mut individuals: Vec<C::Solution> = Vec::new();
        let mut runtimes: Vec<u64> = Vec::new();
        while reversed.len() > 0
            invariant
                reversed.len() + individuals.len() == total,
                finished.len() == total,
                turned.len() == total,
                reversed@ == turned.subrange(0, reversed.len() as int),
                forall|j: int|
                    0 <= j < total ==> (#[trigger] turned[j]).0 == finished[total - 1 - j].solution
                        && turned[j].1 == finished[total - 1 - j].runtime,
                forall|k: int|
                    0 <= k < total ==> {
                        &&& count > 0 ==> (#[trigger] finished[k]).runtime@.len() == 1
                        &&& count == 0 ==> finished[k].runtime@.len() == 0 && finished[k].solution
                            == *solutions[k]
                    },
                forall|k: int|
                    0 <= k < individuals.len() ==> #[trigger] individuals[k] == finished[k].solution,
                runtimes@ == all_runtimes(finished.subrange(0, individuals.len() as int)),
            decreases reversed.len(),
        {
            let ghost position = reversed.len() - 1;
            let ghost collected = individuals@;
            match reversed.pop() {
                Some((solution, runtime)) => {
                    assert(turned[position].0 == solution && turned[position].1 == runtime);
                    assert(runtime == finished[total - 1 - position].runtime);
                    individuals.push(solution);
                    let ghost gathered = runtimes@;
                    let mut j: usize = 0;
                    while j < runtime.len()
                        invariant
                            j <= runtime.len(),
                            runtimes@ == gathered + runtime@.subrange(0, j as int),
                        decreases runtime.len() - j,
                    {
                        runtimes.push(runtime[j]);
                        j = j + 1;
                        assert(runtimes@ =~= gathered + runtime@.subrange(0, j as int));
                    }
                    proof {
                        assert(runtime@.subrange(0, runtime.len() as int) =~= runtime@);
                        let wider = finished.subrange(0, individuals.len() as int);
                        assert(wider.drop_last() =~= finished.subrange(0, collected.len() as int));
                        assert(wider.last() == finished[collected.len() as int]);
                    }
                    assert(reversed@ =~= turned.subrange(0, reversed.len() as int));
                    assert forall|k: int| 0 <= k < individuals.len() implies #[trigger] individuals[k]
                        == finished[k].solution by {
                        if k < collected.len() {
                            assert(individuals[k] == collected[k]);
                        }
                    }
                },
                None => {},
            }
        }

        let ghost learnt = self.heuristic_simulator.estimates();
        let mut j: usize = 0;
        while j < runtimes.len()
            invariant
                j <= runtimes.len(),
                self.heuristic_median.wf(),
                self.heuristic_median.base() == MEDIAN_BASE,
                self.heuristic_median@ == observe_all(
                    old(self).heuristic_median@,
                    MEDIAN_BASE as nat,
                    runtimes@.subrange(0, j as int),
                ),
                self.action_registry == old(self).action_registry,
                self.initial_estimates == old(self).initial_estimates,
                self.heuristic_simulator.estimates() == learnt,
                self.heuristic_simulator.alpha() == ALPHA,
                self.heuristic_simulator.epsilon() == EPSILON,
            decreases runtimes.len() - j,
        {
            assert(runtimes@.subrange(0, j + 1).drop_last() =~= runtimes@.subrange(0, j as int));
            self.heuristic_median.add_observation(runtimes[j]);
            j = j + 1;
        }

        proof {
            self.heuristic_simulator.lemma_estimates_len();
            lemma_exchange_settles(learnt, count);
        }
        try_exchange_estimates(&mut self.heuristic_simulator);
        assert(runtimes@.subrange(0, runtimes.len() as int) =~= runtimes@);
        assert(finished.subrange(0, total as int) =~= finished);
        assert(count == 0 ==> individuals@ =~= solutions@.map_values(
            |solution: &C::Solution| *solution,
        ));
        assert(batch_learnt(before, learnt, ALPHA as int, started, finished));
        assert(self.median() == observe_all(
            old(self).median(),
            MEDIAN_BASE as nat,
            all_runtimes(finished),
        ));

        individuals
    }
}

} // verus!
