//! The capabilities that the engine consumes: solutions, objectives,
//! populations, contexts, operators, termination criteria, quotas, random
//! sources and telemetry. The engine defines none of them.
//!
//! Some capabilities answer the same question the same way as long as what
//! they are asked about does not change. Such an answer has a model, a
//! specification function that the executable method is bound to. An
//! implementation that is verified defines the model; for any other it is
//! left unspecified, and the binding is taken on trust.
//!
//! Other capabilities may answer differently each time: a budget, a
//! termination criterion, a random source, an operator. What such a
//! capability may answer has a model too, a relation that holds of every
//! answer it gives. By default the relation holds of any answer.

use crate::search_state::Comparison;
use crate::timer::Timer;
use vstd::prelude::*;

verus! {

/// A candidate solution. The engine assumes nothing about its structure.
pub trait HeuristicSolution: Sized {
    /// A copy that shares no state with the original, and is the same
    /// solution.
    fn deep_copy(&self) -> (copy: Self)
        ensures
            copy == *self,
    ;
}

/// An objective: a total order over solutions and a list of scalar
/// sub-objectives.
pub trait HeuristicObjective<S> {
    /// The model of the order: how `a` compares to `b`.
    open spec fn order(&self, a: &S, b: &S) -> Comparison {
        arbitrary()
    }

    /// The model of the fitness of a solution under each sub-objective.
    open spec fn fitness_spec(&self, solution: &S) -> Seq<i64> {
        arbitrary()
    }

    /// Compares two solutions; `Less` means that `a` is better than `b`. The
    /// answer is the same on every call for the same solutions.
    fn total_order(&self, a: &S, b: &S) -> (comparison: Comparison)
        ensures
            comparison == self.order(a, b),
    ;

    /// The fitness of a solution under each sub-objective, as fixed-point
    /// numbers of one common scale. The answer is the same on every call for
    /// the same solution.
    fn fitness(&self, solution: &S) -> (values: Vec<i64>)
        ensures
            values@ == self.fitness_spec(solution),
    ;
}

/// Statistics of the run so far.
#[derive(Clone, Copy, Debug)]
pub struct HeuristicStatistics {
    /// The number of generations completed.
    pub generation: usize,
    /// The share of improving generations among all, in parts per million.
    pub improvement_all_ratio: u32,
    /// The share of improving generations among the last thousand, in parts per million.
    pub improvement_1000_ratio: u32,
    /// How close the run is to termination, in parts per million.
    pub termination_estimate: u32,
}

/// A population: a bounded multiset of solutions.
pub trait HeuristicPopulation {
    /// The type of the solutions held.
    type Individual;

    /// The model of the number of solutions held.
    open spec fn size_spec(&self) -> nat {
        arbitrary()
    }

    /// The model of the solutions held, best first.
    open spec fn ranked_spec(&self) -> Seq<Self::Individual> {
        arbitrary()
    }

    /// The model of an addition: whether `after` may be this population
    /// after `individual` was added to it.
    open spec fn added(&self, individual: Self::Individual, after: &Self) -> bool {
        true
    }

    /// The model of the addition of offspring: whether `after` may be this
    /// population after `individuals` were added to it, with `improved` told.
    open spec fn added_all(
        &self,
        individuals: Seq<Self::Individual>,
        after: &Self,
        improved: bool,
    ) -> bool {
        true
    }

    /// The model of a selection: whether the population may select `parents`.
    open spec fn may_select(&self, parents: Seq<Self::Individual>) -> bool {
        true
    }

    /// The model of the end of a generation: whether `after` may be this
    /// population after it was told `statistics`.
    open spec fn notified(&self, statistics: HeuristicStatistics, after: &Self) -> bool {
        true
    }

    /// Adds one solution and tells whether the best known solution improved.
    /// The population grows by at most one.
    fn add(&mut self, individual: Self::Individual) -> (improved: bool)
        ensures
            old(self).added(individual, final(self)),
            final(self).size_spec() <= old(self).size_spec() + 1,
    ;

    /// Adds solutions in order and tells whether the best known solution improved.
    fn add_all(&mut self, individuals: Vec<Self::Individual>) -> (improved: bool)
        ensures
            old(self).added_all(individuals@, final(self), improved),
    ;

    /// Tells the population that a generation has ended.
    fn on_generation(&mut self, statistics: &HeuristicStatistics)
        ensures
            old(self).notified(*statistics, final(self)),
    ;

    /// The parents of the next generation.
    fn select(&self) -> (parents: Vec<&Self::Individual>)
        ensures
            self.may_select(parents@.map_values(|individual: &Self::Individual| *individual)),
    ;

    /// The solutions held, best first.
    fn ranked(&self) -> (ranked: Vec<&Self::Individual>)
        ensures
            ranked@.map_values(|individual: &Self::Individual| *individual) == self.ranked_spec(),
    ;

    /// The number of solutions held.
    fn size(&self) -> (size: usize)
        ensures
            size == self.size_spec(),
    ;
}

/// A source of random numbers.
pub trait Random {
    /// The model of a weighted draw: whether `index` may be drawn for `weights`.
    open spec fn may_draw(&self, weights: Seq<u64>, index: usize) -> bool {
        true
    }

    /// A number drawn uniformly from zero to one, one excluded, in parts per million.
    fn uniform(&self) -> u32;

    /// An index drawn with a probability proportional to its weight.
    fn weighted(&self, weights: &Vec<u64>) -> (index: usize)
        ensures
            self.may_draw(weights@, index),
    ;
}

/// A budget that the environment may impose on the run.
pub trait Quota {
    /// The model of the answers of the budget: whether it may say `reached`
    /// when it is polled.
    open spec fn may_answer(&self, reached: bool) -> bool {
        true
    }

    /// Whether the budget is used up.
    fn is_reached(&self) -> (reached: bool)
        ensures
            self.may_answer(reached),
    ;
}

/// What the run takes from its surroundings.
pub struct Environment {
    /// The source of random numbers.
    pub random: Box<dyn Random>,
    /// The number of episodes that may run at a time. It is a hint; the
    /// episodes of a batch run one after another whatever it says.
    pub parallelism: usize,
    /// The budget of the run, if it has one.
    pub quota: Option<Box<dyn Quota>>,
}

/// The context of a run: its objective, its population, its environment and
/// its statistics.
pub trait HeuristicContext {
    /// The type of the solutions.
    type Solution: HeuristicSolution;

    /// The type of the objective.
    type Objective: HeuristicObjective<Self::Solution>;

    /// The type of the population.
    type Population: HeuristicPopulation<Individual = Self::Solution>;

    /// The model of the objective that the context holds.
    open spec fn objective_spec(&self) -> Self::Objective {
        arbitrary()
    }

    /// The model of the population that the context holds.
    open spec fn population_spec(&self) -> Self::Population {
        arbitrary()
    }

    /// The model of the statistics that the context holds.
    open spec fn statistics_spec(&self) -> HeuristicStatistics {
        arbitrary()
    }

    /// The model of the environment that the context holds.
    open spec fn environment_spec(&self) -> Environment {
        arbitrary()
    }

    /// The objective of the run.
    fn objective(&self) -> (objective: &Self::Objective)
        ensures
            *objective == self.objective_spec(),
    ;

    /// The population, to read.
    fn population(&self) -> (population: &Self::Population)
        ensures
            *population == self.population_spec(),
    ;

    /// The population, to change.
    fn population_mut(&mut self) -> (population: &mut Self::Population)
        ensures
            *population == old(self).population_spec(),
            *final(population) == final(self).population_spec(),
    ;

    /// The statistics of the run so far.
    fn statistics(&self) -> (statistics: HeuristicStatistics)
        ensures
            statistics == self.statistics_spec(),
    ;

    /// The environment of the run.
    fn environment(&self) -> (environment: &Environment)
        ensures
            *environment == self.environment_spec(),
    ;
}

/// A search operator: it makes a new candidate from a solution and leaves the
/// solution and the context as they are.
pub trait HeuristicOperator<C: HeuristicContext> {
    /// The model of a search: whether the operator may make `produced` of
    /// `solution` in the context.
    open spec fn may_produce(
        &self,
        heuristic_ctx: &C,
        solution: &C::Solution,
        produced: Option<C::Solution>,
    ) -> bool {
        true
    }

    /// A new candidate, or nothing when the operator fails.
    fn search(&self, heuristic_ctx: &C, solution: &C::Solution) -> (produced: Option<C::Solution>)
        ensures
            self.may_produce(heuristic_ctx, solution, produced),
    ;
}

/// The operators of a run with their names. The position of an operator is
/// the index by which actions refer to it.
pub type HeuristicOperators<C> = Vec<(Box<dyn HeuristicOperator<C>>, String)>;

/// An operator that builds an initial solution from nothing.
pub trait InitialOperator<C: HeuristicContext> {
    /// The model of a creation: whether the operator may create `solution`
    /// in the context.
    open spec fn may_create(&self, heuristic_ctx: &C, solution: C::Solution) -> bool {
        true
    }

    /// A new solution.
    fn create(&self, heuristic_ctx: &C) -> (solution: C::Solution)
        ensures
            self.may_create(heuristic_ctx, solution),
    ;
}

/// A hyper-heuristic: it turns the parents of a generation into its offspring.
pub trait HyperHeuristic<C: HeuristicContext> {
    /// The invariant that the hyper-heuristic keeps between searches. One
    /// that has none keeps this default.
    open spec fn inv(&self) -> bool {
        true
    }

    /// The model of a search: whether the hyper-heuristic may make
    /// `offspring` of `parents` in the context.
    open spec fn may_search(
        &self,
        heuristic_ctx: &C,
        parents: Seq<C::Solution>,
        offspring: Seq<C::Solution>,
    ) -> bool {
        true
    }

    /// The offspring of `solutions`.
    fn search(&mut self, heuristic_ctx: &C, solutions: Vec<&C::Solution>) -> (offspring: Vec<
        C::Solution,
    >)
        requires
            old(self).inv(),
        ensures
            final(self).inv(),
            old(self).may_search(
                heuristic_ctx,
                solutions@.map_values(|solution: &C::Solution| *solution),
                offspring@,
            ),
    ;
}

/// A termination criterion.
pub trait Termination<C: HeuristicContext> {
    /// The model of the answers of the criterion: whether it may say
    /// `terminated` when it is asked in the context.
    open spec fn may_terminate(&self, heuristic_ctx: &C, terminated: bool) -> bool {
        true
    }

    /// The model of the estimates of the criterion: whether it may give
    /// `estimate` in the context.
    open spec fn may_estimate(&self, heuristic_ctx: &C, estimate: u32) -> bool {
        true
    }

    /// Whether the run has to end.
    fn is_termination(&mut self, heuristic_ctx: &C) -> (terminated: bool)
        ensures
            old(self).may_terminate(heuristic_ctx, terminated),
    ;

    /// How close the run is to its end, in parts per million.
    fn estimate(&self, heuristic_ctx: &C) -> (estimate: u32)
        ensures
            self.may_estimate(heuristic_ctx, estimate),
    ;
}

/// What the telemetry has collected at the end of a run.
#[derive(Clone, Copy, Debug)]
pub struct TelemetryMetrics {
    /// The duration of the run in milliseconds.
    pub duration: u64,
    /// The number of generations.
    pub generations: usize,
}

/// The collector of the statistics of a run.
pub trait Telemetry<C: HeuristicContext> {
    /// Takes a message for the log.
    fn log(&mut self, message: &str);

    /// Takes note of an initial solution: the one at `item_idx` of `total_items`.
    fn on_initial(
        &mut self,
        solution: &C::Solution,
        item_idx: usize,
        total_items: usize,
        item_time: Timer,
    );

    /// The model of the note of a generation: whether the telemetry may
    /// give `statistics` when it is told of a generation.
    open spec fn may_note_generation(
        &self,
        heuristic_ctx: &C,
        termination_estimate: u32,
        is_improved: bool,
        statistics: HeuristicStatistics,
    ) -> bool {
        true
    }

    /// Takes note of a generation and gives the statistics that include it.
    fn on_generation(
        &mut self,
        heuristic_ctx: &C,
        termination_estimate: u32,
        generation_time: Timer,
        is_improved: bool,
    ) -> (statistics: HeuristicStatistics)
        ensures
            old(self).may_note_generation(
                heuristic_ctx,
                termination_estimate,
                is_improved,
                statistics,
            ),
    ;

    /// Takes note of the end of the run.
    fn on_result(&mut self, heuristic_ctx: &C);

    /// The model of the metrics: whether the telemetry may hand over `metrics`.
    open spec fn may_give_metrics(&self, metrics: Option<TelemetryMetrics>) -> bool {
        true
    }

    /// Hands over what was collected, if anything was.
    fn take_metrics(&mut self) -> (metrics: Option<TelemetryMetrics>)
        ensures
            old(self).may_give_metrics(metrics),
    ;
}

} // verus!
