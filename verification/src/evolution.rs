//! The evolution simulator: it seeds the population, runs generations until
//! the run has to end, and returns the best solutions.

use crate::heuristics::{
    Environment,
    HeuristicContext,
    HeuristicPopulation,
    HeuristicSolution,
    HeuristicStatistics,
    HyperHeuristic,
    InitialOperator,
    Quota,
    Random,
    Telemetry,
    TelemetryMetrics,
    Termination,
};
use crate::jobs::{decimal_text, decimal_text_of};
use crate::timer::Timer;
use vstd::string::StringExecFns;
use vstd::prelude::*;

verus! {

/// The result of a run: the best solutions, best first, with what the
/// telemetry collected; or the reason why the run was not started.
pub type EvolutionResult<S> = Result<(Vec<S>, Option<TelemetryMetrics>), String>;

/// Whether a run stops before the next generation: its termination criterion
/// is met, or the budget of its environment is used up.
pub open spec fn stops(is_terminated: bool, is_quota_reached: bool) -> bool {
    is_terminated || is_quota_reached
}

/// Whether solutions are added to a population of `size`: always while the
/// budget lasts, and after that only to an empty population.
pub open spec fn adds(is_quota_reached: bool, size: nat) -> bool {
    size == 0 || !is_quota_reached
}

/// Once the budget is used up, the poll before the next generation stops the
/// run whatever the termination criterion says, and a population that holds
/// a solution grows no more. A generation that is under way is not interrupted:
/// the budget is polled only between generations and before additions.
pub proof fn lemma_reached_quota_ends_run(is_terminated: bool, size: nat)
    ensures
        stops(is_terminated, true),
        size > 0 ==> !adds(true, size),
        adds(true, 0),
{
}

/// While the budget lasts, the termination criterion alone decides, and
/// every addition is made.
pub proof fn lemma_lasting_quota_changes_nothing(is_terminated: bool, size: nat)
    ensures
        stops(is_terminated, false) == is_terminated,
        adds(false, size),
{
}

/// The index of the operator that builds the initial solution at position
/// `idx`: each operator builds one of the first solutions, in order; for the
/// rest the index is the one drawn, or zero where the draw names no operator.
pub open spec fn initial_operator_index(idx: usize, operators: nat, drawn: usize) -> usize {
    if idx < operators {
        idx
    } else if drawn < operators {
        drawn
    } else {
        0
    }
}

/// Decides whether the run stops, from what the termination criterion and
/// the budget have answered.
pub fn is_stop(is_terminated: bool, is_quota_reached: bool) -> (stop: bool)
    ensures
        stop == stops(is_terminated, is_quota_reached),
{
    is_terminated || is_quota_reached
}

/// Decides whether solutions are added, from what the budget has answered
/// and the size of the population.
pub fn is_addition(is_quota_reached: bool, size: usize) -> (addition: bool)
    ensures
        addition == adds(is_quota_reached, size as nat),
{
    let is_population_empty = size == 0;
    is_population_empty || !is_quota_reached
}

/// Picks the operator that builds the initial solution at position `idx`.
pub fn pick_initial_operator(idx: usize, operators: usize, drawn: usize) -> (index: usize)
    ensures
        index == initial_operator_index(idx, operators as nat, drawn),
        operators > 0 ==> index < operators,
{
    if idx < operators {
        idx
    } else if drawn < operators {
        drawn
    } else {
        0
    }
}

/// Whether `reached` may be the answer of the budget of a run: what the
/// budget may answer, and never reached for a run without a budget.
pub open spec fn quota_answers(quota: Option<Box<dyn Quota>>, reached: bool) -> bool {
    match quota {
        Some(quota) => quota.may_answer(reached),
        None => !reached,
    }
}

/// Polls the budget: the result is the answer of the budget. A run without a
/// budget never reaches it.
pub fn is_quota_reached(quota: &Option<Box<dyn Quota>>) -> (reached: bool)
    ensures
        quota_answers(*quota, reached),
{
    match quota {
        Some(quota) => quota.is_reached(),
        None => false,
    }
}

/// Whether the run may go on in the context: the termination criterion and
/// the budget of the environment may give answers with which it does not stop.
pub open spec fn run_goes_on<C: HeuristicContext>(heuristic_ctx: C) -> bool {
    exists|asked: Box<dyn Termination<C>>, is_terminated: bool, is_quota_reached: bool|
        #![trigger
            asked.may_terminate(&heuristic_ctx, is_terminated),
            stops(is_terminated, is_quota_reached)
        ]
        asked.may_terminate(&heuristic_ctx, is_terminated) && quota_answers(
            heuristic_ctx.environment_spec().quota,
            is_quota_reached,
        ) && !stops(is_terminated, is_quota_reached)
}

/// Whether the run may stop in the context: the termination criterion and
/// the budget of the environment may give answers with which it stops.
pub open spec fn run_stops<C: HeuristicContext>(heuristic_ctx: C) -> bool {
    exists|asked: Box<dyn Termination<C>>, is_terminated: bool, is_quota_reached: bool|
        #![trigger
            asked.may_terminate(&heuristic_ctx, is_terminated),
            stops(is_terminated, is_quota_reached)
        ]
        asked.may_terminate(&heuristic_ctx, is_terminated) && quota_answers(
            heuristic_ctx.environment_spec().quota,
            is_quota_reached,
        ) && stops(is_terminated, is_quota_reached)
}

/// Asks the termination criterion and polls the budget of the environment,
/// and tells whether the run stops: it does where the criterion is met or
/// the budget is used up.
fn should_stop<C: HeuristicContext>(
    heuristic_ctx: &C,
    termination: &mut Box<dyn Termination<C>>,
) -> (stop: bool)
    ensures
        exists|is_terminated: bool, is_quota_reached: bool|
            #![trigger stops(is_terminated, is_quota_reached)]
            old(termination).may_terminate(heuristic_ctx, is_terminated) && quota_answers(
                heuristic_ctx.environment_spec().quota,
                is_quota_reached,
            ) && stop == stops(is_terminated, is_quota_reached),
        stop ==> run_stops(*heuristic_ctx),
        !stop ==> run_goes_on(*heuristic_ctx),
{
    let ghost asked = *termination;
    let is_terminated = termination.is_termination(heuristic_ctx);
    let is_quota_reached = is_quota_reached(&heuristic_ctx.environment().quota);
    assert(stops(is_terminated, is_quota_reached) == stops(is_terminated, is_quota_reached));
    assert(asked.may_terminate(heuristic_ctx, is_terminated));
    is_stop(is_terminated, is_quota_reached)
}

/// Whether `addition` may be the decision to add to a population of `size`:
/// the decision that follows from an answer of the budget.
pub open spec fn addition_decided(quota: Option<Box<dyn Quota>>, size: nat, addition: bool) -> bool {
    exists|is_quota_reached: bool|
        #![trigger adds(is_quota_reached, size)]
        quota_answers(quota, is_quota_reached) && addition == adds(is_quota_reached, size)
}

/// Polls the budget and tells whether solutions are added to the population:
/// they are while the budget lasts, and to an empty population. So they
/// always are to an empty population and in a run without a budget.
pub fn should_add_solution<P: HeuristicPopulation>(
    quota: &Option<Box<dyn Quota>>,
    population: &P,
) -> (addition: bool)
    ensures
        addition_decided(*quota, population.size_spec(), addition),
        population.size_spec() == 0 ==> addition,
        quota is None ==> addition,
{
    let is_quota_reached = is_quota_reached(quota);
    assert(adds(is_quota_reached, population.size_spec()) == adds(
        is_quota_reached,
        population.size_spec(),
    ));
    is_addition(is_quota_reached, population.size())
}

/// Whether the context `after` may be the context `before` after the end of
/// a generation: a telemetry was told of the generation, with an estimate of
/// a termination criterion and with `is_improved`, and the population was
/// told the statistics that the telemetry gave. Nothing else was done to the
/// population.
pub open spec fn generation_ended<C: HeuristicContext>(
    before: C,
    after: C,
    is_improved: bool,
) -> bool {
    exists|
        told: Box<dyn Telemetry<C>>,
        criterion: Box<dyn Termination<C>>,
        termination_estimate: u32,
        statistics: HeuristicStatistics,
    |
        #![trigger
            told.may_note_generation(&before, termination_estimate, is_improved, statistics),
            criterion.may_estimate(&before, termination_estimate)
        ]
        {
            &&& criterion.may_estimate(&before, termination_estimate)
            &&& told.may_note_generation(&before, termination_estimate, is_improved, statistics)
            &&& before.population_spec().notified(statistics, &after.population_spec())
        }
}

/// Ends a generation: the telemetry takes note of it, with the estimate of
/// the termination criterion, and the population is told the statistics that
/// the telemetry gives.
fn on_generation<C: HeuristicContext>(
    heuristic_ctx: &mut C,
    telemetry: &mut Box<dyn Telemetry<C>>,
    termination: &Box<dyn Termination<C>>,
    generation_time: Timer,
    is_improved: bool,
)
    ensures
        exists|termination_estimate: u32, statistics: HeuristicStatistics|
            #![trigger
                old(heuristic_ctx).population_spec().notified(
                    statistics,
                    &final(heuristic_ctx).population_spec(),
                ),
                termination.may_estimate(old(heuristic_ctx), termination_estimate)
            ]
            {
                &&& termination.may_estimate(old(heuristic_ctx), termination_estimate)
                &&& old(telemetry).may_note_generation(
                    old(heuristic_ctx),
                    termination_estimate,
                    is_improved,
                    statistics,
                )
                &&& old(heuristic_ctx).population_spec().notified(
                    statistics,
                    &final(heuristic_ctx).population_spec(),
                )
            },
        generation_ended(*old(heuristic_ctx), *final(heuristic_ctx), is_improved),
{
    let ghost told = *telemetry;
    let ghost before = *heuristic_ctx;
    let termination_estimate = termination.estimate(heuristic_ctx);
    let statistics = telemetry.on_generation(
        heuristic_ctx,
        termination_estimate,
        generation_time,
        is_improved,
    );
    heuristic_ctx.population_mut().on_generation(&statistics);
    assert(termination.may_estimate(&before, termination_estimate) && told.may_note_generation(
        &before,
        termination_estimate,
        is_improved,
        statistics,
    ));
}

} // verus!

verus! {

/// Copies out the best solutions of the population, best first: the first
/// `desired_amount` of them, or all where there are fewer.
pub fn best_solutions<C: HeuristicContext>(heuristic_ctx: &C, desired_amount: usize) -> (solutions:
    Vec<C::Solution>)
    ensures
        solutions@ == heuristic_ctx.population_spec().ranked_spec().subrange(
            0,
            smaller(
                heuristic_ctx.population_spec().ranked_spec().len() as int,
                desired_amount as int,
            ),
        ),
{
    let ranked = heuristic_ctx.population().ranked();
    let ghost model = heuristic_ctx.population_spec().ranked_spec();
    assert(ranked@.map_values(|individual: &C::Solution| *individual).len() == model.len());
    let mut solutions: Vec<C::Solution> = Vec::new();
    let mut i: usize = 0;
    while i < ranked.len() && i < desired_amount
        invariant
            i <= desired_amount,
            i <= ranked.len(),
            ranked@.map_values(|individual: &C::Solution| *individual) == model,
            solutions@ == model.subrange(0, i as int),
        decreases ranked.len() - i,
    {
        assert(ranked@.map_values(|individual: &C::Solution| *individual)[i as int] == model[i as int]);
        solutions.push(ranked[i].deep_copy());
        assert(solutions@ =~= model.subrange(0, i + 1));
        i = i + 1;
    }
    solutions
}

/// The best solutions of the population of a context, best first: the first
/// `desired_amount` of them, or all where there are fewer.
pub open spec fn best_of<C: HeuristicContext>(heuristic_ctx: C, desired_amount: nat) -> Seq<
    C::Solution,
> {
    heuristic_ctx.population_spec().ranked_spec().subrange(
        0,
        smaller(heuristic_ctx.population_spec().ranked_spec().len() as int, desired_amount as int),
    )
}

/// Whether the context `after` may be the context `before` after the
/// offspring of a generation were dealt with: the budget was polled, and the
/// offspring were added to the population, with `is_improved` told, unless
/// the budget forbade it; then nothing changed and nothing improved.
pub open spec fn offspring_added<C: HeuristicContext>(
    before: C,
    offspring: Seq<C::Solution>,
    after: C,
    is_improved: bool,
) -> bool {
    exists|is_quota_reached: bool|
        #![trigger adds(is_quota_reached, before.population_spec().size_spec())]
        quota_answers(before.environment_spec().quota, is_quota_reached) && if adds(
            is_quota_reached,
            before.population_spec().size_spec(),
        ) {
            before.population_spec().added_all(offspring, &after.population_spec(), is_improved)
        } else {
            after == before && !is_improved
        }
}

/// Whether the context `after` may be the context `before` after one
/// generation: the population selected parents, a hyper-heuristic that keeps
/// its invariant made their offspring, the offspring were dealt with, and the
/// generation was ended. The population changes by the addition of the
/// offspring and by the note of the end of the generation, and by nothing else.
pub open spec fn is_generation<C: HeuristicContext, H: HyperHeuristic<C>>(
    before: C,
    after: C,
) -> bool {
    exists|
        heuristic: H,
        parents: Seq<C::Solution>,
        offspring: Seq<C::Solution>,
        middle: C,
        is_improved: bool,
    |
        #![trigger
            heuristic.may_search(&before, parents, offspring),
            offspring_added(before, offspring, middle, is_improved)
        ]
        {
            &&& before.population_spec().may_select(parents)
            &&& heuristic.inv()
            &&& heuristic.may_search(&before, parents, offspring)
            &&& offspring_added(before, offspring, middle, is_improved)
            &&& generation_ended(middle, after, is_improved)
        }
}

/// Whether each context of a path but the last has let the run go on and has
/// become the next by one generation.
pub open spec fn is_evolution_trail<C: HeuristicContext, H: HyperHeuristic<C>>(
    path: Seq<C>,
) -> bool {
    forall|k: int|
        0 <= k < path.len() - 1 ==> run_goes_on(#[trigger] path[k]) && is_generation::<C, H>(
            path[k],
            path[k + 1],
        )
}

/// Whether the context `after` may be the context `before` after the
/// generations of a run. Before each generation the termination criterion
/// was asked and the budget was polled, and the run went on; every
/// generation that was begun was ended. After the last the run stopped: so a
/// budget that is used up while a generation is under way lets the
/// generation end, and no other is begun. No run has more generations than a
/// `usize` counts.
pub open spec fn evolved<C: HeuristicContext, H: HyperHeuristic<C>>(before: C, after: C) -> bool {
    exists|path: Seq<C>|
        {
            &&& #[trigger] is_evolution_trail::<C, H>(path)
            &&& path.len() > 0
            &&& path.first() == before
            &&& path.last() == after
            &&& (run_stops(after) || path.len() - 1 >= usize::MAX)
        }
}

/// No generation is begun in a context in which the run cannot go on: such
/// a context is the last of its trail. So a budget that is used up, which
/// stops the run whatever the criterion answers, lets no further generation
/// begin, while every generation of the trail was ended.
pub proof fn lemma_no_generation_after_stop<C: HeuristicContext, H: HyperHeuristic<C>>(
    path: Seq<C>,
    k: int,
)
    requires
        is_evolution_trail::<C, H>(path),
        0 <= k < path.len(),
        !run_goes_on(path[k]),
    ensures
        k == path.len() - 1,
        forall|j: int|
            0 <= j < path.len() - 1 ==> is_generation::<C, H>(#[trigger] path[j], path[j + 1]),
{
}

/// What the population never loses through the addition of offspring and
/// through the note of the end of a generation, it does not lose across a
/// run. With "the best is not worse under the comparator of the population"
/// for `keeps`: where neither makes the best worse, the best at the end of a
/// run is not worse than the best at its start.
pub proof fn lemma_evolution_keeps<C: HeuristicContext, H: HyperHeuristic<C>>(
    before: C,
    after: C,
    keeps: spec_fn(C::Population, C::Population) -> bool,
)
    requires
        evolved::<C, H>(before, after),
        forall|population: C::Population| #[trigger] keeps(population, population),
        forall|first: C::Population, second: C::Population, third: C::Population|
            #[trigger] keeps(first, second) && #[trigger] keeps(second, third) ==> keeps(
                first,
                third,
            ),
        forall|
            population: C::Population,
            offspring: Seq<C::Solution>,
            grown: C::Population,
            improved: bool,
        | #[trigger]
            population.added_all(offspring, &grown, improved) ==> keeps(population, grown),
        forall|population: C::Population, statistics: HeuristicStatistics, told: C::Population|
            #[trigger] population.notified(statistics, &told) ==> keeps(population, told),
    ensures
        keeps(before.population_spec(), after.population_spec()),
{
    let path = choose|path: Seq<C>|
        {
            &&& #[trigger] is_evolution_trail::<C, H>(path)
            &&& path.len() > 0
            &&& path.first() == before
            &&& path.last() == after
        };
    lemma_trail_keeps::<C, H>(path, keeps, path.len() - 1);
}

/// Along a trail of generations the population keeps what the addition of
/// offspring and the note of the end of a generation never lose.
proof fn lemma_trail_keeps<C: HeuristicContext, H: HyperHeuristic<C>>(
    path: Seq<C>,
    keeps: spec_fn(C::Population, C::Population) -> bool,
    k: int,
)
    requires
        is_evolution_trail::<C, H>(path),
        0 <= k < path.len(),
        forall|population: C::Population| #[trigger] keeps(population, population),
        forall|first: C::Population, second: C::Population, third: C::Population|
            #[trigger] keeps(first, second) && #[trigger] keeps(second, third) ==> keeps(
                first,
                third,
            ),
        forall|
            population: C::Population,
            offspring: Seq<C::Solution>,
            grown: C::Population,
            improved: bool,
        | #[trigger]
            population.added_all(offspring, &grown, improved) ==> keeps(population, grown),
        forall|population: C::Population, statistics: HeuristicStatistics, told: C::Population|
            #[trigger] population.notified(statistics, &told) ==> keeps(population, told),
    ensures
        keeps(path[0].population_spec(), path[k].population_spec()),
    decreases k,
{
    if k > 0 {
        lemma_trail_keeps::<C, H>(path, keeps, k - 1);
        let before = path[k - 1];
        let after = path[k];
        assert(is_generation::<C, H>(before, after));
        let (heuristic, parents, offspring, middle, is_improved) = choose|
            heuristic: H,
            parents: Seq<C::Solution>,
            offspring: Seq<C::Solution>,
            middle: C,
            is_improved: bool,
        |
            #![trigger
                heuristic.may_search(&before, parents, offspring),
                offspring_added(before, offspring, middle, is_improved)
            ]
            {
                &&& before.population_spec().may_select(parents)
                &&& heuristic.inv()
                &&& heuristic.may_search(&before, parents, offspring)
                &&& offspring_added(before, offspring, middle, is_improved)
                &&& generation_ended(middle, after, is_improved)
            };
        assert(keeps(before.population_spec(), middle.population_spec()));
        assert(keeps(middle.population_spec(), after.population_spec()));
    }
}

/// Whether a telemetry may hand over `metrics`.
pub open spec fn metrics_given<C: HeuristicContext>(metrics: Option<TelemetryMetrics>) -> bool {
    exists|told: Box<dyn Telemetry<C>>| #[trigger] told.may_give_metrics(metrics)
}

/// An evolution algorithm strategy: what happens between the seeding of the
/// population and the return of the solutions.
pub trait EvolutionStrategy<C: HeuristicContext>: Sized {
    /// The invariant that the strategy needs to run. One that has none keeps
    /// this default.
    open spec fn inv(&self) -> bool {
        true
    }

    /// The model of a run: whether `result` may be the result of the
    /// strategy on the context. A strategy that tells nothing about its runs
    /// keeps this default.
    open spec fn ran(&self, heuristic_ctx: C, result: EvolutionResult<C::Solution>) -> bool {
        true
    }

    /// Runs the evolution on the seeded context and returns the solutions.
    fn run(
        self,
        heuristic_ctx: C,
        termination: Box<dyn Termination<C>>,
        telemetry: Box<dyn Telemetry<C>>,
    ) -> (result: EvolutionResult<C::Solution>)
        requires
            self.inv(),
        ensures
            self.ran(heuristic_ctx, result),
    ;
}

/// A simple evolution algorithm which maintains a single population.
#[verifier::reject_recursive_types(C)]
pub struct RunSimple<C: HeuristicContext, H: HyperHeuristic<C>> {
    heuristic: H,
    desired_amount: usize,
    context: core::marker::PhantomData<C>,
}

impl<C: HeuristicContext, H: HyperHeuristic<C>> RunSimple<C, H> {
    /// The largest number of solutions that the run returns.
    pub closed spec fn desired_amount(&self) -> nat {
        self.desired_amount as nat
    }

    /// Whether the hyper-heuristic of the strategy keeps its invariant.
    pub closed spec fn heuristic_inv(&self) -> bool {
        self.heuristic.inv()
    }

    /// A strategy that makes the offspring of each generation with
    /// `heuristic` and returns up to `desired_amount` solutions.
    pub fn new(heuristic: H, desired_amount: usize) -> (strategy: Self)
        requires
            heuristic.inv(),
        ensures
            strategy.inv(),
            strategy.desired_amount() == desired_amount,
    {
        RunSimple { heuristic, desired_amount, context: core::marker::PhantomData }
    }
}

impl<C: HeuristicContext, H: HyperHeuristic<C>> EvolutionStrategy<C> for RunSimple<C, H> {
    open spec fn inv(&self) -> bool {
        self.heuristic_inv()
    }

    /// The run always succeeds. The context has gone through the generations
    /// of the run, and the solutions are the best of the population of the
    /// last context, best first, no more than desired. The metrics are what
    /// a telemetry hands over.
    open spec fn ran(&self, heuristic_ctx: C, result: EvolutionResult<C::Solution>) -> bool {
        exists|last: C|
            {
                &&& #[trigger] evolved::<C, H>(heuristic_ctx, last)
                &&& result matches Ok((solutions, metrics))
                &&& solutions@ == best_of(last, self.desired_amount())
                &&& metrics_given::<C>(metrics)
            }
    }

    /// Runs generations until the run stops. Before each generation the
    /// termination criterion is asked and the budget is polled. A generation
    /// selects parents, searches for their offspring, adds the offspring
    /// unless the budget forbids it, and ends with a note to the telemetry
    /// and the population. At the end the telemetry is told of the result,
    /// and the best solutions are copied out. No run has more generations
    /// than a `usize` counts.
    fn run(
        self,
        heuristic_ctx: C,
        termination: Box<dyn Termination<C>>,
        telemetry: Box<dyn Telemetry<C>>,
    ) -> (result: EvolutionResult<C::Solution>) {
        let ghost first = heuristic_ctx;
        let mut heuristic_ctx = heuristic_ctx;
        let mut termination = termination;
        let mut telemetry = telemetry;
        let RunSimple { heuristic, desired_amount, .. } = self;
        let mut heuristic = heuristic;

        let mut generation: usize = 0;
        let ghost mut path: Seq<C> = seq![heuristic_ctx];
        let ghost mut stopped = false;
        while generation < usize::MAX
            invariant_except_break
                !stopped,
            invariant
                heuristic.inv(),
                is_evolution_trail::<C, H>(path),
                path.len() == generation + 1,
                path.first() == first,
                path.last() == heuristic_ctx,
                stopped ==> run_stops(heuristic_ctx),
            ensures
                stopped || generation >= usize::MAX,
            decreases usize::MAX - generation,
        {
            let ghost before = heuristic_ctx;
            if should_stop(&heuristic_ctx, &mut termination) {
                proof {
                    stopped = true;
                }
                break ;
            }
            let generation_time = Timer::start();

            let parents = heuristic_ctx.population().select();
            let ghost selected = parents@.map_values(|solution: &C::Solution| *solution);
            let ghost searcher = heuristic;
            let offspring = heuristic.search(&heuristic_ctx, parents);
            let ghost made = offspring@;

            let is_improved = if should_add_solution(
                &heuristic_ctx.environment().quota,
                heuristic_ctx.population(),
            ) {
                heuristic_ctx.population_mut().add_all(offspring)
            } else {
                false
            };
            let ghost middle = heuristic_ctx;
            assert(offspring_added(before, made, middle, is_improved));

            on_generation(
                &mut heuristic_ctx,
                &mut telemetry,
                &termination,
                generation_time,
                is_improved,
            );
            proof {
                assert(searcher.may_search(&before, selected, made));
                assert(is_generation::<C, H>(before, heuristic_ctx));
                let longer = path.push(heuristic_ctx);
                assert forall|k: int| 0 <= k < longer.len() - 1 implies run_goes_on(
                    #[trigger] longer[k],
                ) && is_generation::<C, H>(longer[k], longer[k + 1]) by {
                    if k < path.len() - 1 {
                        assert(longer[k] == path[k]);
                        assert(longer[k + 1] == path[k + 1]);
                        assert(run_goes_on(path[k]));
                    } else {
                        assert(longer[k] == before);
                    }
                }
                path = longer;
            }
            generation = generation + 1;
        }
        assert(evolved::<C, H>(first, heuristic_ctx));

        telemetry.on_result(&heuristic_ctx);

        let solutions = best_solutions(&heuristic_ctx, desired_amount);
        let ghost told = telemetry;
        let metrics = telemetry.take_metrics();
        assert(told.may_give_metrics(metrics));

        Ok((solutions, metrics))
    }
}

} // verus!

verus! {

/// How the population is seeded.
#[verifier::reject_recursive_types(C)]
pub struct InitialConfig<C: HeuristicContext> {
    /// The operators that build initial solutions, each with its weight.
    pub operators: Vec<(Box<dyn InitialOperator<C>>, usize)>,
    /// The number of solutions that seeding aims at.
    pub max_size: usize,
    /// The share of the termination estimate that seeding may use up, in
    /// parts per million.
    pub quota: u32,
    /// The solutions supplied for the start.
    pub individuals: Vec<C::Solution>,
}

/// The configuration of a run.
#[verifier::reject_recursive_types(C)]
pub struct EvolutionConfig<C: HeuristicContext, E: EvolutionStrategy<C>> {
    /// How the population is seeded.
    pub initial: InitialConfig<C>,
    /// The population.
    pub population: C::Population,
    /// The termination criterion.
    pub termination: Box<dyn Termination<C>>,
    /// The collector of statistics.
    pub telemetry: Box<dyn Telemetry<C>>,
    /// The environment.
    pub environment: Environment,
    /// The strategy that runs the generations.
    pub evolution_strategy: E,
}

/// A seeded run: what is handed to the strategy.
#[verifier::reject_recursive_types(C)]
pub struct Seeded<C: HeuristicContext, E: EvolutionStrategy<C>> {
    /// The context, with the seeded population.
    pub heuristic_ctx: C,
    /// The strategy that runs the generations.
    pub evolution_strategy: E,
    /// The termination criterion.
    pub termination: Box<dyn Termination<C>>,
    /// The collector of statistics.
    pub telemetry: Box<dyn Telemetry<C>>,
    /// The stopwatch of the building of initial solutions.
    pub initial_time: Timer,
}

/// The smaller of two numbers.
pub open spec fn smaller(a: int, b: int) -> int {
    if a <= b {
        a
    } else {
        b
    }
}

/// The larger of two numbers.
pub open spec fn larger(a: int, b: int) -> int {
    if a >= b {
        a
    } else {
        b
    }
}

/// Whether a context factory hands the population on as large as it got it.
pub open spec fn keeps_size<C: HeuristicContext, F: FnOnce(C::Population) -> C>(
    context_factory: F,
) -> bool {
    forall|population: C::Population, heuristic_ctx: C|
        call_ensures(context_factory, (population,), heuristic_ctx)
            ==> heuristic_ctx.population_spec().size_spec() == population.size_spec()
}

/// The text of a note that a solution was skipped: the words of the note
/// and the position of the solution.
pub open spec fn skipped_text_of(words: Seq<char>, idx: usize) -> Seq<char> {
    words + decimal_text_of(idx)
}

/// Writes the note that the solution at position `idx` was skipped.
pub fn skipped_text(words: &str, idx: usize) -> (text: String)
    ensures
        text@ == skipped_text_of(words@, idx),
{
    String::from_str(words).concat(decimal_text(idx).as_str())
}

/// The text of a flag.
pub open spec fn flag_text_of(flag: bool) -> Seq<char> {
    if flag {
        "true"@
    } else {
        "false"@
    }
}

/// The text of the note that the building of initial solutions was stopped,
/// with the two reasons as flags.
pub open spec fn building_stopped_text_of(
    is_initial_quota_reached: bool,
    is_overall_termination: bool,
) -> Seq<char> {
    "stop building initial solutions due to initial quota reached ("@ + flag_text_of(
        is_initial_quota_reached,
    ) + ") or overall termination ("@ + flag_text_of(is_overall_termination) + ")."@
}

/// Writes the note that the building of initial solutions was stopped.
pub fn building_stopped_text(is_initial_quota_reached: bool, is_overall_termination: bool) -> (text:
    String)
    ensures
        text@ == building_stopped_text_of(is_initial_quota_reached, is_overall_termination),
{
    let text = String::from_str("stop building initial solutions due to initial quota reached (");
    let text = text.concat(
        if is_initial_quota_reached {
            "true"
        } else {
            "false"
        },
    );
    let text = text.concat(") or overall termination (");
    let text = text.concat(
        if is_overall_termination {
            "true"
        } else {
            "false"
        },
    );
    text.concat(").")
}

/// Whether the population `after` may be the population `before` after one
/// solution was considered for it: the budget was polled, and the solution
/// was added unless the budget forbade it.
pub open spec fn considered<P: HeuristicPopulation>(
    before: P,
    individual: P::Individual,
    after: P,
    quota: Option<Box<dyn Quota>>,
) -> bool {
    exists|is_quota_reached: bool|
        #![trigger adds(is_quota_reached, before.size_spec())]
        quota_answers(quota, is_quota_reached) && if adds(is_quota_reached, before.size_spec()) {
            before.added(individual, &after)
        } else {
            after == before
        }
}

/// Whether each population of a path but the last has become the next by
/// the consideration of the solution at its position.
pub open spec fn is_seeding_trail<P: HeuristicPopulation>(
    path: Seq<P>,
    individuals: Seq<P::Individual>,
    quota: Option<Box<dyn Quota>>,
) -> bool {
    forall|k: int|
        0 <= k < path.len() - 1 ==> considered(#[trigger] path[k], individuals[k], path[k + 1], quota)
}

/// Whether the population `after` may be the population `before` after the
/// first `count` of the solutions were considered for it, one after another.
pub open spec fn seeded_from<P: HeuristicPopulation>(
    before: P,
    after: P,
    individuals: Seq<P::Individual>,
    count: int,
    quota: Option<Box<dyn Quota>>,
) -> bool {
    exists|path: Seq<P>|
        #[trigger] is_seeding_trail(path, individuals, quota) && path.len() == count + 1
            && path.first() == before && path.last() == after
}

/// Adds the first `max_size` of the supplied solutions to the population, in
/// order. For each the budget is polled, and the solution is added unless
/// the budget forbids it: so each is added in a run without a budget, and
/// the first is added to an empty population. The population grows by no
/// more than the number of solutions considered.
pub fn add_initial_individuals<C: HeuristicContext>(
    population: &mut C::Population,
    individuals: Vec<C::Solution>,
    max_size: usize,
    quota: &Option<Box<dyn Quota>>,
    telemetry: &mut Box<dyn Telemetry<C>>,
)
    ensures
        seeded_from(
            *old(population),
            *final(population),
            individuals@,
            smaller(individuals.len() as int, max_size as int),
            *quota,
        ),
        final(population).size_spec() <= old(population).size_spec() + smaller(
            individuals.len() as int,
            max_size as int,
        ),
{
    let mut idx: usize = 0;
    let ghost supplied = individuals@;
    let ghost count = individuals.len();
    let ghost mut path: Seq<C::Population> = seq![*population];
    for solution in iter: individuals.into_iter()
        invariant
            idx == iter.index(),
            iter.seq() == supplied,
            supplied.len() == count,
            is_seeding_trail(path, supplied, *quota),
            path.len() == smaller(idx as int, max_size as int) + 1,
            path.first() == *old(population),
            path.last() == *population,
            population.size_spec() <= old(population).size_spec() + smaller(
                idx as int,
                max_size as int,
            ),
    {
        if idx < max_size {
            let ghost before = *population;
            assert(solution == supplied[idx as int]);
            if should_add_solution(quota, &*population) {
                telemetry.on_initial(&solution, idx, max_size, Timer::start());
                population.add(solution);
            } else {
                telemetry.log(&skipped_text("skipping provided initial solution ", idx));
            }
            proof {
                assert(considered(before, supplied[idx as int], *population, *quota));
                let longer = path.push(*population);
                assert forall|k: int| 0 <= k < longer.len() - 1 implies considered(
                    #[trigger] longer[k],
                    supplied[k],
                    longer[k + 1],
                    *quota,
                ) by {
                    if k < path.len() - 1 {
                        assert(longer[k] == path[k]);
                        assert(longer[k + 1] == path[k + 1]);
                        assert(considered(path[k], supplied[k], path[k + 1], *quota));
                    } else {
                        assert(longer[k] == before);
                    }
                }
                path = longer;
            }
        }
        idx = idx + 1;
    }
}

} // verus!

verus! {

/// The weights of the operators, in their order.
pub open spec fn weights_of<C: HeuristicContext>(
    operators: Seq<(Box<dyn InitialOperator<C>>, usize)>,
) -> Seq<u64> {
    Seq::new(operators.len(), |i: int| operators[i].1 as u64)
}

/// Whether the criterion, asked in the context, may have let the building of
/// initial solutions go on: it has not asked for the end of the run, and its
/// estimate has not gone beyond `quota`.
pub open spec fn building_goes_on<C: HeuristicContext>(heuristic_ctx: C, quota: u32) -> bool {
    exists|asked: Box<dyn Termination<C>>, answered: Box<dyn Termination<C>>, estimate: u32|
        #![trigger
            asked.may_terminate(&heuristic_ctx, false),
            answered.may_estimate(&heuristic_ctx, estimate)
        ]
        asked.may_terminate(&heuristic_ctx, false) && answered.may_estimate(
            &heuristic_ctx,
            estimate,
        ) && estimate <= quota
}

/// Whether the context `after` may be the context `before` after the
/// initial solution at position `idx` was built: the operator at the index
/// picked for the position has created a solution, and the solution was
/// considered for the population of the context, under the budget of its
/// environment.
pub open spec fn built<C: HeuristicContext>(
    before: C,
    after: C,
    operators: Seq<(Box<dyn InitialOperator<C>>, usize)>,
    random: &Box<dyn Random>,
    idx: usize,
) -> bool {
    exists|drawn: usize, solution: C::Solution|
        #![trigger
            operators[initial_operator_index(idx, operators.len(), drawn) as int].0.may_create(
                &before,
                solution,
            )
        ]
        (idx < operators.len() || random.may_draw(weights_of(operators), drawn))
            && operators[initial_operator_index(idx, operators.len(), drawn) as int].0.may_create(
            &before,
            solution,
        ) && considered(
            before.population_spec(),
            solution,
            after.population_spec(),
            before.environment_spec().quota,
        )
}

/// Whether each context of a path but the last has let the building go on
/// and has become the next by the building of the solution at its position,
/// the positions counting from `start`.
pub open spec fn is_building_trail<C: HeuristicContext>(
    path: Seq<C>,
    operators: Seq<(Box<dyn InitialOperator<C>>, usize)>,
    random: &Box<dyn Random>,
    start: usize,
    quota: u32,
) -> bool {
    forall|k: int|
        0 <= k < path.len() - 1 ==> building_goes_on(#[trigger] path[k], quota) && built(
            path[k],
            path[k + 1],
            operators,
            random,
            (start + k) as usize,
        )
}

/// Whether the criterion, asked in the context, may have ended the building
/// of initial solutions: it has asked for the end of the run, or its
/// estimate has gone beyond `quota`.
pub open spec fn building_halts<C: HeuristicContext>(heuristic_ctx: C, quota: u32) -> bool {
    exists|
        asked: Box<dyn Termination<C>>,
        answered: Box<dyn Termination<C>>,
        terminated: bool,
        estimate: u32,
    |
        #![trigger
            asked.may_terminate(&heuristic_ctx, terminated),
            answered.may_estimate(&heuristic_ctx, estimate)
        ]
        asked.may_terminate(&heuristic_ctx, terminated) && answered.may_estimate(
            &heuristic_ctx,
            estimate,
        ) && (terminated || estimate > quota)
}

/// Whether the context `after` may be the context `before` after the
/// building of initial solutions. Solutions were built one after another,
/// at the positions that count from the size of the population at the start,
/// each after the criterion had let the building go on. The building ended
/// because the population had `max_size` solutions, because the criterion
/// ended it, or because the positions were used up.
pub open spec fn built_from<C: HeuristicContext>(
    before: C,
    after: C,
    operators: Seq<(Box<dyn InitialOperator<C>>, usize)>,
    random: &Box<dyn Random>,
    max_size: usize,
    quota: u32,
) -> bool {
    exists|path: Seq<C>|
        {
            &&& #[trigger] is_building_trail(
                path,
                operators,
                random,
                before.population_spec().size_spec() as usize,
                quota,
            )
            &&& path.len() > 0
            &&& path.first() == before
            &&& path.last() == after
            &&& {
                ||| after.population_spec().size_spec() >= max_size
                ||| before.population_spec().size_spec() + path.len() - 1 >= usize::MAX
                ||| building_halts(after, quota)
            }
        }
}

/// Builds initial solutions while the population has fewer than `max_size`
/// of them. Before each the criterion is asked, and the building ends where
/// the run has to end or the termination estimate has gone beyond `quota`.
/// The positions count from the size of the population at the start: the
/// first solutions are built by the operators in their order, the rest by
/// operators drawn by their weights. Each solution is added unless the
/// budget forbids it. The population never grows beyond the larger of its
/// size and `max_size`, and no more positions are tried than a `usize` counts.
pub fn build_initial_solutions<C: HeuristicContext>(
    heuristic_ctx: &mut C,
    operators: &Vec<(Box<dyn InitialOperator<C>>, usize)>,
    max_size: usize,
    quota: u32,
    random: &Box<dyn Random>,
    termination: &mut Box<dyn Termination<C>>,
    telemetry: &mut Box<dyn Telemetry<C>>,
)
    requires
        operators.len() > 0,
    ensures
        final(heuristic_ctx).population_spec().size_spec() <= larger(
            old(heuristic_ctx).population_spec().size_spec() as int,
            max_size as int,
        ),
        built_from(*old(heuristic_ctx), *final(heuristic_ctx), operators@, random, max_size, quota),
        old(heuristic_ctx).population_spec().size_spec() >= max_size ==> *final(heuristic_ctx)
            == *old(heuristic_ctx) && *final(termination) == *old(termination),
{
    let mut weights: Vec<u64> = Vec::new();
    let mut i: usize = 0;
    while i < operators.len()
        invariant
            i <= operators.len(),
            weights.len() == i,
            forall|k: int| 0 <= k < i ==> #[trigger] weights[k] == operators[k].1 as u64,
        decreases operators.len() - i,
    {
        weights.push(operators[i].1 as u64);
        i = i + 1;
    }
    assert(weights@ =~= weights_of(operators@));

    let start = heuristic_ctx.population().size();
    let mut idx: usize = start;
    let ghost mut path: Seq<C> = seq![*heuristic_ctx];
    let ghost mut ended = false;
    while idx < usize::MAX
        invariant_except_break
            !ended,
        invariant
            operators.len() > 0,
            weights@ == weights_of(operators@),
            start <= idx,
            start == old(heuristic_ctx).population_spec().size_spec(),
            heuristic_ctx.population_spec().size_spec() <= larger(start as int, max_size as int),
            is_building_trail(path, operators@, random, start, quota),
            path.len() == idx - start + 1,
            path.first() == *old(heuristic_ctx),
            path.last() == *heuristic_ctx,
            idx == start ==> *heuristic_ctx == *old(heuristic_ctx),
            start >= max_size ==> *termination == *old(termination) && idx == start,
            ended ==> heuristic_ctx.population_spec().size_spec() >= max_size || building_halts(
                *heuristic_ctx,
                quota,
            ),
        ensures
            ended || idx >= usize::MAX,
        decreases usize::MAX - idx,
    {
        if heuristic_ctx.population().size() >= max_size {
            proof {
                ended = true;
            }
            break ;
        }
        let item_time = Timer::start();
        let ghost before = *heuristic_ctx;
        let ghost asked = *termination;

        let is_overall_termination = termination.is_termination(&*heuristic_ctx);
        let estimate = termination.estimate(&*heuristic_ctx);
        let is_initial_quota_reached = estimate > quota;

        if is_initial_quota_reached || is_overall_termination {
            telemetry.log(&building_stopped_text(is_initial_quota_reached, is_overall_termination));
            proof {
                assert(asked.may_terminate(&*heuristic_ctx, is_overall_termination)
                    && termination.may_estimate(&*heuristic_ctx, estimate));
                assert(building_halts(*heuristic_ctx, quota));
                ended = true;
            }
            break ;
        }
        let ghost answered = *termination;
        assert(asked.may_terminate(&before, false) && answered.may_estimate(&before, estimate));
        assert(building_goes_on(before, quota));
        let drawn = if idx < operators.len() {
            idx
        } else {
            random.weighted(&weights)
        };
        let operator_idx = pick_initial_operator(idx, operators.len(), drawn);

        let solution = operators[operator_idx].0.create(&*heuristic_ctx);
        assert(operators@[initial_operator_index(idx, operators@.len(), drawn) as int].0.may_create(
            &before,
            solution,
        ));

        if should_add_solution(&heuristic_ctx.environment().quota, heuristic_ctx.population()) {
            telemetry.on_initial(&solution, idx, max_size, item_time);
            heuristic_ctx.population_mut().add(solution);
        } else {
            telemetry.log(&skipped_text("skipping built initial solution ", idx));
        }
        proof {
            assert(considered(
                before.population_spec(),
                solution,
                heuristic_ctx.population_spec(),
                before.environment_spec().quota,
            ));
            assert(built(before, *heuristic_ctx, operators@, random, idx));
            let longer = path.push(*heuristic_ctx);
            assert forall|k: int| 0 <= k < longer.len() - 1 implies building_goes_on(
                #[trigger] longer[k],
                quota,
            ) && built(longer[k], longer[k + 1], operators@, random, (start + k) as usize) by {
                if k < path.len() - 1 {
                    assert(longer[k] == path[k]);
                    assert(longer[k + 1] == path[k + 1]);
                    assert(building_goes_on(path[k], quota));
                } else {
                    assert(longer[k] == before);
                }
            }
            path = longer;
        }
        idx = idx + 1;
    }
}

/// Whether the context `seeded` may be what the seeding makes of a
/// configuration. The first `max_size` of the supplied solutions were
/// considered for the population, in order; the factory made a context of
/// the population; and initial solutions were built in the context.
pub open spec fn seeded_by<C: HeuristicContext, E: EvolutionStrategy<C>, F: FnOnce(C::Population) -> C>(
    config: EvolutionConfig<C, E>,
    context_factory: F,
    seeded: C,
) -> bool {
    exists|population: C::Population, made: C|
        #![trigger call_ensures(context_factory, (population,), made)]
        {
            &&& seeded_from(
                config.population,
                population,
                config.initial.individuals@,
                smaller(config.initial.individuals.len() as int, config.initial.max_size as int),
                config.environment.quota,
            )
            &&& call_ensures(context_factory, (population,), made)
            &&& built_from(
                made,
                seeded,
                config.initial.operators@,
                &config.environment.random,
                config.initial.max_size,
                config.initial.quota,
            )
            &&& made.population_spec().size_spec() == population.size_spec()
                ==> seeded.population_spec().size_spec() <= larger(
                config.population.size_spec() + smaller(
                    config.initial.individuals.len() as int,
                    config.initial.max_size as int,
                ),
                config.initial.max_size as int,
            )
        }
}

/// Whether the context `after` may be the seeded context `before` after the
/// seeding was noted: a seeding that has given a solution is noted as a
/// first generation, and as one that improved; any other is not noted.
pub open spec fn seeding_noted<C: HeuristicContext>(before: C, after: C) -> bool {
    if before.population_spec().size_spec() > 0 {
        generation_ended(before, after, true)
    } else {
        after == before
    }
}

/// Whether `result` may be the result of the simulation of a configuration:
/// the population was seeded, the seeding was noted, and the strategy ran on
/// the context.
pub open spec fn simulated<C: HeuristicContext, E: EvolutionStrategy<C>, F: FnOnce(C::Population) -> C>(
    config: EvolutionConfig<C, E>,
    context_factory: F,
    result: EvolutionResult<C::Solution>,
) -> bool {
    exists|seeded: C, noted: C|
        #![trigger seeded_by(config, context_factory, seeded), seeding_noted(seeded, noted)]
        {
            &&& seeded_by(config, context_factory, seeded)
            &&& seeding_noted(seeded, noted)
            &&& config.evolution_strategy.ran(noted, result)
        }
}

/// An entity which simulates the evolution process.
#[verifier::reject_recursive_types(C)]
#[verifier::reject_recursive_types(F)]
pub struct EvolutionSimulator<
    C: HeuristicContext,
    E: EvolutionStrategy<C>,
    F: FnOnce(C::Population) -> C,
> {
    config: EvolutionConfig<C, E>,
    context_factory: F,
}

impl<C: HeuristicContext, E: EvolutionStrategy<C>, F: FnOnce(C::Population) -> C> EvolutionSimulator<
    C,
    E,
    F,
> {
    /// The configuration of the run.
    pub closed spec fn config(&self) -> EvolutionConfig<C, E> {
        self.config
    }

    /// The factory that makes the context around the population.
    pub closed spec fn context_factory(&self) -> F {
        self.context_factory
    }

    /// What a run needs: an operator to build initial solutions with, a
    /// strategy that can run, and a factory that takes any population.
    pub open spec fn wf(&self) -> bool {
        &&& self.config().initial.operators.len() > 0
        &&& self.config().evolution_strategy.inv()
        &&& forall|population: C::Population|
            call_requires(self.context_factory(), (population,))
    }

    /// Creates a simulator, or refuses a configuration that cannot run: one
    /// without an initial operator, or one that aims at no solution.
    pub fn new(config: EvolutionConfig<C, E>, context_factory: F) -> (result: Result<Self, String>)
        ensures
            match result {
                Ok(simulator) => {
                    &&& config.initial.operators.len() > 0
                    &&& config.initial.max_size > 0
                    &&& simulator.config() == config
                    &&& simulator.context_factory() == context_factory
                },
                Err(message) => if config.initial.operators.len() == 0 {
                    message@ == "at least one initial method has to be specified"@
                } else {
                    config.initial.max_size == 0 && message@
                        == "initial population size has to be positive"@
                },
            },
    {
        if config.initial.operators.len() == 0 {
            return Err("at least one initial method has to be specified".to_owned());
        }
        if config.initial.max_size == 0 {
            return Err("initial population size has to be positive".to_owned());
        }
        Ok(Self { config, context_factory })
    }

    /// Seeds the population: first from the supplied solutions, then, with
    /// the context made around the population, from the initial operators.
    /// Where the factory hands the population on as it got it, seeding never
    /// takes the population beyond `max_size`, unless the supplied population
    /// was already so large that the supplied solutions do: a population that
    /// starts empty ends with at most `max_size` solutions.
    pub fn seed(self) -> (seeded: Seeded<C, E>)
        requires
            self.wf(),
        ensures
            seeded.evolution_strategy == self.config().evolution_strategy,
            seeded_by(self.config(), self.context_factory(), seeded.heuristic_ctx),
            keeps_size::<C, F>(self.context_factory())
                ==> seeded.heuristic_ctx.population_spec().size_spec() <= larger(
                self.config().population.size_spec() + smaller(
                    self.config().initial.individuals.len() as int,
                    self.config().initial.max_size as int,
                ),
                self.config().initial.max_size as int,
            ),
    {
        let EvolutionSimulator { config, context_factory } = self;
        let EvolutionConfig {
            initial,
            population,
            termination,
            telemetry,
            environment,
            evolution_strategy,
        } = config;
        let InitialConfig { operators, max_size, quota, individuals } = initial;
        let mut population = population;
        let mut termination = termination;
        let mut telemetry = telemetry;

        telemetry.log("preparing initial solution(-s)");

        add_initial_individuals::<C>(
            &mut population,
            individuals,
            max_size,
            &environment.quota,
            &mut telemetry,
        );

        assert(context_factory == self.context_factory());
        assert(call_requires(context_factory, (population,)));
        let ghost supplied = population;
        let mut heuristic_ctx = context_factory(population);
        let ghost made = heuristic_ctx;
        assert(call_ensures(context_factory, (supplied,), made));

        let initial_time = Timer::start();
        build_initial_solutions(
            &mut heuristic_ctx,
            &operators,
            max_size,
            quota,
            &environment.random,
            &mut termination,
            &mut telemetry,
        );

        Seeded { heuristic_ctx, evolution_strategy, termination, telemetry, initial_time }
    }

    /// Runs the evolution: seeds the population, notes the seeding as a first
    /// generation where it gave a solution, and hands over to the strategy.
    /// The result is that of the strategy on the context that was seeded and
    /// noted.
    pub fn run(self) -> (result: EvolutionResult<C::Solution>)
        requires
            self.wf(),
        ensures
            simulated(self.config(), self.context_factory(), result),
    {
        let Seeded { heuristic_ctx, evolution_strategy, termination, telemetry, initial_time } =
            self.seed();
        let ghost seeded = heuristic_ctx;
        let mut heuristic_ctx = heuristic_ctx;
        let mut telemetry = telemetry;

        if heuristic_ctx.population().size() > 0 {
            on_generation(&mut heuristic_ctx, &mut telemetry, &termination, initial_time, true);
        } else {
            telemetry.log("created an empty population");
        }
        assert(seeding_noted(seeded, heuristic_ctx));

        evolution_strategy.run(heuristic_ctx, termination, telemetry)
    }
}

} // verus!
