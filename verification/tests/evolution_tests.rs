use rosomaxa::dynamic_selective::DynamicSelective;
use rosomaxa::evolution::{
    add_initial_individuals, best_solutions, build_initial_solutions, building_stopped_text, is_addition, is_quota_reached, is_stop,
    pick_initial_operator, should_add_solution, skipped_text, EvolutionConfig, EvolutionSimulator, EvolutionStrategy,
    InitialConfig, RunSimple,
};
use rosomaxa::heuristics::{
    Environment, HeuristicContext, HeuristicObjective, HeuristicOperator, HeuristicOperators,
    HeuristicPopulation, HeuristicSolution, HeuristicStatistics, HyperHeuristic, InitialOperator, Quota,
    Random, Telemetry, TelemetryMetrics, Termination,
};
use rosomaxa::search_state::{Comparison, UNIT};
use rosomaxa::timer::Timer;
use std::cell::{Cell, RefCell};
use std::rc::Rc;

#[derive(Clone, Debug, PartialEq)]
struct Real(i64);

impl HeuristicSolution for Real {
    fn deep_copy(&self) -> Self {
        Real(self.0)
    }
}

struct Minimize;

impl HeuristicObjective<Real> for Minimize {
    fn total_order(&self, a: &Real, b: &Real) -> Comparison {
        if a.0 < b.0 {
            Comparison::Less
        } else if a.0 > b.0 {
            Comparison::Greater
        } else {
            Comparison::Equal
        }
    }

    fn fitness(&self, solution: &Real) -> Vec<i64> {
        vec![solution.0]
    }
}

struct Sorted {
    individuals: Vec<Real>,
    capacity: usize,
    notified: Rc<Cell<usize>>,
}

impl Sorted {
    fn new(capacity: usize) -> Self {
        Sorted { individuals: vec![], capacity, notified: Rc::new(Cell::new(0)) }
    }
}

impl HeuristicPopulation for Sorted {
    type Individual = Real;

    fn add(&mut self, individual: Real) -> bool {
        let improved = self.individuals.first().map_or(true, |best| individual.0 < best.0);
        let position =
            self.individuals.iter().position(|other| individual.0 < other.0).unwrap_or(self.individuals.len());
        self.individuals.insert(position, individual);
        self.individuals.truncate(self.capacity);
        improved
    }

    fn add_all(&mut self, individuals: Vec<Real>) -> bool {
        let mut improved = false;
        for individual in individuals {
            improved |= self.add(individual);
        }
        improved
    }

    fn on_generation(&mut self, _statistics: &HeuristicStatistics) {
        self.notified.set(self.notified.get() + 1);
    }

    fn select(&self) -> Vec<&Real> {
        self.individuals.iter().collect()
    }

    fn ranked(&self) -> Vec<&Real> {
        self.individuals.iter().collect()
    }

    fn size(&self) -> usize {
        self.individuals.len()
    }
}

struct Exploit;

impl Random for Exploit {
    fn uniform(&self) -> u32 {
        999_999
    }

    fn weighted(&self, _weights: &Vec<u64>) -> usize {
        0
    }
}

struct Drawn {
    index: usize,
    weights: Rc<RefCell<Vec<Vec<u64>>>>,
}

impl Random for Drawn {
    fn uniform(&self) -> u32 {
        999_999
    }

    fn weighted(&self, weights: &Vec<u64>) -> usize {
        self.weights.borrow_mut().push(weights.clone());
        self.index
    }
}

struct Flag(Rc<Cell<bool>>);

impl Quota for Flag {
    fn is_reached(&self) -> bool {
        self.0.get()
    }
}

struct After {
    generations: Rc<Cell<usize>>,
    limit: usize,
}

impl Quota for After {
    fn is_reached(&self) -> bool {
        self.generations.get() >= self.limit
    }
}

struct Context {
    objective: Minimize,
    population: Sorted,
    environment: Environment,
}

impl HeuristicContext for Context {
    type Solution = Real;
    type Objective = Minimize;
    type Population = Sorted;

    fn objective(&self) -> &Minimize {
        &self.objective
    }

    fn population(&self) -> &Sorted {
        &self.population
    }

    fn population_mut(&mut self) -> &mut Sorted {
        &mut self.population
    }

    fn statistics(&self) -> HeuristicStatistics {
        HeuristicStatistics { generation: 0, improvement_all_ratio: 0, improvement_1000_ratio: 0, termination_estimate: 0 }
    }

    fn environment(&self) -> &Environment {
        &self.environment
    }
}

fn environment(quota: Option<Box<dyn Quota>>) -> Environment {
    Environment { random: Box::new(Exploit), parallelism: 1, quota }
}

#[derive(Default)]
struct Record {
    logs: RefCell<Vec<String>>,
    initial: RefCell<Vec<(i64, usize, usize)>>,
    generations: RefCell<Vec<(u32, bool)>>,
    bests: RefCell<Vec<Option<i64>>>,
    results: Cell<usize>,
    generation_count: Rc<Cell<usize>>,
}

struct Recorder(Rc<Record>);

impl Telemetry<Context> for Recorder {
    fn log(&mut self, message: &str) {
        self.0.logs.borrow_mut().push(message.to_string());
    }

    fn on_initial(&mut self, solution: &Real, item_idx: usize, total_items: usize, _item_time: Timer) {
        self.0.initial.borrow_mut().push((solution.0, item_idx, total_items));
    }

    fn on_generation(
        &mut self,
        _heuristic_ctx: &Context,
        termination_estimate: u32,
        _generation_time: Timer,
        is_improved: bool,
    ) -> HeuristicStatistics {
        self.0.generations.borrow_mut().push((termination_estimate, is_improved));
        self.0.bests.borrow_mut().push(_heuristic_ctx.population().ranked().first().map(|best| best.0));
        self.0.generation_count.set(self.0.generation_count.get() + 1);
        HeuristicStatistics {
            generation: self.0.generation_count.get(),
            improvement_all_ratio: 0,
            improvement_1000_ratio: 0,
            termination_estimate,
        }
    }

    fn on_result(&mut self, _heuristic_ctx: &Context) {
        self.0.results.set(self.0.results.get() + 1);
    }

    fn take_metrics(&mut self) -> Option<TelemetryMetrics> {
        Some(TelemetryMetrics { duration: 0, generations: self.0.generation_count.get() })
    }
}

struct MaxGenerations {
    generations: Rc<Cell<usize>>,
    limit: usize,
}

impl Termination<Context> for MaxGenerations {
    fn is_termination(&mut self, _heuristic_ctx: &Context) -> bool {
        self.generations.get() >= self.limit
    }

    fn estimate(&self, _heuristic_ctx: &Context) -> u32 {
        ((self.generations.get().min(self.limit) * 1_000_000) / self.limit.max(1)) as u32
    }
}

struct Asked {
    asked: Cell<usize>,
    limit: usize,
}

impl Termination<Context> for Asked {
    fn is_termination(&mut self, _heuristic_ctx: &Context) -> bool {
        self.asked.set(self.asked.get() + 1);
        self.asked.get() > self.limit
    }

    fn estimate(&self, _heuristic_ctx: &Context) -> u32 {
        0
    }
}

struct Estimate(u32);

impl Termination<Context> for Estimate {
    fn is_termination(&mut self, _heuristic_ctx: &Context) -> bool {
        false
    }

    fn estimate(&self, _heuristic_ctx: &Context) -> u32 {
        self.0
    }
}

struct Constant(i64);

impl InitialOperator<Context> for Constant {
    fn create(&self, _heuristic_ctx: &Context) -> Real {
        Real(self.0)
    }
}

struct Shift(i64);

impl HeuristicOperator<Context> for Shift {
    fn search(&self, _ctx: &Context, solution: &Real) -> Option<Real> {
        Some(Real(solution.0 + self.0))
    }
}

type Strategy = RunSimple<Context, DynamicSelective<Context>>;

fn strategy(desired_amount: usize) -> Strategy {
    let operators: HeuristicOperators<Context> = vec![(Box::new(Shift(-100_000)), "delta".to_string())];
    RunSimple::new(DynamicSelective::new(operators, Box::new(Exploit)), desired_amount)
}

fn initial(operators: Vec<i64>, max_size: usize, individuals: Vec<i64>) -> InitialConfig<Context> {
    InitialConfig {
        operators: operators
            .into_iter()
            .map(|value| (Box::new(Constant(value)) as Box<dyn InitialOperator<Context>>, (value % 7) as usize))
            .collect(),
        max_size,
        quota: 1_000_000,
        individuals: individuals.into_iter().map(Real).collect(),
    }
}

fn config(
    initial: InitialConfig<Context>,
    record: &Rc<Record>,
    limit: usize,
    quota: Option<Box<dyn Quota>>,
    desired_amount: usize,
) -> EvolutionConfig<Context, Strategy> {
    EvolutionConfig {
        initial,
        population: Sorted::new(4),
        termination: Box::new(MaxGenerations { generations: record.generation_count.clone(), limit }),
        telemetry: Box::new(Recorder(record.clone())),
        environment: environment(quota),
        evolution_strategy: strategy(desired_amount),
    }
}

fn factory(quota: Option<Rc<Cell<bool>>>) -> impl FnOnce(Sorted) -> Context {
    move |population| Context {
        objective: Minimize,
        population,
        environment: environment(quota.map(|flag| Box::new(Flag(flag)) as Box<dyn Quota>)),
    }
}

#[test]
fn run_stops_without_budget_only_on_termination() {
    for is_terminated in [true, false] {
        assert_eq!(is_stop(is_terminated, false), is_terminated);
        assert!(is_stop(is_terminated, true));
    }
}

#[test]
fn additions_are_made_while_budget_lasts_or_population_is_empty() {
    assert!(is_addition(false, 0));
    assert!(is_addition(false, 5));
    assert!(is_addition(true, 0));
    assert!(!is_addition(true, 1));
    assert!(!is_addition(true, usize::MAX));
}

#[test]
fn initial_operators_are_used_in_order_and_then_drawn() {
    assert_eq!(pick_initial_operator(0, 3, 2), 0);
    assert_eq!(pick_initial_operator(2, 3, 0), 2);
    assert_eq!(pick_initial_operator(3, 3, 1), 1);
    assert_eq!(pick_initial_operator(9, 3, 2), 2);
    // a draw that names no operator falls back to the first
    assert_eq!(pick_initial_operator(9, 3, 3), 0);
    assert_eq!(pick_initial_operator(9, 3, usize::MAX), 0);
}

#[test]
fn quota_is_polled() {
    let flag = Rc::new(Cell::new(false));
    let quota: Option<Box<dyn Quota>> = Some(Box::new(Flag(flag.clone())));
    assert!(!is_quota_reached(&quota));
    flag.set(true);
    assert!(is_quota_reached(&quota));
    assert!(!is_quota_reached(&None));
}

#[test]
fn solutions_are_added_by_quota_and_size() {
    let flag = Rc::new(Cell::new(true));
    let quota: Option<Box<dyn Quota>> = Some(Box::new(Flag(flag.clone())));
    let mut population = Sorted::new(4);
    assert!(should_add_solution(&quota, &population));
    population.add(Real(1));
    assert!(!should_add_solution(&quota, &population));
    assert!(should_add_solution(&None, &population));
    flag.set(false);
    assert!(should_add_solution(&quota, &population));
}

#[test]
fn can_refuse_configuration_without_initial_operators() {
    let record = Rc::new(Record::default());
    let result = EvolutionSimulator::new(config(initial(vec![], 4, vec![5]), &record, 5, None, 1), factory(None));
    assert_eq!(result.err(), Some("at least one initial method has to be specified".to_string()));
    assert!(record.logs.borrow().is_empty());
    assert!(record.initial.borrow().is_empty());
    assert!(record.generations.borrow().is_empty());
    assert_eq!(record.results.get(), 0);
}

#[test]
fn can_refuse_configuration_without_size() {
    let record = Rc::new(Record::default());
    let result = EvolutionSimulator::new(config(initial(vec![1], 0, vec![5]), &record, 5, None, 1), factory(None));
    assert_eq!(result.err(), Some("initial population size has to be positive".to_string()));
    assert!(record.initial.borrow().is_empty());
    assert!(record.generations.borrow().is_empty());

    let both = EvolutionSimulator::new(config(initial(vec![], 0, vec![]), &record, 5, None, 1), factory(None));
    assert_eq!(both.err(), Some("at least one initial method has to be specified".to_string()));
}

#[test]
fn can_run_single_operator_to_the_expected_best() {
    let record = Rc::new(Record::default());
    // the seeding counts as a generation, five more follow
    let simulator =
        EvolutionSimulator::new(config(initial(vec![20 * UNIT], 1, vec![10 * UNIT]), &record, 6, None, 1), factory(None))
            .ok()
            .unwrap();
    let (solutions, metrics) = simulator.run().unwrap();
    assert_eq!(solutions, vec![Real(9_500_000)]);
    assert_eq!(metrics.map(|metrics| metrics.generations), Some(6));
    assert_eq!(record.generations.borrow().len(), 6);
    assert_eq!(record.generations.borrow()[0].1, true);
    assert!(record.generations.borrow().iter().all(|(_, is_improved)| *is_improved));
    assert_eq!(record.results.get(), 1);
    assert_eq!(*record.initial.borrow(), vec![(10 * UNIT, 0, 1)]);
    assert_eq!(record.logs.borrow()[0], "preparing initial solution(-s)");
}

#[test]
fn seeding_takes_supplied_solutions_up_to_max_size() {
    let record = Rc::new(Record::default());
    let mut population = Sorted::new(100);
    let mut telemetry: Box<dyn Telemetry<Context>> = Box::new(Recorder(record.clone()));
    add_initial_individuals::<Context>(
        &mut population,
        vec![Real(5), Real(3), Real(9), Real(1), Real(7)],
        3,
        &None,
        &mut telemetry,
    );
    assert_eq!(population.size(), 3);
    assert_eq!(population.individuals, vec![Real(3), Real(5), Real(9)]);
    assert_eq!(*record.initial.borrow(), vec![(5, 0, 3), (3, 1, 3), (9, 2, 3)]);
}

#[test]
fn seeding_skips_supplied_solutions_when_quota_is_reached() {
    let record = Rc::new(Record::default());
    let mut population = Sorted::new(100);
    let mut telemetry: Box<dyn Telemetry<Context>> = Box::new(Recorder(record.clone()));
    let quota: Option<Box<dyn Quota>> = Some(Box::new(Flag(Rc::new(Cell::new(true)))));
    add_initial_individuals::<Context>(&mut population, vec![Real(5), Real(3), Real(9)], 3, &quota, &mut telemetry);
    // an empty population takes the first solution whatever the budget
    assert_eq!(population.individuals, vec![Real(5)]);
    assert_eq!(
        *record.logs.borrow(),
        vec!["skipping provided initial solution 1", "skipping provided initial solution 2"]
    );
}

fn seeding_context(values: &[i64], quota: Option<Rc<Cell<bool>>>) -> Context {
    let mut population = Sorted::new(100);
    for value in values {
        population.add(Real(*value));
    }
    factory(quota)(population)
}

fn operators(values: &[i64]) -> Vec<(Box<dyn InitialOperator<Context>>, usize)> {
    values
        .iter()
        .enumerate()
        .map(|(index, value)| (Box::new(Constant(*value)) as Box<dyn InitialOperator<Context>>, index + 1))
        .collect()
}

#[test]
fn seeding_builds_the_remainder_with_each_operator_first() {
    let record = Rc::new(Record::default());
    let weights = Rc::new(RefCell::new(vec![]));
    let random: Box<dyn Random> = Box::new(Drawn { index: 1, weights: weights.clone() });
    let mut ctx = seeding_context(&[], None);
    let mut termination: Box<dyn Termination<Context>> = Box::new(Estimate(0));
    let mut telemetry: Box<dyn Telemetry<Context>> = Box::new(Recorder(record.clone()));
    build_initial_solutions(&mut ctx, &operators(&[10, 20, 30]), 5, 500_000, &random, &mut termination, &mut telemetry);
    assert_eq!(ctx.population().size(), 5);
    // one of each in order, then the drawn operator twice
    assert_eq!(*record.initial.borrow(), vec![(10, 0, 5), (20, 1, 5), (30, 2, 5), (20, 3, 5), (20, 4, 5)]);
    assert_eq!(*weights.borrow(), vec![vec![1, 2, 3], vec![1, 2, 3]]);
}

#[test]
fn seeding_starts_at_the_size_of_the_population() {
    let record = Rc::new(Record::default());
    let random: Box<dyn Random> = Box::new(Drawn { index: 7, weights: Rc::new(RefCell::new(vec![])) });
    let mut ctx = seeding_context(&[1, 2], None);
    let mut termination: Box<dyn Termination<Context>> = Box::new(Estimate(0));
    let mut telemetry: Box<dyn Telemetry<Context>> = Box::new(Recorder(record.clone()));
    build_initial_solutions(&mut ctx, &operators(&[10, 20]), 4, 500_000, &random, &mut termination, &mut telemetry);
    assert_eq!(ctx.population().size(), 4);
    // positions 2 and 3 are beyond the operators: the draw names none, so the first is used
    assert_eq!(*record.initial.borrow(), vec![(10, 2, 4), (10, 3, 4)]);
}

#[test]
fn seeding_leaves_a_full_population_alone() {
    let record = Rc::new(Record::default());
    let random: Box<dyn Random> = Box::new(Exploit);
    let mut ctx = seeding_context(&[1, 2, 3, 4, 5], None);
    let mut termination: Box<dyn Termination<Context>> = Box::new(Estimate(0));
    let mut telemetry: Box<dyn Telemetry<Context>> = Box::new(Recorder(record.clone()));
    build_initial_solutions(&mut ctx, &operators(&[10]), 3, 500_000, &random, &mut termination, &mut telemetry);
    assert_eq!(ctx.population().size(), 5);
    assert!(record.initial.borrow().is_empty());
}

#[test]
fn seeding_stops_when_initial_quota_is_used_up() {
    let record = Rc::new(Record::default());
    let random: Box<dyn Random> = Box::new(Exploit);
    let mut ctx = seeding_context(&[], None);
    let mut termination: Box<dyn Termination<Context>> = Box::new(Estimate(500_001));
    let mut telemetry: Box<dyn Telemetry<Context>> = Box::new(Recorder(record.clone()));
    build_initial_solutions(&mut ctx, &operators(&[10]), 3, 500_000, &random, &mut termination, &mut telemetry);
    assert_eq!(ctx.population().size(), 0);
    assert_eq!(record.logs.borrow().len(), 1);

    // an estimate equal to the quota is not beyond it
    let mut at_quota: Box<dyn Termination<Context>> = Box::new(Estimate(500_000));
    build_initial_solutions(&mut ctx, &operators(&[10]), 3, 500_000, &random, &mut at_quota, &mut telemetry);
    assert_eq!(ctx.population().size(), 3);
}

#[test]
fn seeding_stops_on_termination() {
    let record = Rc::new(Record::default());
    let random: Box<dyn Random> = Box::new(Exploit);
    let mut ctx = seeding_context(&[], None);
    let mut termination: Box<dyn Termination<Context>> =
        Box::new(MaxGenerations { generations: Rc::new(Cell::new(1)), limit: 1 });
    let mut telemetry: Box<dyn Telemetry<Context>> = Box::new(Recorder(record.clone()));
    build_initial_solutions(&mut ctx, &operators(&[10]), 3, 1_000_000, &random, &mut termination, &mut telemetry);
    assert_eq!(ctx.population().size(), 0);
}

#[test]
fn seeding_skips_built_solutions_when_quota_is_reached() {
    let record = Rc::new(Record::default());
    let random: Box<dyn Random> = Box::new(Exploit);
    let mut ctx = seeding_context(&[], Some(Rc::new(Cell::new(true))));
    // the criterion lets three solutions be built and ends the run at the fourth
    let mut termination: Box<dyn Termination<Context>> = Box::new(Asked { asked: Cell::new(0), limit: 3 });
    let mut telemetry: Box<dyn Telemetry<Context>> = Box::new(Recorder(record.clone()));
    build_initial_solutions(&mut ctx, &operators(&[10, 20]), 3, 500_000, &random, &mut termination, &mut telemetry);
    // an empty population takes the first solution whatever the budget
    assert_eq!(ctx.population().individuals, vec![Real(10)]);
    assert_eq!(
        *record.logs.borrow(),
        vec![
            "skipping built initial solution 1",
            "skipping built initial solution 2",
            "stop building initial solutions due to initial quota reached (false) or overall termination (true).",
        ]
    );
}

#[test]
fn seeding_never_exceeds_max_size() {
    for (supplied, max_size) in [(0usize, 1usize), (2, 4), (4, 4), (9, 4), (9, 1)] {
        let record = Rc::new(Record::default());
        let individuals = (0..supplied as i64).map(|value| 100 + value).collect();
        let mut configuration = config(initial(vec![50, 60], max_size, individuals), &record, 0, None, 10);
        configuration.population = Sorted::new(100);
        let seeded = EvolutionSimulator::new(configuration, factory(None)).ok().unwrap().seed();
        assert!(seeded.heuristic_ctx.population().size() <= max_size);
        assert_eq!(record.initial.borrow().len(), supplied.min(max_size));
    }
}

#[test]
fn can_stop_on_quota_after_the_generation_under_way() {
    let record = Rc::new(Record::default());
    let generations = record.generation_count.clone();
    let quota: Box<dyn Quota> = Box::new(After { generations: generations.clone(), limit: 3 });
    let configuration = config(initial(vec![20 * UNIT], 1, vec![10 * UNIT]), &record, 1000, Some(quota), 4);
    let simulator = EvolutionSimulator::new(configuration, move |population| Context {
        objective: Minimize,
        population,
        environment: environment(Some(Box::new(After { generations, limit: 3 }))),
    })
    .ok()
    .unwrap();
    let (solutions, metrics) = simulator.run().unwrap();
    let callbacks = record.generations.borrow().len();
    assert!(callbacks == 3 || callbacks == 4, "{} callbacks", callbacks);
    assert_eq!(metrics.map(|metrics| metrics.generations), Some(callbacks));
    // the seeding and two generations were added before the budget was used up:
    // 10.0, then 9.9 from it, then 9.8 and 9.9 from the two
    assert_eq!(solutions, vec![Real(9_800_000), Real(9_900_000), Real(9_900_000), Real(10_000_000)]);
    assert_eq!(record.results.get(), 1);
}

#[test]
fn quota_reached_mid_run_suppresses_growth() {
    let record = Rc::new(Record::default());
    let flag = Rc::new(Cell::new(false));
    let mut population = Sorted::new(4);
    population.add(Real(10 * UNIT));
    let ctx = Context { objective: Minimize, population, environment: environment(Some(Box::new(Flag(flag.clone())))) };
    flag.set(true);
    let result = strategy(4).run(
        ctx,
        Box::new(MaxGenerations { generations: record.generation_count.clone(), limit: 5 }),
        Box::new(Recorder(record.clone())),
    );
    let (solutions, _) = result.unwrap();
    // the budget is used up before the first generation: none is run
    assert_eq!(solutions, vec![Real(10 * UNIT)]);
    assert!(record.generations.borrow().is_empty());
    assert_eq!(record.results.get(), 1);
}

#[test]
fn run_returns_up_to_desired_amount_best_first() {
    for (desired_amount, expected) in [(0, vec![]), (2, vec![1, 2]), (4, vec![1, 2, 3, 4]), (9, vec![1, 2, 3, 4])] {
        let record = Rc::new(Record::default());
        let mut population = Sorted::new(4);
        population.add_all(vec![Real(3), Real(1), Real(4), Real(2)]);
        let ctx = Context { objective: Minimize, population, environment: environment(None) };
        let result = strategy(desired_amount).run(
            ctx,
            Box::new(MaxGenerations { generations: record.generation_count.clone(), limit: 0 }),
            Box::new(Recorder(record.clone())),
        );
        let (solutions, metrics) = result.unwrap();
        assert_eq!(solutions, expected.into_iter().map(Real).collect::<Vec<_>>());
        assert_eq!(metrics.map(|metrics| metrics.generations), Some(0));
    }
}

#[test]
fn run_on_empty_population_returns_nothing() {
    let record = Rc::new(Record::default());
    let mut configuration = config(initial(vec![5], 3, vec![]), &record, 2, None, 3);
    // the termination estimate is beyond the initial quota at once, so nothing is built
    configuration.initial.quota = 0;
    configuration.termination = Box::new(Estimate(1));
    let flag = Rc::new(Cell::new(true));
    let simulator = EvolutionSimulator::new(configuration, factory(Some(flag))).ok().unwrap();
    let (solutions, _) = simulator.run().unwrap();
    assert!(solutions.is_empty());
    assert!(record.initial.borrow().is_empty());
    assert!(record.generations.borrow().is_empty());
    assert_eq!(record.logs.borrow().last().map(|message| message.as_str()), Some("created an empty population"));
    assert_eq!(record.results.get(), 1);
}

#[test]
fn population_is_notified_of_each_generation() {
    let record = Rc::new(Record::default());
    let configuration = config(initial(vec![20 * UNIT], 1, vec![]), &record, 4, None, 1);
    let notified = configuration.population.notified.clone();
    let simulator = EvolutionSimulator::new(configuration, factory(None)).ok().unwrap();
    let (solutions, _) = simulator.run().unwrap();
    assert_eq!(notified.get(), 4);
    assert_eq!(record.generations.borrow().len(), 4);
    assert_eq!(solutions, vec![Real(20 * UNIT - 300_000)]);
    // the estimates of the termination criterion are handed on
    let estimates: Vec<u32> = record.generations.borrow().iter().map(|(estimate, _)| *estimate).collect();
    assert_eq!(estimates, vec![0, 250_000, 500_000, 750_000]);
}

struct Twice;

impl HyperHeuristic<Context> for Twice {
    fn search(&mut self, _heuristic_ctx: &Context, solutions: Vec<&Real>) -> Vec<Real> {
        solutions.into_iter().flat_map(|solution| vec![Real(solution.0 - 1), Real(solution.0 - 2)]).collect()
    }
}

#[test]
fn strategy_runs_with_any_hyper_heuristic() {
    let record = Rc::new(Record::default());
    let mut population = Sorted::new(3);
    population.add(Real(100));
    let ctx = Context { objective: Minimize, population, environment: environment(None) };
    let (solutions, _) = RunSimple::new(Twice, 2)
        .run(
            ctx,
            Box::new(MaxGenerations { generations: record.generation_count.clone(), limit: 2 }),
            Box::new(Recorder(record.clone())),
        )
        .unwrap();
    // 100 -> 98 99 100 -> 96 97 98
    assert_eq!(solutions, vec![Real(96), Real(97)]);
}

struct Alternate(Cell<bool>);

impl HeuristicOperator<Context> for Alternate {
    fn search(&self, _ctx: &Context, solution: &Real) -> Option<Real> {
        self.0.set(!self.0.get());
        Some(Real(if self.0.get() { solution.0 + 70_000 } else { solution.0 - 100_000 }))
    }
}

#[test]
fn best_never_worsens_and_improves_when_reported() {
    let record = Rc::new(Record::default());
    let operators: HeuristicOperators<Context> = vec![(Box::new(Alternate(Cell::new(false))), "alternate".to_string())];
    let strategy = RunSimple::new(DynamicSelective::new(operators, Box::new(Exploit)), 1);
    let mut population = Sorted::new(3);
    population.add(Real(10 * UNIT));
    let ctx = Context { objective: Minimize, population, environment: environment(None) };
    let result = strategy.run(
        ctx,
        Box::new(MaxGenerations { generations: record.generation_count.clone(), limit: 40 }),
        Box::new(Recorder(record.clone())),
    );
    assert!(result.is_ok());
    let bests = record.bests.borrow();
    let generations = record.generations.borrow();
    assert_eq!(bests.len(), 40);
    let mut previous = 10 * UNIT;
    let mut improvements = 0;
    for (best, (_, is_improved)) in bests.iter().zip(generations.iter()) {
        let best = best.unwrap();
        assert!(best <= previous);
        assert_eq!(*is_improved, best < previous);
        improvements += usize::from(*is_improved);
        previous = best;
    }
    assert!(improvements > 0 && improvements < 40);
}

#[test]
fn best_solutions_are_copied_in_rank_order() {
    let mut population = Sorted::new(4);
    population.add_all(vec![Real(30), Real(10), Real(20)]);
    let ctx = Context { objective: Minimize, population, environment: environment(None) };
    assert_eq!(best_solutions(&ctx, 0), vec![]);
    assert_eq!(best_solutions(&ctx, 2), vec![Real(10), Real(20)]);
    assert_eq!(best_solutions(&ctx, 3), vec![Real(10), Real(20), Real(30)]);
    assert_eq!(best_solutions(&ctx, usize::MAX), vec![Real(10), Real(20), Real(30)]);
    let empty = Context { objective: Minimize, population: Sorted::new(4), environment: environment(None) };
    assert!(best_solutions(&empty, 5).is_empty());
}

#[test]
fn seeding_goes_on_while_the_population_is_below_max_size() {
    let record = Rc::new(Record::default());
    let random: Box<dyn Random> = Box::new(Drawn { index: 1, weights: Rc::new(RefCell::new(vec![])) });
    // the population keeps two solutions only, so it never has three
    let mut population = Sorted::new(2);
    population.add(Real(1));
    let mut ctx = factory(None)(population);
    let mut termination: Box<dyn Termination<Context>> = Box::new(Asked { asked: Cell::new(0), limit: 5 });
    let mut telemetry: Box<dyn Telemetry<Context>> = Box::new(Recorder(record.clone()));
    build_initial_solutions(&mut ctx, &operators(&[10, 20]), 3, 500_000, &random, &mut termination, &mut telemetry);
    // five solutions were built before the criterion ended the building
    assert_eq!(*record.initial.borrow(), vec![(20, 1, 3), (20, 2, 3), (20, 3, 3), (20, 4, 3), (20, 5, 3)]);
    assert_eq!(ctx.population().individuals, vec![Real(1), Real(20)]);
    assert_eq!(
        record.logs.borrow().last().map(|message| message.as_str()),
        Some("stop building initial solutions due to initial quota reached (false) or overall termination (true).")
    );
}

#[test]
fn seeding_stop_is_logged_with_its_reasons() {
    for (estimate, terminated, expected) in [
        (500_001, false, "stop building initial solutions due to initial quota reached (true) or overall termination (false)."),
        (500_001, true, "stop building initial solutions due to initial quota reached (true) or overall termination (true)."),
        (0, true, "stop building initial solutions due to initial quota reached (false) or overall termination (true)."),
    ] {
        let record = Rc::new(Record::default());
        let random: Box<dyn Random> = Box::new(Exploit);
        let mut ctx = seeding_context(&[], None);
        let mut termination: Box<dyn Termination<Context>> = Box::new(Both { estimate, terminated });
        let mut telemetry: Box<dyn Telemetry<Context>> = Box::new(Recorder(record.clone()));
        build_initial_solutions(&mut ctx, &operators(&[10]), 3, 500_000, &random, &mut termination, &mut telemetry);
        assert_eq!(*record.logs.borrow(), vec![expected]);
        assert_eq!(ctx.population().size(), 0);
    }
}

struct Both {
    estimate: u32,
    terminated: bool,
}

impl Termination<Context> for Both {
    fn is_termination(&mut self, _heuristic_ctx: &Context) -> bool {
        self.terminated
    }

    fn estimate(&self, _heuristic_ctx: &Context) -> u32 {
        self.estimate
    }
}

#[test]
fn notes_of_the_seeding_carry_their_numbers() {
    assert_eq!(skipped_text("skipping built initial solution ", 0), "skipping built initial solution 0");
    assert_eq!(skipped_text("skipping provided initial solution ", 12), "skipping provided initial solution 12");
    assert_eq!(skipped_text("", usize::MAX), usize::MAX.to_string());
    assert_eq!(
        building_stopped_text(true, false),
        "stop building initial solutions due to initial quota reached (true) or overall termination (false)."
    );
    assert_eq!(
        building_stopped_text(false, true),
        "stop building initial solutions due to initial quota reached (false) or overall termination (true)."
    );
}
