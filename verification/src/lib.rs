//! A dynamic-selective hyper-heuristic evolution engine with verified contracts.
//!
//! The engine evolves a population of candidate solutions: in every
//! generation an agent per parent selects a search operator by what the
//! operators have earned so far, and learns from what the operator makes of
//! the parent. The selection is a Markov decision process over six states.
//!
//! Real-valued quantities are held as fixed-point integers: rewards and
//! estimates in millionths of a reward unit, probabilities and ratios in
//! parts per million, durations in milliseconds.
//!
//! Beside the engine stand the statistics that a telemetry keeps of a run,
//! the checks of a routing solution against its problem, and the choice of
//! the population for an experiment.

pub mod classifier;
pub mod dynamic_selective;
pub mod estimates;
pub mod evolution;
pub mod experiment;
pub mod fixed_point;
pub mod heuristics;
pub mod jobs;
pub mod learning;
pub mod mdp;
pub mod remedian;
pub mod remedian_laws;
pub mod search_state;
pub mod telemetry;
pub mod timer;
