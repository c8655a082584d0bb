//! The choice of the population for an experiment, by its name.

use vstd::prelude::*;

verus! {

/// The kinds of population that an experiment can run on.
#[derive(Clone, Copy, Debug, PartialEq, Eq, Structural)]
pub enum PopulationKind {
    /// A population that keeps the best solution only.
    Greedy,
    /// A population that keeps the best solutions.
    Elitism,
    /// A population that keeps solutions of many kinds apart.
    Rosomaxa,
}

/// The kind of population that a name stands for, if it stands for one.
pub open spec fn population_kind_of(population_type: Seq<char>) -> Option<PopulationKind> {
    if population_type == "greedy"@ {
        Some(PopulationKind::Greedy)
    } else if population_type == "elitism"@ {
        Some(PopulationKind::Elitism)
    } else if population_type == "rosomaxa"@ {
        Some(PopulationKind::Rosomaxa)
    } else {
        None
    }
}

/// Tells which kind of population a name stands for: `greedy`, `elitism` or
/// `rosomaxa`. Any other name stands for none.
pub fn get_population_kind(population_type: &str) -> (kind: Option<PopulationKind>)
    ensures
        kind == population_kind_of(population_type@),
{
    let name = population_type.to_owned();
    if name == "greedy".to_owned() {
        Some(PopulationKind::Greedy)
    } else if name == "elitism".to_owned() {
        Some(PopulationKind::Elitism)
    } else if name == "rosomaxa".to_owned() {
        Some(PopulationKind::Rosomaxa)
    } else {
        None
    }
}

} // verus!
