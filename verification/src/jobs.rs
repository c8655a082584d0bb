//! Checks of a routing solution against its problem: every job is served or
//! reported once, and the load of a vehicle changes from stop to stop by what
//! is delivered and picked up.

use vstd::prelude::*;
use vstd::string::StringExecFns;

verus! {

/// One activity at a stop.
pub struct ActivityInfo {
    /// The job that the activity serves, if it serves one.
    pub job_id: Option<String>,
    /// The kind of the activity: `delivery`, `pickup`, or anything else.
    pub activity_type: String,
    /// What the activity delivers or picks up, by dimension.
    pub demand: Option<Vec<i32>>,
}

/// One stop of a tour.
pub struct StopInfo {
    /// The load of the vehicle when it leaves the stop, by dimension.
    pub load: Vec<i32>,
    /// The activities at the stop, in order.
    pub activities: Vec<ActivityInfo>,
}

/// The tour of one vehicle.
pub struct TourInfo {
    /// The vehicle.
    pub vehicle_id: String,
    /// The stops, in order.
    pub stops: Vec<StopInfo>,
}

/// A solution together with what it is checked against.
pub struct SolutionInfo {
    /// The jobs of the problem.
    pub jobs: Vec<String>,
    /// The tours of the solution.
    pub tours: Vec<TourInfo>,
    /// The jobs that the solution reports as unassigned.
    pub unassigned: Vec<String>,
}

/// What a check has found wrong.
pub enum JobCheckError {
    /// A job is served in two tours.
    JobUsedTwice { job_id: String, vehicle_id: String },
    /// The solution knows fewer jobs than the problem.
    FewerJobs { assigned: usize, required: usize },
    /// The solution knows more jobs than the problem.
    MoreJobs { assigned: usize, required: usize },
    /// A tour has no stop.
    EmptyTour { vehicle_id: String },
    /// The load at a stop is not the load at the stop before it, changed by
    /// what the activities of the stop deliver and pick up.
    StopLoadMismatch { result: Vec<i128>, expected: Vec<i128> },
}

/// The job served at activity `a` of stop `s` of a tour, if there is such an
/// activity and it serves one.
pub open spec fn job_at(tour: TourInfo, s: int, a: int) -> Option<Seq<char>> {
    if 0 <= s < tour.stops.len() && 0 <= a < tour.stops[s].activities.len() {
        match tour.stops[s].activities[a].job_id {
            Some(id) => Some(id@),
            None => None,
        }
    } else {
        None
    }
}

/// Whether a tour serves the job `id`.
pub open spec fn mentions(tour: TourInfo, id: Seq<char>) -> bool {
    exists|s: int, a: int| #[trigger] job_at(tour, s, a) == Some(id)
}

/// Whether one of the first `t` tours serves the job `id`.
pub open spec fn mentioned_before(tours: Seq<TourInfo>, t: int, id: Seq<char>) -> bool {
    exists|u: int| 0 <= u < t && mentions(#[trigger] tours[u], id)
}

/// Whether the activity at `(t, s, a)` serves a job that an earlier tour serves too.
pub open spec fn is_reuse(tours: Seq<TourInfo>, t: int, s: int, a: int) -> bool {
    0 <= t < tours.len() && (job_at(tours[t], s, a) matches Some(id) && mentioned_before(
        tours,
        t,
        id,
    ))
}

/// Whether the position `(t1, s1, a1)` comes before `(t2, s2, a2)`.
pub open spec fn precedes(t1: int, s1: int, a1: int, t2: int, s2: int, a2: int) -> bool {
    t1 < t2 || (t1 == t2 && (s1 < s2 || (s1 == s2 && a1 < a2)))
}

/// Whether the activity at `(t, s, a)` is the first that serves a job of an
/// earlier tour.
pub open spec fn is_first_reuse(tours: Seq<TourInfo>, t: int, s: int, a: int) -> bool {
    is_reuse(tours, t, s, a) && forall|u: int, r: int, b: int|
        precedes(u, r, b, t, s, a) ==> !#[trigger] is_reuse(tours, u, r, b)
}

/// Whether no tour serves a job of an earlier tour.
pub open spec fn no_reuse(tours: Seq<TourInfo>) -> bool {
    forall|t: int, s: int, a: int| !#[trigger] is_reuse(tours, t, s, a)
}

/// The jobs that the solution knows: those that a tour serves and those
/// reported as unassigned.
pub open spec fn known_jobs(solution: SolutionInfo) -> Set<Seq<char>> {
    Set::new(
        |id: Seq<char>|
            mentioned_before(solution.tours@, solution.tours.len() as int, id) || exists|k: int|
                0 <= k < solution.unassigned.len() && (#[trigger] solution.unassigned[k])@ == id,
    )
}

/// Whether the presence check passes: no job is served in two tours, and the
/// solution knows as many jobs as the problem has.
pub open spec fn presence_holds(solution: SolutionInfo) -> bool {
    no_reuse(solution.tours@) && known_jobs(solution).len() == solution.jobs.len()
}

/// Whether `result` is what the presence check finds. A job served in two
/// tours is reported at the first activity that serves it again, with the
/// vehicle of that tour. Otherwise the number of jobs that the solution knows
/// is held against the number of jobs of the problem.
pub open spec fn presence_outcome(solution: SolutionInfo, result: Result<(), JobCheckError>) -> bool {
    match result {
        Err(JobCheckError::JobUsedTwice { job_id, vehicle_id }) => exists|t: int, s: int, a: int|
            #[trigger] is_first_reuse(solution.tours@, t, s, a) && job_at(solution.tours[t], s, a)
                == Some(job_id@) && vehicle_id@ == solution.tours[t].vehicle_id@,
        Err(JobCheckError::FewerJobs { assigned, required }) => {
            &&& no_reuse(solution.tours@)
            &&& assigned == known_jobs(solution).len()
            &&& required == solution.jobs.len()
            &&& assigned < required
        },
        Err(JobCheckError::MoreJobs { assigned, required }) => {
            &&& no_reuse(solution.tours@)
            &&& assigned == known_jobs(solution).len()
            &&& required == solution.jobs.len()
            &&& assigned > required
        },
        Err(_) => false,
        Ok(()) => presence_holds(solution),
    }
}

/// Whether `id` is one of `list`.
pub open spec fn listed(list: Seq<String>, id: Seq<char>) -> bool {
    exists|i: int| 0 <= i < list.len() && (#[trigger] list[i])@ == id
}

/// Whether no two entries of `list` are the same text.
pub open spec fn distinct(list: Seq<String>) -> bool {
    forall|i: int, j: int| 0 <= i < j < list.len() ==> (#[trigger] list[i])@ != (#[trigger] list[j])@
}

/// Whether `id` is one of `list`.
fn contains(list: &Vec<String>, id: &String) -> (found: bool)
    ensures
        found == listed(list@, id@),
{
    let mut i: usize = 0;
    while i < list.len()
        invariant
            i <= list.len(),
            forall|k: int| 0 <= k < i ==> (#[trigger] list[k])@ != id@,
        decreases list.len() - i,
    {
        if list[i] == *id {
            return true;
        }
        i = i + 1;
    }
    false
}

/// Whether the job `id` is served in tour `tour` before the position `(s, a)`.
spec fn served_before(tour: TourInfo, s: int, a: int, id: Seq<char>) -> bool {
    exists|r: int, b: int| (r < s || (r == s && b < a)) && #[trigger] job_at(tour, r, b) == Some(id)
}

/// The texts of a list of strings.
spec fn texts(list: Seq<String>) -> Seq<Seq<char>> {
    list.map_values(|text: String| text@)
}

/// Checks that no job is served in two tours and that the solution knows as
/// many jobs as the problem has. The jobs seen are kept in a list in which
/// none occurs twice.
pub fn check_job_presence(solution: &SolutionInfo) -> (result: Result<(), JobCheckError>)
    ensures
        presence_outcome(*solution, result),
{
    let mut assigned: Vec<String> = Vec::new();
    let mut t: usize = 0;
    while t < solution.tours.len()
        invariant
            t <= solution.tours.len(),
            distinct(assigned@),
            forall|id: Seq<char>| #[trigger]
                listed(assigned@, id) <==> mentioned_before(solution.tours@, t as int, id),
            forall|u: int, r: int, b: int| u < t ==> !#[trigger] is_reuse(solution.tours@, u, r, b),
        decreases solution.tours.len() - t,
    {
        let tour = &solution.tours[t];
        let mut in_tour: Vec<String> = Vec::new();
        let mut s: usize = 0;
        while s < tour.stops.len()
            invariant
                t < solution.tours.len(),
                *tour == solution.tours[t as int],
                s <= tour.stops.len(),
                distinct(assigned@),
                distinct(in_tour@),
                forall|id: Seq<char>| #[trigger]
                    listed(assigned@, id) <==> mentioned_before(solution.tours@, t as int, id),
                forall|id: Seq<char>| #[trigger]
                    listed(in_tour@, id) <==> served_before(*tour, s as int, 0, id),
                forall|id: Seq<char>| listed(in_tour@, id) ==> !#[trigger] listed(assigned@, id),
                forall|u: int, r: int, b: int|
                    precedes(u, r, b, t as int, s as int, 0) ==> !#[trigger] is_reuse(
                        solution.tours@,
                        u,
                        r,
                        b,
                    ),
            decreases tour.stops.len() - s,
        {
            let stop = &tour.stops[s];
            let mut a: usize = 0;
            while a < stop.activities.len()
                invariant
                    t < solution.tours.len(),
                    *tour == solution.tours[t as int],
                    s < tour.stops.len(),
                    *stop == tour.stops[s as int],
                    a <= stop.activities.len(),
                    distinct(assigned@),
                    distinct(in_tour@),
                    forall|id: Seq<char>| #[trigger]
                        listed(assigned@, id) <==> mentioned_before(solution.tours@, t as int, id),
                    forall|id: Seq<char>| #[trigger]
                        listed(in_tour@, id) <==> served_before(*tour, s as int, a as int, id),
                    forall|id: Seq<char>| listed(in_tour@, id) ==> !#[trigger] listed(assigned@, id),
                    forall|u: int, r: int, b: int|
                        precedes(u, r, b, t as int, s as int, a as int) ==> !#[trigger] is_reuse(
                            solution.tours@,
                            u,
                            r,
                            b,
                        ),
                decreases stop.activities.len() - a,
            {
                let ghost in_tour_before = in_tour@;
                match &stop.activities[a].job_id {
                    Some(job_id) => {
                        assert(job_at(*tour, s as int, a as int) == Some(job_id@));
                        if contains(&assigned, job_id) {
                            proof {
                                assert(is_reuse(solution.tours@, t as int, s as int, a as int));
                                assert(is_first_reuse(solution.tours@, t as int, s as int, a as int));
                            }
                            return Err(
                                JobCheckError::JobUsedTwice {
                                    job_id: job_id.clone(),
                                    vehicle_id: tour.vehicle_id.clone(),
                                },
                            );
                        }
                        if !contains(&in_tour, job_id) {
                            in_tour.push(job_id.clone());
                            proof {
                                assert(in_tour@[in_tour_before.len() as int]@ == job_id@);
                                assert forall|id: Seq<char>| #[trigger]
                                    listed(in_tour@, id) <==> (listed(in_tour_before, id) || id
                                        == job_id@) by {
                                    if listed(in_tour_before, id) {
                                        let i = choose|i: int|
                                            0 <= i < in_tour_before.len() && (
                                            #[trigger] in_tour_before[i])@ == id;
                                        assert(in_tour@[i]@ == id);
                                    }
                                    if listed(in_tour@, id) {
                                        let i = choose|i: int|
                                            0 <= i < in_tour@.len() && (#[trigger] in_tour@[i])@
                                                == id;
                                        if i < in_tour_before.len() {
                                            assert(in_tour_before[i]@ == id);
                                        }
                                    }
                                }
                                assert forall|i: int, j: int|
                                    0 <= i < j < in_tour@.len() implies (#[trigger] in_tour@[i])@ != (
                                #[trigger] in_tour@[j])@ by {
                                    if j == in_tour_before.len() {
                                        assert(in_tour_before[i]@ == in_tour@[i]@);
                                        assert(listed(in_tour_before, in_tour@[i]@));
                                    } else {
                                        assert(in_tour_before[i]@ != in_tour_before[j]@);
                                    }
                                }
                            }
                        }
                        proof {
                            assert forall|id: Seq<char>| #[trigger]
                                listed(in_tour@, id) <==> served_before(
                                    *tour,
                                    s as int,
                                    a + 1,
                                    id,
                                ) by {
                                if served_before(*tour, s as int, a + 1, id) {
                                    let (r, b) = choose|r: int, b: int|
                                        (r < s || (r == s && b < a + 1)) && #[trigger] job_at(
                                            *tour,
                                            r,
                                            b,
                                        ) == Some(id);
                                    if r == s && b == a {
                                    } else {
                                        assert(served_before(*tour, s as int, a as int, id));
                                    }
                                }
                                if listed(in_tour@, id) {
                                    if id == job_id@ {
                                        assert(job_at(*tour, s as int, a as int) == Some(id));
                                    } else {
                                        assert(served_before(*tour, s as int, a as int, id));
                                        let (r, b) = choose|r: int, b: int|
                                            (r < s || (r == s && b < a)) && #[trigger] job_at(
                                                *tour,
                                                r,
                                                b,
                                            ) == Some(id);
                                        assert(job_at(*tour, r, b) == Some(id));
                                    }
                                }
                            }
                        }
                    },
                    None => {
                        proof {
                            assert forall|id: Seq<char>| #[trigger]
                                listed(in_tour@, id) <==> served_before(
                                    *tour,
                                    s as int,
                                    a + 1,
                                    id,
                                ) by {
                                if served_before(*tour, s as int, a + 1, id) {
                                    let (r, b) = choose|r: int, b: int|
                                        (r < s || (r == s && b < a + 1)) && #[trigger] job_at(
                                            *tour,
                                            r,
                                            b,
                                        ) == Some(id);
                                    assert(!(r == s && b == a));
                                    assert(served_before(*tour, s as int, a as int, id));
                                }
                                if listed(in_tour@, id) {
                                    let (r, b) = choose|r: int, b: int|
                                        (r < s || (r == s && b < a)) && #[trigger] job_at(
                                            *tour,
                                            r,
                                            b,
                                        ) == Some(id);
                                    assert(job_at(*tour, r, b) == Some(id));
                                }
                            }
                        }
                    },
                }
                a = a + 1;
            }
            proof {
                assert forall|id: Seq<char>| #[trigger]
                    listed(in_tour@, id) <==> served_before(*tour, s + 1, 0, id) by {
                    if served_before(*tour, s + 1, 0, id) {
                        let (r, b) = choose|r: int, b: int|
                            (r < s + 1 || (r == s + 1 && b < 0)) && #[trigger] job_at(*tour, r, b)
                                == Some(id);
                        assert(job_at(*tour, r, b) == Some(id));
                        assert(r < s || (r == s && b < a));
                        assert(served_before(*tour, s as int, a as int, id));
                    }
                    if listed(in_tour@, id) {
                        let (r, b) = choose|r: int, b: int|
                            (r < s || (r == s && b < a)) && #[trigger] job_at(*tour, r, b) == Some(
                                id,
                            );
                        assert(job_at(*tour, r, b) == Some(id));
                    }
                }
                assert forall|u: int, r: int, b: int|
                    precedes(u, r, b, t as int, s + 1, 0) implies !#[trigger] is_reuse(
                    solution.tours@,
                    u,
                    r,
                    b,
                ) by {
                    if u == t && r == s && b >= a {
                        assert(job_at(*tour, r, b) is None);
                    }
                }
            }
            s = s + 1;
        }
        // the jobs of this tour join those of the earlier ones
        let ghost assigned_before = assigned@;
        let mut k: usize = 0;
        while k < in_tour.len()
            invariant
                k <= in_tour.len(),
                distinct(in_tour@),
                distinct(assigned@),
                forall|id: Seq<char>| listed(in_tour@, id) ==> !#[trigger] listed(assigned_before, id),
                forall|id: Seq<char>| #[trigger]
                    listed(assigned@, id) <==> (listed(assigned_before, id) || exists|i: int|
                        0 <= i < k && (#[trigger] in_tour@[i])@ == id),
            decreases in_tour.len() - k,
        {
            let ghost current = assigned@;
            assigned.push(in_tour[k].clone());
            proof {
                let added = in_tour@[k as int]@;
                assert(assigned@[current.len() as int]@ == added);
                assert(listed(in_tour@, added));
                assert forall|id: Seq<char>| #[trigger]
                    listed(assigned@, id) <==> (listed(current, id) || id == added) by {
                    if listed(current, id) {
                        let i = choose|i: int| 0 <= i < current.len() && (#[trigger] current[i])@ == id;
                        assert(assigned@[i]@ == id);
                    }
                    if listed(assigned@, id) {
                        let i = choose|i: int|
                            0 <= i < assigned@.len() && (#[trigger] assigned@[i])@ == id;
                        if i < current.len() {
                            assert(current[i]@ == id);
                        }
                    }
                }
                assert(!listed(current, added)) by {
                    if listed(current, added) {
                        let i = choose|i: int| 0 <= i < k && (#[trigger] in_tour@[i])@ == added;
                        assert(in_tour@[i]@ != in_tour@[k as int]@);
                    }
                }
                assert forall|i: int, j: int| 0 <= i < j < assigned@.len() implies (
                #[trigger] assigned@[i])@ != (#[trigger] assigned@[j])@ by {
                    if j == current.len() {
                        assert(current[i]@ == assigned@[i]@);
                        assert(listed(current, assigned@[i]@));
                    } else {
                        assert(current[i]@ != current[j]@);
                    }
                }
                assert forall|id: Seq<char>| #[trigger]
                    listed(assigned@, id) <==> (listed(assigned_before, id) || exists|i: int|
                        0 <= i < k + 1 && (#[trigger] in_tour@[i])@ == id) by {
                    if id == added {
                        assert(in_tour@[k as int]@ == id);
                    }
                    if exists|i: int| 0 <= i < k + 1 && (#[trigger] in_tour@[i])@ == id {
                        let i = choose|i: int| 0 <= i < k + 1 && (#[trigger] in_tour@[i])@ == id;
                        if i < k {
                            assert(in_tour@[i]@ == id);
                        }
                    }
                }
            }
            k = k + 1;
        }
        proof {
            assert forall|id: Seq<char>| #[trigger]
                listed(assigned@, id) <==> mentioned_before(solution.tours@, t + 1, id) by {
                if mentioned_before(solution.tours@, t + 1, id) {
                    let u = choose|u: int| 0 <= u < t + 1 && mentions(#[trigger] solution.tours@[u], id);
                    if u < t {
                        assert(mentioned_before(solution.tours@, t as int, id));
                    } else {
                        let (r, b) = choose|r: int, b: int| #[trigger]
                            job_at(*tour, r, b) == Some(id);
                        assert(r < tour.stops.len());
                        assert(served_before(*tour, tour.stops.len() as int, 0, id));
                        assert(listed(in_tour@, id));
                        let i = choose|i: int| 0 <= i < in_tour@.len() && (#[trigger] in_tour@[i])@ == id;
                        assert(in_tour@[i]@ == id);
                    }
                }
                if listed(assigned@, id) {
                    if listed(assigned_before, id) {
                        let u = choose|u: int|
                            0 <= u < t && mentions(#[trigger] solution.tours@[u], id);
                        assert(mentions(solution.tours@[u], id));
                    } else {
                        let i = choose|i: int| 0 <= i < k && (#[trigger] in_tour@[i])@ == id;
                        assert(listed(in_tour@, id));
                        let (r, b) = choose|r: int, b: int|
                            (r < tour.stops.len() || (r == tour.stops.len() && b < 0))
                                && #[trigger] job_at(*tour, r, b) == Some(id);
                        assert(job_at(*tour, r, b) == Some(id));
                        assert(mentions(solution.tours@[t as int], id));
                    }
                }
            }
            assert forall|u: int, r: int, b: int| u < t + 1 implies !#[trigger] is_reuse(
                solution.tours@,
                u,
                r,
                b,
            ) by {
                if u == t {
                    if r >= tour.stops.len() {
                        assert(job_at(*tour, r, b) is None);
                    } else {
                        assert(precedes(u, r, b, t as int, tour.stops.len() as int, 0));
                    }
                }
            }
        }
        t = t + 1;
    }
    assert(no_reuse(solution.tours@)) by {
        assert forall|t: int, s: int, a: int| !#[trigger] is_reuse(solution.tours@, t, s, a) by {
            if is_reuse(solution.tours@, t, s, a) {
                assert(t < solution.tours.len());
            }
        }
    }
    let ghost served = assigned@;
    let mut k: usize = 0;
    while k < solution.unassigned.len()
        invariant
            k <= solution.unassigned.len(),
            distinct(assigned@),
            forall|id: Seq<char>| #[trigger]
                listed(assigned@, id) <==> (listed(served, id) || exists|i: int|
                    0 <= i < k && (#[trigger] solution.unassigned[i])@ == id),
        decreases solution.unassigned.len() - k,
    {
        let ghost current = assigned@;
        let job_id = &solution.unassigned[k];
        if !contains(&assigned, job_id) {
            assigned.push(job_id.clone());
            proof {
                assert(assigned@[current.len() as int]@ == job_id@);
                assert forall|id: Seq<char>| #[trigger]
                    listed(assigned@, id) <==> (listed(current, id) || id == job_id@) by {
                    if listed(current, id) {
                        let i = choose|i: int| 0 <= i < current.len() && (#[trigger] current[i])@ == id;
                        assert(assigned@[i]@ == id);
                    }
                    if listed(assigned@, id) {
                        let i = choose|i: int|
                            0 <= i < assigned@.len() && (#[trigger] assigned@[i])@ == id;
                        if i < current.len() {
                            assert(current[i]@ == id);
                        }
                    }
                }
                assert forall|i: int, j: int| 0 <= i < j < assigned@.len() implies (
                #[trigger] assigned@[i])@ != (#[trigger] assigned@[j])@ by {
                    if j == current.len() {
                        assert(current[i]@ == assigned@[i]@);
                        assert(listed(current, assigned@[i]@));
                    } else {
                        assert(current[i]@ != current[j]@);
                    }
                }
            }
        }
        proof {
            assert forall|id: Seq<char>| #[trigger]
                listed(assigned@, id) <==> (listed(served, id) || exists|i: int|
                    0 <= i < k + 1 && (#[trigger] solution.unassigned[i])@ == id) by {
                if id == job_id@ {
                    assert(solution.unassigned[k as int]@ == id);
                }
                if exists|i: int| 0 <= i < k + 1 && (#[trigger] solution.unassigned[i])@ == id {
                    let i = choose|i: int|
                        0 <= i < k + 1 && (#[trigger] solution.unassigned[i])@ == id;
                    if i < k {
                        assert(solution.unassigned[i]@ == id);
                    }
                }
            }
        }
        k = k + 1;
    }
    proof {
        let ids = texts(assigned@);
        assert(ids.no_duplicates()) by {
            assert forall|i: int, j: int| 0 <= i < ids.len() && 0 <= j < ids.len() && i != j implies ids[i]
                != ids[j] by {
                if i < j {
                    assert(assigned@[i]@ != assigned@[j]@);
                } else {
                    assert(assigned@[j]@ != assigned@[i]@);
                }
            }
        }
        ids.unique_seq_to_set();
        assert(ids.to_set() =~= known_jobs(*solution)) by {
            assert forall|id: Seq<char>| ids.to_set().contains(id) <==> known_jobs(
                *solution,
            ).contains(id) by {
                if ids.to_set().contains(id) {
                    let i = choose|i: int| 0 <= i < ids.len() && ids[i] == id;
                    assert(assigned@[i]@ == id);
                    assert(listed(assigned@, id));
                }
                if listed(assigned@, id) {
                    let i = choose|i: int| 0 <= i < assigned@.len() && (#[trigger] assigned@[i])@ == id;
                    assert(ids[i] == id);
                    assert(ids.contains(id));
                }
            }
        }
    }
    if assigned.len() < solution.jobs.len() {
        return Err(
            JobCheckError::FewerJobs { assigned: assigned.len(), required: solution.jobs.len() },
        );
    }
    if assigned.len() > solution.jobs.len() {
        return Err(
            JobCheckError::MoreJobs { assigned: assigned.len(), required: solution.jobs.len() },
        );
    }
    Ok(())
}

} // verus!

verus! {

/// The value of a load or a demand in dimension `d`; dimensions that are not
/// given count as zero.
pub open spec fn component(values: Seq<i32>, d: int) -> int {
    if 0 <= d < values.len() {
        values[d] as int
    } else {
        0
    }
}

/// What an activity changes in dimension `d`.
pub open spec fn demand_of(activity: ActivityInfo, d: int) -> int {
    match activity.demand {
        Some(demand) => component(demand@, d),
        None => 0,
    }
}

/// By how much an activity changes the load in dimension `d`: a delivery
/// takes its demand off, a pickup puts it on, anything else changes nothing.
pub open spec fn change_of(activity: ActivityInfo, d: int) -> int {
    if activity.activity_type@ == "delivery"@ {
        -demand_of(activity, d)
    } else if activity.activity_type@ == "pickup"@ {
        demand_of(activity, d)
    } else {
        0
    }
}

/// By how much the first `n` activities of a stop change the load in dimension `d`.
pub open spec fn change_upto(stop: StopInfo, n: nat, d: int) -> int
    decreases n,
{
    if n == 0 {
        0
    } else {
        change_upto(stop, (n - 1) as nat, d) + change_of(stop.activities[n - 1], d)
    }
}

/// The load in dimension `d` that stop `s` of a tour should report: the load
/// reported at the stop before it, changed by the activities of the stop.
pub open spec fn expected_load(tour: TourInfo, s: int, d: int) -> int {
    component(tour.stops[s - 1].load@, d) + change_upto(
        tour.stops[s],
        tour.stops[s].activities.len() as nat,
        d,
    )
}

/// Whether stop `s` of a tour reports the load that it should, in every dimension.
pub open spec fn stop_is_consistent(tour: TourInfo, s: int) -> bool {
    forall|d: int| 0 <= d ==> component(tour.stops[s].load@, d) == #[trigger] expected_load(tour, s, d)
}

/// The number of dimensions that the first `n` activities of a stop use.
pub open spec fn demand_width(stop: StopInfo, n: nat) -> nat
    decreases n,
{
    if n == 0 {
        0
    } else {
        let earlier = demand_width(stop, (n - 1) as nat);
        let own = match stop.activities[n - 1].demand {
            Some(demand) => demand.len() as nat,
            None => 0,
        };
        if own > earlier {
            own
        } else {
            earlier
        }
    }
}

/// The number of dimensions at stake at stop `s` of a tour: those of its
/// load, of the load before it, and of the demands of its activities.
pub open spec fn width(tour: TourInfo, s: int) -> nat {
    let before = tour.stops[s - 1].load.len() as nat;
    let here = tour.stops[s].load.len() as nat;
    let demands = demand_width(tour.stops[s], tour.stops[s].activities.len() as nat);
    let loads = if before > here {
        before
    } else {
        here
    };
    if demands > loads {
        demands
    } else {
        loads
    }
}

/// Whether the demand check passes: the tour has a stop, and every stop after
/// the first reports the load that it should.
pub open spec fn demand_holds(tour: TourInfo) -> bool {
    tour.stops.len() > 0 && forall|s: int| 1 <= s < tour.stops.len() ==> #[trigger] stop_is_consistent(tour, s)
}

/// Whether `result` is what the demand check finds. A tour without a stop is
/// reported with its vehicle. Otherwise the first stop that reports another
/// load than it should is reported, with its load and the load it should
/// report, over the dimensions at stake.
pub open spec fn demand_outcome(tour: TourInfo, result: Result<(), JobCheckError>) -> bool {
    match result {
        Err(JobCheckError::EmptyTour { vehicle_id }) => tour.stops.len() == 0 && vehicle_id@
            == tour.vehicle_id@,
        Err(JobCheckError::StopLoadMismatch { result, expected }) => exists|s: int|
            {
                &&& 1 <= s < tour.stops.len()
                &&& !#[trigger] stop_is_consistent(tour, s)
                &&& forall|r: int| 1 <= r < s ==> #[trigger] stop_is_consistent(tour, r)
                &&& result.len() == width(tour, s)
                &&& expected.len() == width(tour, s)
                &&& forall|d: int|
                    0 <= d < width(tour, s) ==> #[trigger] result[d] == component(
                        tour.stops[s].load@,
                        d,
                    ) && expected[d] == expected_load(tour, s, d)
            },
        Err(_) => false,
        Ok(()) => demand_holds(tour),
    }
}

/// Beyond the dimensions that the activities use, they change nothing.
proof fn lemma_no_change_beyond_width(stop: StopInfo, n: nat, d: int)
    requires
        n <= stop.activities.len(),
        d >= demand_width(stop, n),
    ensures
        change_upto(stop, n, d) == 0,
    decreases n,
{
    if n > 0 {
        lemma_no_change_beyond_width(stop, (n - 1) as nat, d);
    }
}

/// The change by `n` activities is bounded by `n` times the range of a demand.
proof fn lemma_change_bounds(stop: StopInfo, n: nat, d: int)
    requires
        n <= stop.activities.len(),
    ensures
        -0x8000_0000 * n <= change_upto(stop, n, d) <= 0x8000_0000 * n,
    decreases n,
{
    if n > 0 {
        lemma_change_bounds(stop, (n - 1) as nat, d);
    }
}

fn component_of(values: &Vec<i32>, d: usize) -> (c: i32)
    ensures
        c == component(values@, d as int),
{
    if d < values.len() {
        values[d]
    } else {
        0
    }
}

fn change_at(activity: &ActivityInfo, d: usize, delivery: &String, pickup: &String) -> (c: i64)
    requires
        delivery@ == "delivery"@,
        pickup@ == "pickup"@,
    ensures
        c == change_of(*activity, d as int),
{
    let demand: i64 = match &activity.demand {
        Some(demand) => component_of(demand, d) as i64,
        None => 0,
    };
    if activity.activity_type == *delivery {
        -demand
    } else if activity.activity_type == *pickup {
        demand
    } else {
        0
    }
}

fn stop_change_at(stop: &StopInfo, d: usize, delivery: &String, pickup: &String) -> (change: i128)
    requires
        delivery@ == "delivery"@,
        pickup@ == "pickup"@,
    ensures
        change == change_upto(*stop, stop.activities.len() as nat, d as int),
        -0x8000_0000 * 0x1_0000_0000_0000_0000 <= change <= 0x8000_0000 * 0x1_0000_0000_0000_0000,
{
    let mut change: i128 = 0;
    let mut a: usize = 0;
    while a < stop.activities.len()
        invariant
            a <= stop.activities.len(),
            delivery@ == "delivery"@,
            pickup@ == "pickup"@,
            change == change_upto(*stop, a as nat, d as int),
        decreases stop.activities.len() - a,
    {
        proof {
            lemma_change_bounds(*stop, a as nat, d as int);
            lemma_change_bounds(*stop, (a + 1) as nat, d as int);
            assert(0x8000_0000 * (a + 1) <= 0x8000_0000 * 0x1_0000_0000_0000_0000) by (nonlinear_arith)
                requires
                    a + 1 <= 0x1_0000_0000_0000_0000,
            ;
        }
        change = change + change_at(&stop.activities[a], d, delivery, pickup) as i128;
        a = a + 1;
    }
    proof {
        lemma_change_bounds(*stop, stop.activities.len() as nat, d as int);
        assert(0x8000_0000 * stop.activities.len() <= 0x8000_0000 * 0x1_0000_0000_0000_0000)
            by (nonlinear_arith)
            requires
                stop.activities.len() <= 0x1_0000_0000_0000_0000,
        ;
    }
    change
}

fn width_of(tour: &TourInfo, s: usize) -> (dimensions: usize)
    requires
        1 <= s < tour.stops.len(),
    ensures
        dimensions == width(*tour, s as int),
{
    let stop = &tour.stops[s];
    let mut demands: usize = 0;
    let mut a: usize = 0;
    while a < stop.activities.len()
        invariant
            a <= stop.activities.len(),
            demands == demand_width(*stop, a as nat),
        decreases stop.activities.len() - a,
    {
        let own = match &stop.activities[a].demand {
            Some(demand) => demand.len(),
            None => 0,
        };
        if own > demands {
            demands = own;
        }
        a = a + 1;
    }
    let before = tour.stops[s - 1].load.len();
    let here = stop.load.len();
    let loads = if before > here {
        before
    } else {
        here
    };
    if demands > loads {
        demands
    } else {
        loads
    }
}

/// Checks that the load changes from stop to stop by what the activities
/// deliver and pick up.
pub fn check_stop_has_proper_demand_change(tour: &TourInfo) -> (result: Result<(), JobCheckError>)
    ensures
        demand_outcome(*tour, result),
{
    if tour.stops.len() == 0 {
        return Err(JobCheckError::EmptyTour { vehicle_id: tour.vehicle_id.clone() });
    }
    let delivery = "delivery".to_owned();
    let pickup = "pickup".to_owned();
    let mut s: usize = 1;
    while s < tour.stops.len()
        invariant
            1 <= s <= tour.stops.len(),
            delivery@ == "delivery"@,
            pickup@ == "pickup"@,
            forall|r: int| 1 <= r < s ==> #[trigger] stop_is_consistent(*tour, r),
        decreases tour.stops.len() - s,
    {
        let dimensions = width_of(tour, s);
        let mut result: Vec<i128> = Vec::new();
        let mut expected: Vec<i128> = Vec::new();
        let mut matching = true;
        let ghost mut differing: int = 0;
        let mut d: usize = 0;
        while d < dimensions
            invariant
                1 <= s < tour.stops.len(),
                delivery@ == "delivery"@,
                pickup@ == "pickup"@,
                d <= dimensions,
                dimensions == width(*tour, s as int),
                result.len() == d,
                expected.len() == d,
                forall|k: int|
                    0 <= k < d ==> #[trigger] result[k] == component(tour.stops[s as int].load@, k)
                        && expected[k] == expected_load(*tour, s as int, k),
                matching ==> forall|k: int| 0 <= k < d ==> result[k] == #[trigger] expected[k],
                !matching ==> 0 <= differing < d && result[differing] != expected[differing],
            decreases dimensions - d,
        {
            let reported = component_of(&tour.stops[s].load, d) as i128;
            let before = component_of(&tour.stops[s - 1].load, d) as i128;
            let change = stop_change_at(&tour.stops[s], d, &delivery, &pickup);
            let should = before + change;
            if reported != should {
                matching = false;
                proof {
                    differing = d as int;
                }
            }
            result.push(reported);
            expected.push(should);
            d = d + 1;
        }
        proof {
            if matching {
                assert forall|k: int| 0 <= k implies component(tour.stops[s as int].load@, k)
                    == #[trigger] expected_load(*tour, s as int, k) by {
                    if k < dimensions {
                        assert(result[k] == expected[k]);
                    } else {
                        lemma_no_change_beyond_width(
                            tour.stops[s as int],
                            tour.stops[s as int].activities.len() as nat,
                            k,
                        );
                    }
                }
            } else {
                assert(component(tour.stops[s as int].load@, differing) != expected_load(
                    *tour,
                    s as int,
                    differing,
                ));
                assert(!stop_is_consistent(*tour, s as int));
            }
        }
        if !matching {
            return Err(JobCheckError::StopLoadMismatch { result, expected });
        }
        s = s + 1;
    }
    Ok(())
}

/// Whether `result` is what the checks of all jobs find: what the presence
/// check finds if it fails, else what the demand check finds in the first
/// tour in which it fails, else nothing.
pub open spec fn jobs_outcome(solution: SolutionInfo, result: Result<(), JobCheckError>) -> bool {
    if !presence_holds(solution) {
        result is Err && presence_outcome(solution, result)
    } else {
        match result {
            Ok(()) => forall|t: int|
                0 <= t < solution.tours.len() ==> demand_holds(#[trigger] solution.tours[t]),
            Err(_) => exists|t: int|
                {
                    &&& 0 <= t < solution.tours.len()
                    &&& !demand_holds(#[trigger] solution.tours[t])
                    &&& demand_outcome(solution.tours[t], result)
                    &&& forall|u: int| 0 <= u < t ==> demand_holds(#[trigger] solution.tours[u])
                },
        }
    }
}

/// Checks the jobs of a solution: that each is served or reported once, and
/// that the loads of every tour follow from its activities.
pub fn check_jobs(solution: &SolutionInfo) -> (result: Result<(), JobCheckError>)
    ensures
        jobs_outcome(*solution, result),
{
    match check_job_presence(solution) {
        Err(error) => {
            return Err(error);
        },
        Ok(()) => {},
    }
    let mut t: usize = 0;
    while t < solution.tours.len()
        invariant
            t <= solution.tours.len(),
            presence_holds(*solution),
            forall|u: int| 0 <= u < t ==> demand_holds(#[trigger] solution.tours[u]),
        decreases solution.tours.len() - t,
    {
        match check_stop_has_proper_demand_change(&solution.tours[t]) {
            Err(error) => {
                return Err(error);
            },
            Ok(()) => {},
        }
        t = t + 1;
    }
    Ok(())
}

} // verus!

verus! {

/// The decimal text of a number.
pub uninterp spec fn decimal_text_of(value: usize) -> Seq<char>;

/// The text of a list of numbers, as `Debug` writes it.
pub uninterp spec fn list_text_of(values: Seq<i128>) -> Seq<char>;

/// `format!` with `Display` of a `usize`: the decimal text of the number,
/// which depends on the number alone.
#[verifier::external_body]
pub(crate) fn decimal_text(value: usize) -> (text: String)
    ensures
        text@ == decimal_text_of(value),
{
    format!("{}", value)
}

/// `format!` with `Debug` of a `Vec<i128>`: the text of the list, which
/// depends on the numbers alone.
#[verifier::external_body]
fn list_text(values: &Vec<i128>) -> (text: String)
    ensures
        text@ == list_text_of(values@),
{
    format!("{:?}", values)
}

impl JobCheckError {
    /// The report in words: the words of the kind of report, with the jobs,
    /// vehicles, counts and loads that the report is about.
    pub open spec fn message_spec(self) -> Seq<char> {
        match self {
            JobCheckError::JobUsedTwice { job_id, vehicle_id } => "Job '"@ + job_id@
                + "' used second time in another tour: '"@ + vehicle_id@ + "'"@,
            JobCheckError::FewerJobs { assigned, required } => "Solution has less jobs than the problem: "@
                + decimal_text_of(assigned) + " < "@ + decimal_text_of(required),
            JobCheckError::MoreJobs { assigned, required } => "Solution has more jobs than the problem: "@
                + decimal_text_of(assigned) + " > "@ + decimal_text_of(required),
            JobCheckError::EmptyTour { vehicle_id } => "Cannot find any stop in the tour: '"@
                + vehicle_id@ + "'"@,
            JobCheckError::StopLoadMismatch { result, expected } => "Stop load mismatch: result '"@
                + list_text_of(result@) + "' != expected '"@ + list_text_of(expected@) + "'"@,
        }
    }

    /// The report in words.
    pub fn message(&self) -> (text: String)
        ensures
            text@ == self.message_spec(),
    {
        match self {
            JobCheckError::JobUsedTwice { job_id, vehicle_id } => {
                let text = String::from_str("Job '").concat(job_id.as_str());
                let text = text.concat("' used second time in another tour: '");
                text.concat(vehicle_id.as_str()).concat("'")
            },
            JobCheckError::FewerJobs { assigned, required } => {
                let text = String::from_str("Solution has less jobs than the problem: ");
                let text = text.concat(decimal_text(*assigned).as_str()).concat(" < ");
                text.concat(decimal_text(*required).as_str())
            },
            JobCheckError::MoreJobs { assigned, required } => {
                let text = String::from_str("Solution has more jobs than the problem: ");
                let text = text.concat(decimal_text(*assigned).as_str()).concat(" > ");
                text.concat(decimal_text(*required).as_str())
            },
            JobCheckError::EmptyTour { vehicle_id } => {
                let text = String::from_str("Cannot find any stop in the tour: '");
                text.concat(vehicle_id.as_str()).concat("'")
            },
            JobCheckError::StopLoadMismatch { result, expected } => {
                let text = String::from_str("Stop load mismatch: result '");
                let text = text.concat(list_text(result).as_str()).concat("' != expected '");
                text.concat(list_text(expected).as_str()).concat("'")
            },
        }
    }
}

} // verus!
