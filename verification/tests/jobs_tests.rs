use rosomaxa::jobs::{
    check_job_presence, check_jobs, check_stop_has_proper_demand_change, ActivityInfo, JobCheckError,
    SolutionInfo, StopInfo, TourInfo,
};

fn activity(job_id: Option<&str>, activity_type: &str, demand: Option<Vec<i32>>) -> ActivityInfo {
    ActivityInfo { job_id: job_id.map(|id| id.to_string()), activity_type: activity_type.to_string(), demand }
}

fn stop(load: Vec<i32>, activities: Vec<ActivityInfo>) -> StopInfo {
    StopInfo { load, activities }
}

fn tour(vehicle_id: &str, stops: Vec<StopInfo>) -> TourInfo {
    TourInfo { vehicle_id: vehicle_id.to_string(), stops }
}

fn visits(vehicle_id: &str, jobs: &[&str]) -> TourInfo {
    let mut stops = vec![stop(vec![0], vec![activity(None, "departure", None)])];
    for job in jobs {
        stops.push(stop(vec![0], vec![activity(Some(job), "service", None)]));
    }
    tour(vehicle_id, stops)
}

fn solution(jobs: &[&str], tours: Vec<TourInfo>, unassigned: &[&str]) -> SolutionInfo {
    SolutionInfo {
        jobs: jobs.iter().map(|id| id.to_string()).collect(),
        tours,
        unassigned: unassigned.iter().map(|id| id.to_string()).collect(),
    }
}

fn message(result: Result<(), JobCheckError>) -> Option<String> {
    result.err().map(|error| error.message())
}

fn can_validate_stop_demand_impl(loads: Vec<(i32, i32)>, expected: Option<String>) {
    let kinds = [("departure", "departure"), ("job1", "delivery"), ("job2", "pickup"), ("job2", "delivery"), ("job2", "delivery")];
    let stops = loads
        .iter()
        .zip(kinds.iter())
        .map(|((load, demand), (job_id, kind))| stop(vec![*load], vec![activity(Some(job_id), kind, Some(vec![*demand]))]))
        .collect();
    let tour_info = tour("my_vehicle_1", stops);

    let result = message(check_stop_has_proper_demand_change(&tour_info));

    assert_eq!(result, expected);
}

#[test]
fn can_validate_stop_demand_case01() {
    can_validate_stop_demand_impl(vec![(4, 0), (2, 2), (4, 2), (2, 2), (0, 2)], None);
}

#[test]
fn can_validate_stop_demand_case02() {
    can_validate_stop_demand_impl(
        vec![(4, 0), (4, 2), (4, 2), (2, 2), (0, 2)],
        Some("Stop load mismatch: result '[4]' != expected '[2]'".to_string()),
    );
}

#[test]
fn can_validate_stop_demand_case03() {
    can_validate_stop_demand_impl(
        vec![(4, 0), (2, 2), (4, 2), (3, 2), (0, 2)],
        Some("Stop load mismatch: result '[3]' != expected '[2]'".to_string()),
    );
}

#[test]
fn demand_check_refuses_tour_without_stops() {
    let result = check_stop_has_proper_demand_change(&tour("v1", vec![]));
    assert!(matches!(&result, Err(JobCheckError::EmptyTour { vehicle_id }) if vehicle_id == "v1"));
    assert_eq!(message(result), Some("Cannot find any stop in the tour: 'v1'".to_string()));
}

#[test]
fn demand_check_accepts_single_stop() {
    assert!(check_stop_has_proper_demand_change(&tour("v1", vec![stop(vec![7, 7], vec![])])).is_ok());
}

#[test]
fn demand_check_sums_all_activities_of_a_stop() {
    let stops = vec![
        stop(vec![10], vec![]),
        stop(
            vec![9],
            vec![
                activity(Some("a"), "delivery", Some(vec![3])),
                activity(Some("b"), "pickup", Some(vec![2])),
                activity(None, "break", Some(vec![100])),
                activity(Some("c"), "pickup", None),
            ],
        ),
    ];
    assert!(check_stop_has_proper_demand_change(&tour("v1", stops)).is_ok());
}

#[test]
fn demand_check_compares_every_dimension() {
    let good = vec![
        stop(vec![5, 1], vec![]),
        stop(vec![3, 2, 4], vec![activity(Some("a"), "delivery", Some(vec![2])), activity(Some("b"), "pickup", Some(vec![0, 1, 4]))]),
        // dimensions that are not given count as zero
        stop(vec![3, 2], vec![activity(Some("c"), "delivery", Some(vec![0, 0, 4, 0]))]),
    ];
    assert!(check_stop_has_proper_demand_change(&tour("v1", good)).is_ok());

    let bad = vec![stop(vec![5, 1], vec![]), stop(vec![3], vec![activity(Some("a"), "delivery", Some(vec![2, 0, -6]))])];
    let result = check_stop_has_proper_demand_change(&tour("v1", bad));
    match &result {
        Err(JobCheckError::StopLoadMismatch { result, expected }) => {
            assert_eq!(result, &vec![3, 0, 0]);
            assert_eq!(expected, &vec![3, 1, 6]);
        }
        _ => panic!("expected a mismatch"),
    }
    assert_eq!(message(result), Some("Stop load mismatch: result '[3, 0, 0]' != expected '[3, 1, 6]'".to_string()));
}

#[test]
fn demand_check_does_not_overflow() {
    let stops = vec![
        stop(vec![i32::MAX], vec![]),
        stop(vec![i32::MAX], vec![activity(None, "pickup", Some(vec![i32::MAX])), activity(None, "pickup", Some(vec![i32::MAX]))]),
    ];
    match check_stop_has_proper_demand_change(&tour("v1", stops)) {
        Err(JobCheckError::StopLoadMismatch { result, expected }) => {
            assert_eq!(result, vec![i32::MAX as i128]);
            assert_eq!(expected, vec![3 * (i32::MAX as i128)]);
        }
        _ => panic!("expected a mismatch"),
    }
}

#[test]
fn presence_check_accepts_each_job_once() {
    let tours = vec![visits("v1", &["a", "b"]), visits("v2", &["c"])];
    assert!(check_job_presence(&solution(&["a", "b", "c", "d"], tours, &["d"])).is_ok());
    assert!(check_job_presence(&solution(&[], vec![], &[])).is_ok());
}

#[test]
fn presence_check_accepts_job_served_twice_in_one_tour() {
    let tours = vec![visits("v1", &["a", "b", "a"]), visits("v2", &["c", "c"])];
    assert!(check_job_presence(&solution(&["a", "b", "c"], tours, &[])).is_ok());
}

#[test]
fn presence_check_refuses_job_in_two_tours() {
    let tours = vec![visits("v1", &["a", "b"]), visits("v2", &["c", "b", "a"]), visits("v3", &["a"])];
    let result = check_job_presence(&solution(&["a", "b", "c"], tours, &[]));
    assert!(matches!(&result, Err(JobCheckError::JobUsedTwice { job_id, vehicle_id }) if job_id == "b" && vehicle_id == "v2"));
    assert_eq!(message(result), Some("Job 'b' used second time in another tour: 'v2'".to_string()));
}

#[test]
fn presence_check_counts_known_jobs() {
    let tours = vec![visits("v1", &["a", "b"])];
    let fewer = check_job_presence(&solution(&["a", "b", "c", "d"], tours, &["c"]));
    assert!(matches!(&fewer, Err(JobCheckError::FewerJobs { assigned: 3, required: 4 })));
    assert_eq!(message(fewer), Some("Solution has less jobs than the problem: 3 < 4".to_string()));

    let tours = vec![visits("v1", &["a", "b"])];
    let more = check_job_presence(&solution(&["a"], tours, &["c", "c", "a"]));
    assert!(matches!(&more, Err(JobCheckError::MoreJobs { assigned: 3, required: 1 })));
    assert_eq!(message(more), Some("Solution has more jobs than the problem: 3 > 1".to_string()));
}

#[test]
fn presence_check_reports_reuse_before_counts() {
    let tours = vec![visits("v1", &["a"]), visits("v2", &["a"])];
    let result = check_job_presence(&solution(&[], tours, &[]));
    assert!(matches!(result, Err(JobCheckError::JobUsedTwice { .. })));
}

#[test]
fn jobs_check_runs_presence_then_demand() {
    let good = vec![visits("v1", &["a"]), visits("v2", &["b"])];
    assert!(check_jobs(&solution(&["a", "b"], good, &[])).is_ok());

    let mut broken = visits("v2", &["b"]);
    broken.stops[1].load = vec![1];
    let result = check_jobs(&solution(&["a", "b"], vec![visits("v1", &["a"]), broken], &[]));
    assert_eq!(message(result), Some("Stop load mismatch: result '[1]' != expected '[0]'".to_string()));

    let mut broken = visits("v2", &["a"]);
    broken.stops[1].load = vec![1];
    let result = check_jobs(&solution(&["a", "b"], vec![visits("v1", &["a"]), broken], &[]));
    assert!(matches!(result, Err(JobCheckError::JobUsedTwice { .. })));

    let result = check_jobs(&solution(&["a"], vec![visits("v1", &["a"]), tour("v2", vec![])], &[]));
    assert!(matches!(result, Err(JobCheckError::EmptyTour { .. })));
}
