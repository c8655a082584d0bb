use rosomaxa::search_state::{MedianRatio, SearchAction, SearchState, MAX_REWARD, STATE_COUNT, UNIT};

fn ratio(duration: u64, median: u64) -> MedianRatio {
    MedianRatio { duration, median }
}

#[test]
fn nominal_pace_keeps_the_reward() {
    assert_eq!(ratio(10, 10).eval(5 * UNIT), 5 * UNIT);
    assert_eq!(ratio(10, 10).eval(0), 0);
    assert_eq!(ratio(10, 10).eval(-UNIT), -UNIT);
    // 1.0005 is below the threshold of 1.001
    assert_eq!(ratio(2001, 2000).eval(1000 * UNIT), 1000 * UNIT);
    // a fast action is not rewarded more
    assert_eq!(ratio(1, 10).eval(1000 * UNIT), 1000 * UNIT);
    assert_eq!(ratio(0, 10).eval(-UNIT), -UNIT);
}

#[test]
fn unknown_median_counts_as_nominal_pace() {
    assert_eq!(ratio(500, 0).eval(1000 * UNIT), 1000 * UNIT);
    assert_eq!(ratio(500, 0).eval(0), 0);
    assert_eq!(MedianRatio::default().eval(-UNIT), -UNIT);
}

#[test]
fn threshold_pace_is_slow() {
    // ratio is exactly 1.001
    assert_eq!(ratio(1001, 1000).eval(1000 * UNIT), 999_000_999);
    assert_eq!(ratio(1001, 1000).eval(0), -2_002_000);
    assert_eq!(ratio(1001, 1000).eval(-UNIT), -1_001_000);
}

#[test]
fn slow_pace_divides_positive_rewards() {
    assert_eq!(ratio(3, 2).eval(1000 * UNIT), 666_666_666);
    assert_eq!(ratio(3, 2).eval(100 * UNIT), 66_666_666);
    assert_eq!(ratio(3, 2).eval(10 * UNIT), 6_666_666);
}

#[test]
fn slow_pace_multiplies_negative_rewards() {
    assert_eq!(ratio(3, 2).eval(-UNIT), -1_500_000);
    // rounded down to the next millionth
    assert_eq!(ratio(4, 3).eval(-1), -2);
}

#[test]
fn slow_pace_penalises_zero_rewards() {
    assert_eq!(ratio(3, 2).eval(0), -3 * UNIT);
    assert_eq!(ratio(4, 3).eval(0), -2_666_667);
}

#[test]
fn pace_is_clamped_at_two() {
    assert_eq!(ratio(100, 10).eval(1000 * UNIT), 500 * UNIT);
    assert_eq!(ratio(100, 10).eval(0), -4 * UNIT);
    assert_eq!(ratio(100, 10).eval(-UNIT), -2 * UNIT);
    assert_eq!(ratio(u64::MAX, 1).eval(MAX_REWARD), MAX_REWARD / 2);
    assert_eq!(ratio(u64::MAX, 1).eval(-MAX_REWARD), -2 * MAX_REWARD);
}

#[test]
fn large_durations_do_not_overflow() {
    let slow = ratio(u64::MAX, u64::MAX / 2 + 1);
    // just below -4, rounded down
    assert_eq!(slow.eval(0), -4_000_000);
    assert!(slow.eval(MAX_REWARD) >= MAX_REWARD / 2);
    assert!(slow.eval(-MAX_REWARD) >= -2 * MAX_REWARD);
}

#[test]
fn ratio_is_built_from_durations() {
    let known = MedianRatio::from_durations(30, Some(20));
    assert_eq!((known.duration, known.median), (30, 20));
    let unknown = MedianRatio::from_durations(30, None);
    assert_eq!((unknown.duration, unknown.median), (30, 0));
    let zero = MedianRatio::from_durations(30, Some(0));
    assert_eq!(zero.eval(10 * UNIT), 10 * UNIT);
    let initial = MedianRatio::default();
    assert_eq!((initial.duration, initial.median), (0, 0));
}

#[test]
fn rewards_follow_the_table_at_nominal_pace() {
    let nominal = ratio(1, 1);
    assert_eq!(SearchState::BestKnown(nominal).reward(), 0);
    assert_eq!(SearchState::Diverse(nominal).reward(), 0);
    assert_eq!(SearchState::BestMajorImprovement(nominal).reward(), 1000 * UNIT);
    assert_eq!(SearchState::BestMinorImprovement(nominal).reward(), 100 * UNIT);
    assert_eq!(SearchState::DiverseImprovement(nominal).reward(), 10 * UNIT);
    assert_eq!(SearchState::Stagnated(nominal).reward(), -UNIT);
}

#[test]
fn rewards_follow_the_table_at_slow_pace() {
    let slow = ratio(3, 2);
    assert_eq!(SearchState::BestKnown(slow).reward(), -3 * UNIT);
    assert_eq!(SearchState::Diverse(slow).reward(), -3 * UNIT);
    assert_eq!(SearchState::BestMajorImprovement(slow).reward(), 666_666_666);
    assert_eq!(SearchState::BestMinorImprovement(slow).reward(), 66_666_666);
    assert_eq!(SearchState::DiverseImprovement(slow).reward(), 6_666_666);
    assert_eq!(SearchState::Stagnated(slow).reward(), -1_500_000);
}

#[test]
fn slow_pace_always_lowers_the_reward() {
    let paces = [ratio(1001, 1000), ratio(3, 2), ratio(2, 1), ratio(50, 3)];
    let values = [-5 * UNIT, -1, 0, 1, 7, 1000 * UNIT];
    for pace in paces.iter() {
        for value in values.iter() {
            let reward = pace.eval(*value);
            assert!(reward < *value);
            if *value > 0 {
                assert!(2 * reward >= *value - 1);
            } else if *value < 0 {
                assert!(reward >= 2 * *value);
            } else {
                assert!(reward >= -4 * UNIT);
            }
        }
    }
}

#[test]
fn states_are_indexed_by_variant() {
    let any = ratio(7, 3);
    assert_eq!(SearchState::BestKnown(any).index(), 0);
    assert_eq!(SearchState::Diverse(any).index(), 1);
    assert_eq!(SearchState::BestMajorImprovement(any).index(), 2);
    assert_eq!(SearchState::BestMinorImprovement(any).index(), 3);
    assert_eq!(SearchState::DiverseImprovement(any).index(), 4);
    assert_eq!(SearchState::Stagnated(any).index(), 5);
    assert_eq!(STATE_COUNT, 6);
}

#[test]
fn states_are_equal_whatever_their_pace() {
    assert!(SearchState::BestKnown(ratio(1, 1)) == SearchState::BestKnown(ratio(9, 2)));
    assert!(SearchState::Stagnated(ratio(1, 1)) == SearchState::Stagnated(MedianRatio::default()));
    assert!(SearchState::BestKnown(ratio(1, 1)) != SearchState::Diverse(ratio(1, 1)));
    assert!(SearchState::BestMajorImprovement(ratio(1, 1)) != SearchState::BestMinorImprovement(ratio(1, 1)));
}

#[test]
fn only_states_that_hold_a_solution_go_on() {
    let any = MedianRatio::default();
    assert!(!SearchState::BestKnown(any).is_terminal());
    assert!(!SearchState::Diverse(any).is_terminal());
    assert!(SearchState::BestMajorImprovement(any).is_terminal());
    assert!(SearchState::BestMinorImprovement(any).is_terminal());
    assert!(SearchState::DiverseImprovement(any).is_terminal());
    assert!(SearchState::Stagnated(any).is_terminal());
}

#[test]
fn actions_name_an_operator() {
    let action = SearchAction::Search { heuristic_idx: 3 };
    assert_eq!(action, SearchAction::Search { heuristic_idx: 3 });
    assert_ne!(action, SearchAction::Search { heuristic_idx: 4 });
}
