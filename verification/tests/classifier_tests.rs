use rosomaxa::classifier::{
    classify, is_significant_change, relative_change_of, squared_distance, SIGNIFICANCE_THRESHOLD,
};
use rosomaxa::search_state::{Comparison, MedianRatio, SearchState};

fn pace() -> MedianRatio {
    MedianRatio { duration: 3, median: 2 }
}

#[test]
fn better_than_best_and_significant_is_major_improvement() {
    for old in [Comparison::Less, Comparison::Equal, Comparison::Greater] {
        let state = classify(old, Comparison::Less, true, pace());
        assert!(matches!(state, SearchState::BestMajorImprovement(_)));
    }
}

#[test]
fn better_than_best_and_insignificant_is_minor_improvement() {
    for old in [Comparison::Less, Comparison::Equal, Comparison::Greater] {
        let state = classify(old, Comparison::Less, false, pace());
        assert!(matches!(state, SearchState::BestMinorImprovement(_)));
    }
}

#[test]
fn better_than_old_only_is_diverse_improvement() {
    for best in [Comparison::Equal, Comparison::Greater] {
        for significant in [true, false] {
            let state = classify(Comparison::Less, best, significant, pace());
            assert!(matches!(state, SearchState::DiverseImprovement(_)));
        }
    }
}

#[test]
fn anything_else_is_stagnation() {
    for old in [Comparison::Equal, Comparison::Greater] {
        for best in [Comparison::Equal, Comparison::Greater] {
            for significant in [true, false] {
                let state = classify(old, best, significant, pace());
                assert!(matches!(state, SearchState::Stagnated(_)));
            }
        }
    }
}

#[test]
fn classified_state_carries_the_pace() {
    let state = classify(Comparison::Greater, Comparison::Greater, false, pace());
    match state {
        SearchState::Stagnated(ratio) => assert_eq!((ratio.duration, ratio.median), (3, 2)),
        _ => panic!("expected stagnation"),
    }
    // slow stagnation: -1 times 1.5
    assert_eq!(state.reward(), -1_500_000);
}

#[test]
fn relative_change_is_in_parts_per_million() {
    assert_eq!(relative_change_of(10_000_000, 9_900_000), 10_000);
    assert_eq!(relative_change_of(9_900_000, 10_000_000), 10_000);
    assert_eq!(relative_change_of(9_900_000, 9_800_000), 10_101);
    assert_eq!(relative_change_of(0, 0), 0);
    assert_eq!(relative_change_of(0, 5), 1_000_000);
    assert_eq!(relative_change_of(-3, 3), 2_000_000);
    assert_eq!(relative_change_of(7, 7), 0);
    assert_eq!(relative_change_of(i64::MIN, i64::MAX), 1_999_999);
    assert_eq!(relative_change_of(i64::MIN, i64::MIN), 0);
}

#[test]
fn squared_distance_sums_over_shared_components() {
    assert_eq!(squared_distance(&vec![], &vec![]), 0);
    assert_eq!(squared_distance(&vec![1, 2], &vec![1, 2, 3]), 0);
    assert_eq!(squared_distance(&vec![10_000_000], &vec![9_900_000]), 100_000_000);
    assert_eq!(squared_distance(&vec![1000, 1000], &vec![992, 993]), 8_000 * 8_000 + 7_000 * 7_000);
    assert_eq!(squared_distance(&vec![0, 5], &vec![5]), 1_000_000_000_000);
}

#[test]
fn significance_fires_above_one_hundredth_only() {
    // distance exactly 0.01
    assert!(!is_significant_change(Some(&vec![10_000_000]), &vec![9_900_000], 0));
    // distance 0.010101
    assert!(is_significant_change(Some(&vec![9_900_000]), &vec![9_800_000], 0));
    // each component below the threshold, the norm above it
    assert!(is_significant_change(Some(&vec![1000, 1000]), &vec![992, 993], 0));
    assert!(!is_significant_change(Some(&vec![1000, 1000]), &vec![993, 993], 0));
    // equal fitness
    assert!(!is_significant_change(Some(&vec![5, 6, 7]), &vec![5, 6, 7], 0));
}

#[test]
fn first_solution_is_significant_while_improvements_are_rare() {
    assert_eq!(SIGNIFICANCE_THRESHOLD, 10_000);
    assert!(is_significant_change(None, &vec![1], 0));
    assert!(is_significant_change(None, &vec![1], 9_999));
    assert!(!is_significant_change(None, &vec![1], 10_000));
    assert!(!is_significant_change(None, &vec![1], 1_000_000));
}
