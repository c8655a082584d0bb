use rosomaxa::remedian::Remedian;

fn feed(remedian: &mut Remedian, values: impl Iterator<Item = u64>) {
    for value in values {
        remedian.add_observation(value);
    }
}

#[test]
fn empty_remedian_has_no_estimate() {
    let remedian = Remedian::new(11);
    assert_eq!(remedian.approx_median(), None);
}

#[test]
fn single_observation_is_its_own_median() {
    let mut remedian = Remedian::new(11);
    remedian.add_observation(7);
    assert_eq!(remedian.approx_median(), Some(7));
}

#[test]
fn partial_bucket_gives_its_exact_median() {
    let mut remedian = Remedian::new(11);
    feed(&mut remedian, [9, 1, 5].into_iter());
    assert_eq!(remedian.approx_median(), Some(5));
    remedian.add_observation(3);
    // upper of the two middle values of 1 3 5 9
    assert_eq!(remedian.approx_median(), Some(5));
    feed(&mut remedian, [2, 2].into_iter());
    // 1 2 2 3 5 9
    assert_eq!(remedian.approx_median(), Some(3));
}

#[test]
fn full_bucket_hands_its_median_up() {
    let mut remedian = Remedian::new(11);
    feed(&mut remedian, [11, 3, 7, 1, 9, 5, 2, 10, 4, 8, 6].into_iter());
    assert_eq!(remedian.approx_median(), Some(6));
    // the next observations stay below the top level
    remedian.add_observation(1000);
    assert_eq!(remedian.approx_median(), Some(6));
    feed(&mut remedian, std::iter::repeat(1000).take(9));
    assert_eq!(remedian.approx_median(), Some(6));
    // the second bucket is full: 1000 goes up, and the top level holds 6 and 1000
    remedian.add_observation(1000);
    assert_eq!(remedian.approx_median(), Some(1000));
}

#[test]
fn medians_cascade_over_levels() {
    let mut remedian = Remedian::new(11);
    feed(&mut remedian, 1..=121);
    // medians 6, 17, .., 116 of the eleven buckets; their median is 61
    assert_eq!(remedian.approx_median(), Some(61));
}

#[test]
fn narrow_buckets_work() {
    let mut remedian = Remedian::new(2);
    feed(&mut remedian, [4, 8].into_iter());
    // the bucket 4 8 hands 8 up
    assert_eq!(remedian.approx_median(), Some(8));
    feed(&mut remedian, [1, 3].into_iter());
    // 1 3 hands 3 up, the level 8 3 hands 8 up
    assert_eq!(remedian.approx_median(), Some(8));
}

#[test]
fn estimate_stays_within_the_observations() {
    let mut remedian = Remedian::new(11);
    let mut state: u64 = 12345;
    for _ in 0..5000 {
        state = state.wrapping_mul(6364136223846793005).wrapping_add(1442695040888963407);
        remedian.add_observation(20 + (state >> 33) % 11);
        let estimate = remedian.approx_median().unwrap();
        assert!((20..=30).contains(&estimate));
    }
}

#[test]
fn can_estimate_median_of_uniform_durations() {
    let mut remedian = Remedian::new(11);
    let mut state: u64 = 42;
    for _ in 0..10_000 {
        state = state.wrapping_mul(6364136223846793005).wrapping_add(1442695040888963407);
        remedian.add_observation((state >> 33) % 101);
    }
    let estimate = remedian.approx_median().unwrap();
    assert!((40..=60).contains(&estimate), "estimate {} is off", estimate);
}

fn sides(values: &[u64], estimate: u64) -> (usize, usize) {
    let at_most = values.iter().filter(|value| **value <= estimate).count();
    let at_least = values.iter().filter(|value| **value >= estimate).count();
    (at_most, at_least)
}

#[test]
fn full_tower_has_its_share_on_either_side_of_the_estimate() {
    for (count, share) in [(1usize, 1usize), (11, 6), (121, 36), (1331, 216)] {
        for seed in 1..20u64 {
            let mut remedian = Remedian::new(11);
            let mut state = seed;
            let mut values = vec![];
            for _ in 0..count {
                state = state.wrapping_mul(6364136223846793005).wrapping_add(1442695040888963407);
                values.push((state >> 33) % 1000);
                remedian.add_observation(*values.last().unwrap());
            }
            let (at_most, at_least) = sides(&values, remedian.approx_median().unwrap());
            assert!(at_most >= share, "{} of {} at most the estimate", at_most, count);
            assert!(at_least >= share, "{} of {} at least the estimate", at_least, count);
        }
    }
}

#[test]
fn full_tower_of_even_buckets_has_its_share_on_either_side() {
    // buckets of four: three of four are at most their median, two of four at least
    let mut remedian = Remedian::new(4);
    let values: Vec<u64> = (0..64).map(|index| (index * 37) % 64).collect();
    feed(&mut remedian, values.iter().copied());
    let (at_most, at_least) = sides(&values, remedian.approx_median().unwrap());
    assert!(at_most >= 27);
    assert!(at_least >= 8);
}

#[test]
fn sorted_stream_is_the_worst_case_within_the_bound() {
    let mut remedian = Remedian::new(11);
    let values: Vec<u64> = (1..=1331).collect();
    feed(&mut remedian, values.iter().copied());
    let estimate = remedian.approx_median().unwrap();
    assert_eq!(estimate, 666);
    let (at_most, at_least) = sides(&values, estimate);
    assert!(at_most >= 216 && at_least >= 216);
}
