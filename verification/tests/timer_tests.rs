use rosomaxa::timer::{saturate, Timer};

#[test]
fn milliseconds_are_saturated() {
    assert_eq!(saturate(0), 0);
    assert_eq!(saturate(1234), 1234);
    assert_eq!(saturate(u64::MAX as u128), u64::MAX);
    assert_eq!(saturate(u64::MAX as u128 + 1), u64::MAX);
    assert_eq!(saturate(u128::MAX), u64::MAX);
}

#[test]
fn timer_measures_elapsed_time() {
    let timer = Timer::start();
    let first = timer.elapsed_millis();
    assert!(first < 10_000);
    let clock = std::time::Instant::now();
    while clock.elapsed().as_millis() < 20 {
        std::hint::spin_loop();
    }
    let second = timer.elapsed_millis();
    assert!(second >= first);
    assert!(second >= 20);
    assert!(second < 20_000);
}
