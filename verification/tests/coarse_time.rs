use uturn::coarse_time::{
    coarse_now_ms, init, is_expired_secs, secs_since_epoch, unix_secs, update_coarse_time, CoarseInstant,
};

#[test]
fn test_coarse_instant() {
    let mut clock = init();
    update_coarse_time(&mut clock);

    let t1 = CoarseInstant::now(&clock);
    assert_eq!(t1.elapsed_secs(&clock), 0);
}

#[test]
fn test_is_expired() {
    let mut clock = init();
    update_coarse_time(&mut clock);

    let old_time = 0u64; // Beginning of time
    // Simulate some time passing
    clock.advance_to(50_000_000);

    // 0 seconds timeout should be expired
    assert!(is_expired_secs(&clock, old_time, 0));
}

#[test]
fn age_is_counted_in_whole_seconds() {
    let mut clock = init();
    clock.advance_to(1_000_000_000);
    let t = CoarseInstant::now(&clock);
    clock.advance_to(3_999_999_999);
    assert_eq!(coarse_now_ms(&clock), 3999);
    assert_eq!(t.elapsed_secs(&clock), 2);
    assert!(t.is_older_than_secs(&clock, 2));
    assert!(!t.is_older_than_secs(&clock, 3));
    assert!(is_expired_secs(&clock, 999, 3));
    assert!(!is_expired_secs(&clock, 1000, 3));
}

#[test]
fn older_means_more_than_that_many_seconds() {
    let mut clock = init();
    clock.advance_to(1_000_000_000);
    let t = CoarseInstant::now(&clock);
    clock.advance_to(3_000_000_000);
    // Exactly two seconds: a timeout of two seconds is over, but the moment is
    // not older than that.
    assert!(is_expired_secs(&clock, 1000, 2));
    assert!(!t.is_older_than_secs(&clock, 2));
    clock.advance_to(3_001_000_000);
    assert!(t.is_older_than_secs(&clock, 2));
    assert!(!t.is_older_than_secs(&clock, u64::MAX));
}

#[test]
fn a_time_in_the_future_has_no_age() {
    let mut clock = init();
    clock.advance_to(5_000_000_000);
    let t = CoarseInstant::now(&clock);
    clock.advance_to(1_000_000_000);
    assert_eq!(t.elapsed_secs(&clock), 0);
    assert!(!is_expired_secs(&clock, 5000, 1));
}

#[test]
fn clock_starts_near_zero_and_follows_the_time() {
    let mut clock = init();
    update_coarse_time(&mut clock);
    assert!(coarse_now_ms(&clock) < 10_000);
    assert!(unix_secs() > 1_600_000_000);
    assert_eq!(secs_since_epoch(Some(5)), 5);
    assert_eq!(secs_since_epoch(None), 0);
}

#[test]
fn the_clock_shows_all_of_64_bits() {
    let mut clock = init();
    clock.advance_to(u64::MAX as u128 * 1_000_000);
    assert_eq!(coarse_now_ms(&clock), u64::MAX);
    // Of a longer time it shows the low 64 bits.
    clock.advance_to((u64::MAX as u128 + 6) * 1_000_000);
    assert_eq!(coarse_now_ms(&clock), 5);
}

#[test]
fn setting_the_clock_does_not_move_its_base() {
    let mut clock = init();
    clock.advance_to(5_000_000_000_000);
    let start = std::time::Instant::now();
    while start.elapsed().as_millis() < 30 {}
    update_coarse_time(&mut clock);
    let ms = coarse_now_ms(&clock);
    assert!((30..10_000).contains(&ms));
}
