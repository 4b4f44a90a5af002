use uturn::lookup::{RateLimitError, RateLimiter};
use uturn::net::IpAddr;

const SECOND: u128 = 1_000_000_000;

#[test]
fn test_rate_limit() {
    let mut limiter = RateLimiter::new(3, 10);
    let ip = IpAddr::v4(192, 168, 1, 1);

    // First 3 requests should succeed
    assert!(limiter.check_allocation_request(ip).is_ok());
    assert!(limiter.check_allocation_request(ip).is_ok());
    assert!(limiter.check_allocation_request(ip).is_ok());

    // 4th request should fail
    assert_eq!(
        limiter.check_allocation_request(ip),
        Err(RateLimitError::TooManyRequests)
    );
}

#[test]
fn test_allocation_quota() {
    let mut limiter = RateLimiter::new(100, 2);
    let ip = IpAddr::v4(192, 168, 1, 1);

    // Allow first two allocations
    assert!(limiter.check_allocation_request(ip).is_ok());
    limiter.record_allocation(ip);
    assert!(limiter.check_allocation_request(ip).is_ok());
    limiter.record_allocation(ip);

    // Third should fail due to quota
    assert_eq!(
        limiter.check_allocation_request(ip),
        Err(RateLimitError::QuotaExceeded)
    );

    // After deallocation, should work again
    limiter.record_deallocation(ip);
    assert!(limiter.check_allocation_request(ip).is_ok());
}

#[test]
fn requests_count_for_a_minute() {
    let mut limiter = RateLimiter::new(2, 0);
    let ip = IpAddr::v4(192, 168, 1, 1);
    let other = IpAddr::v4(192, 168, 1, 2);

    assert!(limiter.check_allocation_request_at(ip, 0).is_ok());
    assert!(limiter.check_allocation_request_at(ip, 30 * SECOND).is_ok());
    assert_eq!(
        limiter.check_allocation_request_at(ip, 60 * SECOND - 1),
        Err(RateLimitError::TooManyRequests)
    );
    // Another address has a window of its own.
    assert!(limiter.check_allocation_request_at(other, 60 * SECOND - 1).is_ok());
    // The first request no longer counts, and the refused one never did.
    assert!(limiter.check_allocation_request_at(ip, 60 * SECOND).is_ok());
    assert_eq!(
        limiter.check_allocation_request_at(ip, 60 * SECOND),
        Err(RateLimitError::TooManyRequests)
    );
}

#[test]
fn limits_follow_the_history_of_allowed_requests() {
    let mut limiter = RateLimiter::new(3, 2);
    let ip = IpAddr::v4(192, 168, 1, 1);
    let other = IpAddr::v4(192, 168, 1, 2);
    // The times of the allowed requests, against which each verdict is held.
    let mut allowed: Vec<u128> = Vec::new();
    for step in 0..40u128 {
        let now = step * 7 * SECOND;
        let n = allowed.iter().filter(|t| now - **t < 60 * SECOND).count();
        let count = limiter.allocation_count(ip);
        let expected = if n >= 3 {
            Err(RateLimitError::TooManyRequests)
        } else if count >= 2 {
            Err(RateLimitError::QuotaExceeded)
        } else {
            Ok(())
        };
        assert_eq!(limiter.check_allocation_request_at(ip, now), expected);
        if expected.is_ok() {
            allowed.push(now);
        }
        assert_eq!(limiter.allocation_count(ip), count);
        assert_eq!(limiter.allocation_count(other), 0);
        match step % 6 {
            1 => limiter.record_allocation(ip),
            3 => limiter.cleanup_at(now),
            5 => limiter.record_deallocation(ip),
            _ => {}
        }
    }
    assert!(allowed.len() > 3);
    assert!(limiter.check_allocation_request_at(other, 280 * SECOND).is_ok());
}

#[test]
fn recording_does_not_move_the_base() {
    let mut limiter = RateLimiter::new(1, 0);
    let ip = IpAddr::v4(10, 0, 0, 1);
    let start = std::time::Instant::now();
    while start.elapsed().as_millis() < 30 {}
    assert!(limiter.check_allocation_request(ip).is_ok());
    limiter.record_allocation(ip);
    limiter.record_deallocation(ip);
    limiter.cleanup();
    assert!(limiter.elapsed() >= SECOND * 30 / 1000);
    assert_eq!(limiter.check_allocation_request(ip), Err(RateLimitError::TooManyRequests));
}

#[test]
fn no_limit_means_no_limit() {
    let mut limiter = RateLimiter::new(0, 0);
    let ip = IpAddr::V6(1);
    for _ in 0..1000 {
        assert!(limiter.check_allocation_request_at(ip, 5).is_ok());
        limiter.record_allocation(ip);
    }
    assert_eq!(limiter.allocation_count(ip), 1000);
}

#[test]
fn release_undoes_record_and_stops_at_zero() {
    let mut limiter = RateLimiter::new(0, 5);
    let ip = IpAddr::v4(10, 0, 0, 1);
    limiter.record_deallocation(ip);
    assert_eq!(limiter.allocation_count(ip), 0);
    limiter.record_allocation(ip);
    limiter.record_allocation(ip);
    assert_eq!(limiter.allocation_count(ip), 2);
    limiter.record_deallocations(&vec![ip, ip, ip]);
    assert_eq!(limiter.allocation_count(ip), 0);
}

#[test]
fn cleanup_keeps_what_still_matters() {
    let mut limiter = RateLimiter::new(1, 0);
    let recent = IpAddr::v4(10, 0, 0, 1);
    let allocated = IpAddr::v4(10, 0, 0, 2);
    assert!(limiter.check_allocation_request_at(recent, 10 * SECOND).is_ok());
    limiter.record_allocation(allocated);
    limiter.cleanup_at(20 * SECOND);
    assert_eq!(limiter.allocation_count(allocated), 1);
    assert_eq!(
        limiter.check_allocation_request_at(recent, 20 * SECOND),
        Err(RateLimitError::TooManyRequests)
    );
    limiter.cleanup_at(70 * SECOND);
    assert!(limiter.check_allocation_request_at(recent, 70 * SECOND).is_ok());
    limiter.cleanup();
    assert_eq!(limiter.allocation_count(allocated), 1);
}

#[test]
fn errors_have_a_text() {
    assert_eq!(RateLimitError::TooManyRequests.message(), "rate limit exceeded");
    assert_eq!(RateLimitError::QuotaExceeded.message(), "allocation quota exceeded");
}
