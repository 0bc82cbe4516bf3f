use manga_core::limiter::RateLimiter;
use manga_core::pagination::PaginationInfo;
use manga_core::pagination::PaginationParams;
use manga_core::params::AdvancedSearchParams;

#[test]
fn window_admits_three_then_rejects() {
    let mut limiter = RateLimiter::new(3, 60);
    assert!(limiter.check("A", 0));
    assert!(limiter.check("A", 1));
    assert!(limiter.check("A", 2));
    assert!(!limiter.check("A", 3));
    // After the window has passed, requests are admitted again.
    assert!(limiter.check("A", 61));
}

#[test]
fn identities_are_limited_independently() {
    let mut limiter = RateLimiter::new(1, 60);
    assert!(limiter.check("A", 0));
    assert!(!limiter.check("A", 1));
    assert!(limiter.check("B", 1));
}

#[test]
fn rejection_does_not_consume_quota() {
    let mut limiter = RateLimiter::new(2, 60);
    assert!(limiter.check("A", 0));
    assert!(limiter.check("A", 10));
    // The rejected attempts at 20 and 30 append nothing, so once the
    // first instant leaves the window the next request is admitted.
    assert!(!limiter.check("A", 20));
    assert!(!limiter.check("A", 30));
    assert!(limiter.check("A", 61));
}

#[test]
fn cleanup_keeps_the_limiter_working() {
    let mut limiter = RateLimiter::new(3, 60);
    assert!(limiter.check("A", 0));
    assert!(limiter.check("B", 0));
    limiter.cleanup_old_entries(500);
    assert!(limiter.check("A", 500));
    assert!(limiter.check("B", 500));
}

#[test]
fn pagination_math() {
    let mut p = PaginationParams { page: 3, limit: 20 };
    p.validate();
    assert_eq!(p.skip(), 40);
    assert_eq!(p.limit(), 20);

    let mut low = PaginationParams { page: 0, limit: 0 };
    low.validate();
    assert_eq!(low.page, 1);
    assert_eq!(low.limit, 1);

    let mut high = PaginationParams { page: 2, limit: 1000 };
    high.validate();
    assert_eq!(high.limit, 100);

    let norm = AdvancedSearchParams {
        page: Some(0),
        limit: Some(1000),
        ..Default::default()
    }
    .normalize();
    assert_eq!(norm.page, 1);
    assert_eq!(norm.limit, 100);
}

#[test]
fn pagination_info_counts_pages() {
    let info = PaginationInfo::new(3, 20, 45);
    assert_eq!(info.total_pages, 3);
    assert!(!info.has_next);
    assert!(info.has_prev);

    let first = PaginationInfo::new(1, 20, 45);
    assert!(first.has_next);
    assert!(!first.has_prev);

    let empty = PaginationInfo::new(1, 20, 0);
    assert_eq!(empty.total_pages, 0);
}
