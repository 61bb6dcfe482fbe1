use blog_core::queries::{total_pages, CreateCommentRequest, PostQuery};
use blog_core::ratelimit::{RateLimitConfig, RateLimitLayer, RateLimiter};
use blog_core::records::CommentStatus;

#[test]
fn test_window_behavior() {
    let config = RateLimitConfig { window_seconds: 60, max_requests: 5 };
    let mut limiter = RateLimiter::new(config);
    let ip: u128 = 0x0a00_0001;
    for _ in 0..5 {
        assert!(!limiter.should_limit(ip, 0));
    }
    // the sixth call inside the window is rejected
    assert!(limiter.should_limit(ip, 0));
    assert!(limiter.should_limit(ip, 30));
    // past the window, the old recordings are evicted
    assert!(!limiter.should_limit(ip, 61));
}

#[test]
fn test_rejection_records_nothing() {
    let config = RateLimitConfig { window_seconds: 60, max_requests: 1 };
    let mut limiter = RateLimiter::new(config);
    let ip: u128 = 7;
    assert!(!limiter.should_limit(ip, 0));
    // rejected calls do not extend the window
    assert!(limiter.should_limit(ip, 10));
    assert!(limiter.should_limit(ip, 20));
    assert!(!limiter.should_limit(ip, 60));
}

#[test]
fn test_identity_isolation() {
    let config = RateLimitConfig { window_seconds: 60, max_requests: 2 };
    let mut limiter = RateLimiter::new(config);
    let ip1: u128 = 1;
    let ip2: u128 = 2;
    assert!(!limiter.should_limit(ip1, 0));
    assert!(!limiter.should_limit(ip1, 0));
    assert!(limiter.should_limit(ip1, 0));
    // a different identity is untouched by the first one's quota
    assert!(!limiter.should_limit(ip2, 0));
    assert!(!limiter.should_limit(ip2, 0));
    assert!(limiter.should_limit(ip2, 0));
}

#[test]
fn test_default_config_and_layer() {
    let config = RateLimitConfig::default();
    assert_eq!(config.window_seconds, 60);
    assert_eq!(config.max_requests, 5);
    let layer = RateLimitLayer::new(config);
    assert_eq!(layer.config, config);
}

#[test]
fn test_total_pages_arithmetic() {
    assert_eq!(total_pages(0, 10), 0);
    assert_eq!(total_pages(1, 10), 1);
    assert_eq!(total_pages(10, 10), 1);
    assert_eq!(total_pages(11, 10), 2);
    assert_eq!(total_pages(21, 10), 3);
}

#[test]
fn test_query_defaults() {
    let q = PostQuery { page: None, limit: None };
    assert_eq!(q.effective_page(), 1);
    assert_eq!(q.effective_limit(), 10);
    let q2 = PostQuery { page: Some(3), limit: Some(25) };
    assert_eq!(q2.effective_page(), 3);
    assert_eq!(q2.effective_limit(), 25);
}

#[test]
fn test_comment_request_defaults() {
    let anonymous = CreateCommentRequest {
        nickname: None,
        email: "a@example.com".to_string(),
        content: "hi".to_string(),
    };
    let dto = anonymous.into_dto(4);
    assert_eq!(dto.post_id, 4);
    assert_eq!(dto.nickname, "匿名");

    let named = CreateCommentRequest {
        nickname: Some("nick".to_string()),
        email: "a@example.com".to_string(),
        content: "hi".to_string(),
    };
    assert_eq!(named.into_dto(4).nickname, "nick");
}

#[test]
fn test_status_parse_round_trip() {
    for s in ["pending", "approved", "rejected"] {
        let parsed = CommentStatus::parse(s).unwrap();
        assert_eq!(parsed.as_str(), s);
    }
    assert!(CommentStatus::parse("Pending").is_none());
    assert!(CommentStatus::parse("").is_none());
}
