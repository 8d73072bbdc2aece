use rocket_rate_limit::respond::{
    apply_rate_limit, is_sentinel_path, on_request_decision, on_response_decision, sentinel_path,
    u128_to_dec_string,
};
use rocket_rate_limit::RateLimitResponse;

#[test]
fn decimal_rendering_is_exact() {
    assert_eq!(u128_to_dec_string(0), "0");
    assert_eq!(u128_to_dec_string(7), "7");
    assert_eq!(u128_to_dec_string(10), "10");
    assert_eq!(u128_to_dec_string(59_999), "59999");
    assert_eq!(u128_to_dec_string(1_000_000), "1000000");
    assert_eq!(u128_to_dec_string(u128::MAX), u128::MAX.to_string());
}

#[test]
fn rejection_edit_shape() {
    let d = apply_rate_limit(&RateLimitResponse { retry_after: 1234 });
    assert_eq!(d.status, 429);
    assert_eq!(d.header_name, "Retry-After");
    assert_eq!(d.header_value, "1234");
    assert_eq!(d.body_len, 0);
}

#[test]
fn sentinel_path_is_recognized() {
    assert!(is_sentinel_path(sentinel_path()));
    assert!(!is_sentinel_path("/upload"));
    assert!(!is_sentinel_path(""));
}

#[test]
fn request_phase_retargets_only_rejections() {
    assert!(on_request_decision(None).is_none());
    assert_eq!(
        on_request_decision(Some(RateLimitResponse { retry_after: 1 })),
        Some(sentinel_path())
    );
}

#[test]
fn response_phase_passes_through_or_rewrites() {
    // Not the sentinel path: pass through, whatever was stashed.
    assert!(on_response_decision("/upload", None).is_none());
    assert!(on_response_decision("/upload", Some(RateLimitResponse { retry_after: 5 })).is_none());
    // Sentinel path, nothing stashed: fail open, pass through.
    assert!(on_response_decision(sentinel_path(), None).is_none());
    // Sentinel path with a stashed outcome: the 429 edit.
    let d = on_response_decision(sentinel_path(), Some(RateLimitResponse { retry_after: 5 }))
        .expect("a stashed rejection on the sentinel path must be rewritten");
    assert_eq!(d.status, 429);
    assert_eq!(d.header_name, "Retry-After");
    assert_eq!(d.header_value, "5");
    assert_eq!(d.body_len, 0);
}
