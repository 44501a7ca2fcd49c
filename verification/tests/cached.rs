use fds_tbx::cached::{CacheDecision, CacheState, CachedError};

#[test]
fn cache_decisions() {
    let mut c: CacheState<u32> = CacheState::new();
    assert!(matches!(c.get_cached(false), CacheDecision::StartFetch));
    assert!(matches!(c.get_cached(true), CacheDecision::JoinInflight));
    let err = c.fetched(Err("no network".to_string())).unwrap();
    assert_eq!(err.inner, "no network");
    assert!(c.last_fetched.is_none());
    assert!(c.fetched(Ok(7)).is_none());
    assert!(matches!(c.get_cached(true), CacheDecision::Cached(&7)));
    assert_eq!(CachedError::new("x".to_string()).inner, "x");
}
