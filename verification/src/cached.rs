//! A value that is fetched once and then served from memory; requests that come while it is
//! being fetched wait for that fetch. Fetching and waiting are left to the caller; this module
//! decides what each request does and what a finished fetch leaves behind.
use vstd::prelude::*;

verus! {

/// An error of fetching a cached value, kept as its text.
#[derive(Debug, Clone)]
pub struct CachedError {
    pub inner: String,
}

impl CachedError {
    /// The error with text `text`.
    pub fn new(text: String) -> (r: Self)
        ensures
            r.inner@ == text@,
    {
        CachedError { inner: text }
    }
}

/// What a request for the cached value does.
#[derive(Debug)]
pub enum CacheDecision<'a, T> {
    /// Serve this value, fetched before.
    Cached(&'a T),
    /// Wait for the fetch in flight.
    JoinInflight,
    /// Start a fetch and wait for it.
    StartFetch,
}

/// What a request does where the cache holds `held`: it is served the value once fetched;
/// otherwise it joins the fetch in flight where one is still alive, or starts one.
pub open spec fn decision<'a, T>(held: &'a Option<T>, inflight_alive: bool) -> CacheDecision<'a, T> {
    match held {
        Some(v) => CacheDecision::Cached(v),
        None => if inflight_alive {
            CacheDecision::JoinInflight
        } else {
            CacheDecision::StartFetch
        },
    }
}

/// What a cache that held `held` holds after a fetch that ended with `res`: the value fetched,
/// or what it held before where the fetch failed.
pub open spec fn after_fetch<T>(held: Option<T>, res: Result<T, String>) -> Option<T> {
    match res {
        Ok(v) => Some(v),
        Err(_) => held,
    }
}

/// What waiting requests get from a fetch that ended with `res`: nothing more where it
/// succeeded (they are served the value), the error's text where it failed.
pub open spec fn fetch_error<T>(res: Result<T, String>, r: Option<CachedError>) -> bool {
    match res {
        Ok(_) => r is None,
        Err(e) => r matches Some(c) && c.inner@ == e@,
    }
}

/// What a cache holds: the value, once it has been fetched.
#[derive(Debug)]
pub struct CacheState<T> {
    pub last_fetched: Option<T>,
}

impl<T> CacheState<T> {
    /// Nothing fetched yet.
    pub fn new() -> (r: Self)
        ensures
            r.last_fetched is None,
    {
        CacheState { last_fetched: None }
    }

    /// What a request does: it is served the value once fetched; otherwise it joins the fetch
    /// in flight where one is still alive, or starts one.
    pub fn get_cached(&self, inflight_alive: bool) -> (r: CacheDecision<'_, T>)
        ensures
            r == decision(&self.last_fetched, inflight_alive),
    {
        match &self.last_fetched {
            Some(v) => CacheDecision::Cached(v),
            None => if inflight_alive {
                CacheDecision::JoinInflight
            } else {
                CacheDecision::StartFetch
            },
        }
    }

    /// Records how a fetch ended: a value is kept for later requests, and an error (given as
    /// its text) is what the waiting requests get.
    pub fn fetched(&mut self, res: Result<T, String>) -> (r: Option<CachedError>)
        ensures
            final(self).last_fetched == after_fetch(old(self).last_fetched, res),
            fetch_error(res, r),
    {
        match res {
            Ok(v) => {
                self.last_fetched = Some(v);
                None
            },
            Err(e) => Some(CachedError::new(e)),
        }
    }
}

/// Once a fetch succeeded, every request is served the value it fetched, whether or not a
/// fetch is still in flight.
pub proof fn law_fetched_value_served<T>(held: Option<T>, v: T, inflight_alive: bool)
    ensures
        after_fetch(held, Ok(v)) == Some(v),
        decision(&Some(v), inflight_alive) == CacheDecision::Cached(&v),
{
}

/// A failed fetch leaves the cache as it was, so a request that finds no value and no fetch in
/// flight starts a new one.
pub proof fn law_failed_fetch_retried<T>(held: Option<T>, e: String)
    ensures
        after_fetch(held, Err(e)) == held,
        held is None ==> decision(&after_fetch(held, Err(e)), false) == CacheDecision::<T>::StartFetch,
{
}

} // verus!
