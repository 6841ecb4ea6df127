//! The one cached feed: when it is served, when it is refreshed, and who
//! refreshes it.

use vstd::prelude::*;

verus! {

/// The age, in seconds, from which a cached value is no longer served.
pub const TTL: i64 = 600;

/// A value with the time that it was stored at.
pub struct Stored<T> {
    pub value: T,
    pub stored_at: int,
}

/// The model of the cache: what is held, and whether a refresh is under way.
pub struct CacheView<T> {
    pub entry: Option<Stored<T>>,
    pub refreshing: bool,
}

/// What a caller of the cache does next.
#[derive(Clone, Copy, Debug, PartialEq, Eq, Structural)]
pub enum CacheAction {
    /// Take the cached value.
    Serve,
    /// Make the value anew, and hand it in with `complete`.
    Refresh,
    /// Wait for the refresh that another caller makes.
    Wait,
}

impl<T> CacheView<T> {
    /// The cache before anything was stored in it.
    pub open spec fn empty() -> CacheView<T> {
        CacheView { entry: None, refreshing: false }
    }

    /// A value is held, and at `now` it is younger than `TTL`.
    pub open spec fn is_fresh(self, now: int) -> bool {
        self.entry is Some && now - self.entry->0.stored_at < TTL
    }

    /// What a caller that arrives at `now` does: it takes a fresh value; else
    /// it waits where a refresh is under way, and refreshes where none is.
    pub open spec fn action_at(self, now: int) -> CacheAction {
        if self.is_fresh(now) {
            CacheAction::Serve
        } else if self.refreshing {
            CacheAction::Wait
        } else {
            CacheAction::Refresh
        }
    }

    /// The cache once a caller has arrived at `now`: a refresh is under way
    /// where one was, or where the caller was told to make one.
    pub open spec fn requested(self, now: int) -> CacheView<T> {
        CacheView {
            entry: self.entry,
            refreshing: self.refreshing || self.action_at(now) == CacheAction::Refresh,
        }
    }

    /// The cache once the refresh has ended at `now`: with the value that was
    /// made, stored at `now`; after a failure, with what it held before.
    pub open spec fn completed(self, made: Option<T>, now: int) -> CacheView<T> {
        CacheView {
            entry: match made {
                Some(value) => Some(Stored { value, stored_at: now }),
                None => self.entry,
            },
            refreshing: false,
        }
    }
}

/// A cache of one value that lives for `TTL` seconds and is refreshed by one
/// caller at a time.
#[derive(Debug)]
pub struct RefreshCache<T> {
    entry: Option<(T, i64)>,
    refreshing: bool,
}

impl<T> View for RefreshCache<T> {
    type V = CacheView<T>;

    closed spec fn view(&self) -> CacheView<T> {
        CacheView {
            entry: match self.entry {
                Some((value, stored_at)) => Some(Stored { value, stored_at: stored_at as int }),
                None => None,
            },
            refreshing: self.refreshing,
        }
    }
}

impl<T> RefreshCache<T> {
    /// An empty cache.
    pub fn new() -> (cache: RefreshCache<T>)
        ensures
            cache@ == CacheView::<T>::empty(),
    {
        RefreshCache { entry: None, refreshing: false }
    }

    /// Decides what a caller that arrives at `now` does. A fresh value is
    /// served. Else the caller refreshes, unless another one already does: then
    /// it waits. The caller that is told to refresh is the one under way from
    /// then on.
    pub fn request(&mut self, now: i64) -> (action: CacheAction)
        ensures
            action == old(self)@.action_at(now as int),
            final(self)@ == old(self)@.requested(now as int),
    {
        let fresh: bool = match &self.entry {
            Some((_, stored_at)) => (now as i128) - (*stored_at as i128) < TTL as i128,
            None => false,
        };
        if fresh {
            CacheAction::Serve
        } else if self.refreshing {
            CacheAction::Wait
        } else {
            self.refreshing = true;
            CacheAction::Refresh
        }
    }

    /// The value that is held, whatever its age.
    pub fn cached(&self) -> (value: Option<&T>)
        ensures
            value is Some <==> self@.entry is Some,
            value is Some ==> *value->0 == self@.entry->0.value,
    {
        match &self.entry {
            Some((value, _)) => Some(value),
            None => None,
        }
    }

    /// Ends the refresh that is under way. A value that was made replaces the
    /// one held and counts as stored at `now`; a failure leaves what is held as
    /// it was and is handed back, for those who waited.
    pub fn complete<E>(&mut self, outcome: Result<T, E>, now: i64) -> (failure: Option<E>)
        ensures
            match outcome {
                Ok(value) => failure is None && final(self)@ == old(self)@.completed(
                    Some(value),
                    now as int,
                ),
                Err(error) => failure == Some(error) && final(self)@ == old(self)@.completed(
                    None,
                    now as int,
                ),
            },
    {
        self.refreshing = false;
        match outcome {
            Ok(value) => {
                self.entry = Some((value, now));
                None
            },
            Err(error) => Some(error),
        }
    }
}

/// While a refresh is under way, no caller is told to make another: callers
/// that arrive together make one refresh between them.
pub proof fn law_single_flight<T>(cache: CacheView<T>, now: int, later: int)
    ensures
        cache.refreshing ==> cache.action_at(now) != CacheAction::Refresh,
        cache.action_at(now) != CacheAction::Serve ==> cache.requested(now).refreshing,
        cache.action_at(now) != CacheAction::Serve ==> cache.requested(now).action_at(later)
            != CacheAction::Refresh,
        CacheView::<T>::empty().action_at(now) == CacheAction::Refresh,
        CacheView::<T>::empty().requested(now).action_at(later) == CacheAction::Wait,
{
}

/// A value is served from the moment it is stored until it is `TTL` old, and
/// from then on it is not.
pub proof fn law_time_to_live<T>(cache: CacheView<T>, value: T, stored_at: int, now: int)
    ensures
        cache.completed(Some(value), stored_at).is_fresh(now) <==> now - stored_at < TTL,
        cache.completed(Some(value), stored_at).is_fresh(now) ==> cache.completed(
            Some(value),
            stored_at,
        ).action_at(now) == CacheAction::Serve,
        cache.completed(Some(value), stored_at).entry == Some(Stored { value, stored_at }),
{
}

/// A refresh that fails is not kept: the cache holds what it held before, and
/// the caller that arrives next, unless that value is still fresh, refreshes
/// again.
pub proof fn law_failure_is_not_cached<T>(cache: CacheView<T>, failed_at: int, now: int)
    ensures
        cache.completed(None, failed_at).entry == cache.entry,
        !cache.is_fresh(now) ==> cache.completed(None, failed_at).action_at(now)
            == CacheAction::Refresh,
{
}

} // verus!
