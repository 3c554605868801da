//! Cooperative cancellation of long-running scans.

use std::sync::atomic::{AtomicBool, Ordering};
use std::sync::Arc;

use vstd::prelude::*;

verus! {

/// A cancellation token. All clones share one flag, and any thread may change
/// it at any time: the methods say what was stored in the flag or read from it,
/// and nothing of what it holds afterwards.
pub struct CancellationToken {
    flag: Arc<AtomicBool>,
}

impl Clone for CancellationToken {
    /// Another handle on the same flag.
    fn clone(&self) -> (r: Self)
        ensures
            r == *self,
    {
        CancellationToken { flag: self.flag.clone() }
    }
}

impl CancellationToken {
    /// Whether the flag was made unset.
    pub closed spec fn starts_unset(self) -> bool {
        call_ensures(AtomicBool::new, (false,), *self.flag)
    }

    /// Whether `set` was stored in the flag.
    pub closed spec fn was_stored(self, set: bool) -> bool {
        call_ensures(AtomicBool::store, (&*self.flag, set, Ordering::Relaxed), ())
    }

    /// Whether `set` was read from the flag.
    pub closed spec fn was_read(self, set: bool) -> bool {
        call_ensures(AtomicBool::load, (&*self.flag, Ordering::Relaxed), set)
    }
}

impl Default for CancellationToken {
    fn default() -> (r: Self)
        ensures
            r.starts_unset(),
    {
        CancellationToken::new()
    }
}

impl CancellationToken {
    /// A token that is not cancelled.
    pub fn new() -> (r: Self)
        ensures
            r.starts_unset(),
    {
        CancellationToken { flag: Arc::new(AtomicBool::new(false)) }
    }

    /// Requests cancellation, on all clones.
    pub fn cancel(&self)
        ensures
            self.was_stored(true),
    {
        self.flag.store(true, Ordering::Relaxed);
    }

    /// Takes the request back, so that the token can be used for another run.
    pub fn reset(&self)
        ensures
            self.was_stored(false),
    {
        self.flag.store(false, Ordering::Relaxed);
    }

    /// Whether cancellation was requested.
    pub fn is_cancelled(&self) -> (r: bool)
        ensures
            self.was_read(r),
    {
        self.flag.load(Ordering::Relaxed)
    }
}

/// All clones share one flag: what is stored through one of them, as a request or its
/// withdrawal, is stored in the flag that the other reads.
pub proof fn law_clones_share_one_flag(a: CancellationToken, b: CancellationToken, set: bool)
    requires
        cloned(a, b),
    ensures
        a.was_stored(set) == b.was_stored(set),
        a.was_read(set) == b.was_read(set),
        a.starts_unset() == b.starts_unset(),
{
}

} // verus!
