//! Cooperative cancellation. Each search takes an explicit token; a caller
//! holding the same token can request cancellation from another task. The
//! only shared mutable state is one atomic flag.

use vstd::prelude::*;
use core::sync::atomic::{AtomicBool, Ordering};

verus! {

/// A cancellation token: one atomic flag, checked once per scan iteration.
pub struct CancelToken {
    flag: AtomicBool,
}

impl CancelToken {
    /// A fresh token, not cancelled.
    pub fn new() -> CancelToken {
        CancelToken { flag: AtomicBool::new(false) }
    }

    /// Requests cancellation. Idempotent; always succeeds.
    pub fn cancel(&self) {
        self.flag.store(true, Ordering::SeqCst);
    }

    /// Clears the flag; done at the start of every search invocation.
    pub fn reset(&self) {
        self.flag.store(false, Ordering::SeqCst);
    }

    /// Reads the flag. Another task may flip it at any moment, so nothing
    /// can be promised of the value; the scan reacts to whatever it reads.
    pub fn is_cancelled(&self) -> bool {
        self.flag.load(Ordering::SeqCst)
    }
}

/// Requests cancellation of the search driven by this token.
pub fn cancel_search(token: &CancelToken) {
    token.cancel();
}

} // verus!
