//! The handle by which a running scan is cancelled.
use std::sync::atomic::{AtomicBool, Ordering};
use std::sync::Arc;
use vstd::prelude::*;

verus! {

/// Control handle for a background scanner: clones share one cancellation
/// flag, which the scanner reads before each entry.
#[derive(Clone, Debug)]
pub struct ScannerHandle {
    cancel: Arc<AtomicBool>,
}

impl ScannerHandle {
    /// A handle over the given flag.
    pub fn new(cancel: Arc<AtomicBool>) -> (r: Self)
        ensures
            r.flag() == cancel,
    {
        ScannerHandle { cancel }
    }

    /// The shared flag.
    pub closed spec fn flag(&self) -> Arc<AtomicBool> {
        self.cancel
    }

    /// Raises the flag; every clone of the handle sees it.
    pub fn cancel(&self) {
        self.cancel.store(true, Ordering::SeqCst);
    }

    /// Whether the flag has been raised. Another thread may raise it at any
    /// moment, so nothing is known of the answer beforehand.
    pub fn is_cancelled(&self) -> bool {
        self.cancel.load(Ordering::SeqCst)
    }
}

} // verus!
