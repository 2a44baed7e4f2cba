//! The flag by which a running search is told to stop.

use vstd::prelude::*;
use core::sync::atomic::{AtomicBool, Ordering};

verus! {

/// Whether the flag is raised at this moment.
pub fn is_cancelled(cancel: &AtomicBool) -> bool {
    cancel.load(Ordering::Relaxed)
}

} // verus!
