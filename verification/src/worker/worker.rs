//! The worker's state.
use vstd::prelude::*;

verus! {

/// Logs each message it receives.
pub struct Worker {
    pub recv: std::sync::mpsc::Receiver<String>,
}

} // verus!
