//! The reporter's state.
use vstd::prelude::*;

verus! {

/// Logs each message it receives.
pub struct Reporter {
    pub recv: std::sync::mpsc::Receiver<String>,
}

} // verus!
