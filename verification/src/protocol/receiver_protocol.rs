//! Messages the agent receives: a key to store, and a new version to install.
use vstd::prelude::*;

verus! {

/// Stores `value` under `key` in the local database.
#[derive(Debug, Default)]
pub struct UpdateKey {
    pub key: String,
    pub value: String,
}

/// A new version of the agent: where to fetch it and its digest.
#[derive(Debug, Default)]
pub struct UpdateVersion {
    pub version: String,
    pub md5: String,
    pub url: String,
}

} // verus!
