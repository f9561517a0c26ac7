//! The reports of the two initialisers of a tasks directory (the directory
//! and template work is the caller's).
use vstd::prelude::*;

verus! {

/// The report of a strict initialisation (fails if the directory exists).
pub struct InitResult {
    pub tasks_dir: String,
    /// Paths created (directory and template file).
    pub created: Vec<String>,
    pub error: Option<String>,
}

impl InitResult {
    /// No error occurred.
    pub fn ok(&self) -> (r: bool)
        ensures
            r == self.error is None,
    {
        self.error.is_none()
    }
}

/// The report of an idempotent initialisation.
pub struct EnsureResult {
    pub tasks_dir: String,
    /// Paths created on this call (empty if everything was already in place).
    pub created: Vec<String>,
    pub error: Option<String>,
}

impl EnsureResult {
    /// No error occurred.
    pub fn ok(&self) -> (r: bool)
        ensures
            r == self.error is None,
    {
        self.error.is_none()
    }
}

} // verus!
