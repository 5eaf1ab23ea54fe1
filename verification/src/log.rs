//! A logger that is either on or off.

use vstd::prelude::*;

verus! {

/// Whether log records are printed.
#[derive(Debug, Clone, Copy, Default)]
pub struct Logger {
    pub enabled: bool,
}

impl Logger {
    /// A logger that prints.
    pub fn new() -> (r: Logger)
        ensures
            r.enabled,
    {
        Logger { enabled: true }
    }
}

} // verus!
