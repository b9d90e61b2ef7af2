//! Whether diagnostics are wanted.

use vstd::prelude::*;

verus! {

/// Decides whether diagnostics are printed. At first they are.
#[derive(Debug)]
pub struct Log {
    quiet: bool,
}

impl Log {
    /// Whether nothing but results is printed.
    pub closed spec fn is_quiet(&self) -> bool {
        self.quiet
    }

    /// A log that prints diagnostics.
    pub fn new() -> (r: Log)
        ensures
            !r.is_quiet(),
    {
        Log { quiet: false }
    }

    /// Whether diagnostics are printed.
    pub fn enabled(&self) -> (r: bool)
        ensures
            r == !self.is_quiet(),
    {
        !self.quiet
    }
}

/// Turns diagnostics off or on.
pub fn set_quiet(log: &mut Log, q: bool)
    ensures
        final(log).is_quiet() == q,
{
    log.quiet = q;
}

} // verus!
