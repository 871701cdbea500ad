//! How long this panel took to appear, stamped as it appears.
//!
//! The stopwatch itself, and where it is held, are the program's around this.
//! What the panel says about where an opening came from, and whether one is
//! being timed, is here.

use vstd::prelude::*;

verus! {

/// Where an opening was asked from.
#[derive(Debug, Clone, Copy, PartialEq, Eq)]
pub struct Came<'a>(pub &'a str);

/// Whether an opening is being timed.
#[derive(Debug, Clone, Copy, PartialEq, Eq, Structural)]
pub enum Running {
    Yes,
    No,
}

/// Whether an opening is being timed, given whether a stopwatch is held.
pub fn running(held: bool) -> (r: Running)
    ensures
        r == (if held {
            Running::Yes
        } else {
            Running::No
        }),
{
    if held {
        Running::Yes
    } else {
        Running::No
    }
}

} // verus!
