//! How close a picture being looked at is.
//!
//! How far in and where, and what is drawn of it, is worked out in floating
//! point by the program around this. Whether a picture is zoomed at all is
//! said here.

use vstd::prelude::*;

verus! {

/// Whether the whole of a picture is on the screen.
#[derive(Debug, Clone, Copy, PartialEq, Eq, Structural)]
pub enum Zoomed {
    Whole,
    ZoomedIn,
}

} // verus!
