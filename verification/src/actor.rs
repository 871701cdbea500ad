//! State with one owner, reached by sending it a message.
//!
//! State goes in, a message happens, state comes out. The mailbox, the thread
//! that owns the state and the supervisor that starts it over are the
//! program's around this; what a machine is, and what a message to one that
//! has gone comes back as, is here.

use vstd::prelude::*;

verus! {

/// What a message to a state whose owner has gone comes back as.
#[derive(Debug, Clone, Copy, PartialEq, Eq)]
pub struct Gone;

/// State with one owner: a message goes in and the next state comes out.
pub trait Machine: Sized {
    /// What the state is told.
    type Msg;

    /// The state after `message`.
    fn step(self, message: Self::Msg) -> Self;
}

/// Whether a message reached the state, given whether its mailbox took it.
pub fn told(delivered: bool) -> (r: Result<(), Gone>)
    ensures
        r is Ok <==> delivered,
{
    if delivered {
        Ok(())
    } else {
        Err(Gone)
    }
}

} // verus!
