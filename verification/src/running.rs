//! Programs a panel starts, and what it says to the person in front of it.
//!
//! Starting programs, and reaping them when they end, are the program's
//! around this; what a notification says, and what is started, is here.

use vstd::prelude::*;

verus! {

/// What a notification says: a line and the words under it.
#[derive(Debug, Clone, Copy, PartialEq, Eq)]
pub struct Notification<'a> {
    pub summary: &'a str,
    pub body: &'a str,
}

/// The program to start and the arguments to start it with: the first word
/// and the rest, when there is a first word.
pub fn split_program(arguments: &Vec<String>) -> (r: Option<(String, Vec<String>)>)
    ensures
        match r {
            Some((program, rest)) => arguments@.len() > 0 && program == arguments@[0]
                && rest@ == arguments@.drop_first(),
            None => arguments@.len() == 0,
        },
{
    if arguments.len() == 0 {
        return None;
    }
    let program = arguments[0].clone();
    let mut rest: Vec<String> = Vec::new();
    let mut i: usize = 1;
    while i < arguments.len()
        invariant
            1 <= i <= arguments.len(),
            rest@ == arguments@.subrange(1, i as int),
        decreases arguments.len() - i,
    {
        rest.push(arguments[i].clone());
        i += 1;
        assert(rest@ =~= arguments@.subrange(1, i as int));
    }
    assert(arguments@.subrange(1, i as int) =~= arguments@.drop_first());
    Some((program, rest))
}

} // verus!
