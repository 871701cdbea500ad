//! Where a panel keeps what it remembers about itself between openings.
//!
//! Under the state directory rather than the cache, because these are things
//! the desktop remembers about itself rather than things it can work out
//! again. One file each, named for the panel and for the note. Reading and
//! writing the file is the program's around this.

use vstd::prelude::*;

use crate::picker::joined;

verus! {

/// A note: the program it is about and what it is called.
#[derive(Debug, Clone, Copy, PartialEq, Eq)]
pub struct Note<'a> {
    pub program: &'a str,
    pub called: &'a str,
}

/// The directory of ours under the state directory.
pub open spec fn ours() -> Seq<char> {
    "console"@
}

/// Where the note lives under the state directory `state`:
/// `STATE/console/panel/PROGRAM.CALLED`.
pub open spec fn note_at(state: Seq<char>, program: Seq<char>, called: Seq<char>) -> Seq<char> {
    joined(joined(joined(state, ours()), "panel"@), program + "."@ + called)
}

/// Where a note lives, when there is a state directory to keep it under.
pub fn under(state: Option<&str>, note: Note<'_>) -> (r: Option<String>)
    ensures
        match state {
            Some(s) => r matches Some(p) && p@ == note_at(s@, note.program@, note.called@),
            None => r is None,
        },
{
    match state {
        Some(s) => {
            let a = crate::picker::join_path(&crate::text::letters(s), &crate::text::letters("console"));
            let b = crate::picker::join_path(&a, &crate::text::letters("panel"));
            let mut name = crate::text::letters(note.program);
            crate::text::extend(&mut name, &crate::text::letters("."));
            crate::text::extend(&mut name, &crate::text::letters(note.called));
            Some(crate::text::text(&crate::picker::join_path(&b, &name)))
        },
        None => None,
    }
}

} // verus!
