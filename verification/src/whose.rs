//! Which panel this is, said rather than worked out.
//!
//! The program's own name was which panel a process was, for as long as a
//! panel was a process. One process drawing several panels in turn has no
//! such name, so the name is said at the top of an opening and read wherever
//! it is wanted. Where it is held between the two is the program's around
//! this; what is held, and what is read, is here.

use vstd::prelude::*;

use crate::text;

verus! {

/// What the program is called when it cannot say.
pub const NOBODY: &'static str = "console-panel";

/// What is held once `who` is said: nothing, when it says nothing.
pub fn named(who: &str) -> (r: Option<String>)
    ensures
        match r {
            Some(s) => named_of(who@) == Some(s@),
            None => named_of(who@) is None,
        },
{
    let w = text::letters(who);
    if w.len() == 0 {
        None
    } else {
        Some(text::text(&w))
    }
}

/// The name read: what was said, or else the program's own name.
pub fn name(held: Option<String>, program: String) -> (r: String)
    ensures
        r == (match held {
            Some(s) => s,
            None => program,
        }),
        r@ == name_of(
            match held {
                Some(s) => Some(s@),
                None => None,
            },
            program@,
        ),
{
    match held {
        Some(s) => s,
        None => program,
    }
}

/// The program's own name: the last part of how it was started, or
/// `console-panel` when that says nothing.
pub fn program_name(file_name: Option<&str>) -> (r: String)
    ensures
        match file_name {
            Some(f) => f@.len() > 0 ==> r@ == f@,
            None => true,
        },
        (match file_name {
            Some(f) => f@.len() == 0,
            None => true,
        }) ==> r@ == NOBODY@,
{
    match file_name {
        Some(f) => {
            let w = text::letters(f);
            if w.len() > 0 {
                return text::text(&w);
            }
        },
        None => {},
    }
    text::text(&text::letters(NOBODY))
}

/// What is held once the name is taken back at the end of an opening:
/// nothing.
pub fn nobody() -> (r: Option<String>)
    ensures
        r is None,
{
    None
}

/// What is held once `who` is said.
pub open spec fn named_of(who: Seq<char>) -> Option<Seq<char>> {
    if who.len() == 0 {
        None
    } else {
        Some(who)
    }
}

/// The name read from what is held, with `program` the program's own name.
pub open spec fn name_of(held: Option<Seq<char>>, program: Seq<char>) -> Seq<char> {
    match held {
        Some(s) => s,
        None => program,
    }
}

/// What was said is what is read, and a name that says nothing is not a
/// name: after saying `who`, the name read is `who` when it says something
/// and the program's own name otherwise.
pub proof fn lemma_what_was_said_is_what_is_read(who: Seq<char>, program: Seq<char>)
    ensures
        who.len() > 0 ==> name_of(named_of(who), program) == who,
        who.len() == 0 ==> name_of(named_of(who), program) == program,
{
}

/// One opening does not leave its name behind: once the name is taken back,
/// the name read is the program's own.
pub proof fn lemma_one_opening_does_not_leave_its_name_behind(program: Seq<char>)
    ensures
        name_of(None, program) == program,
{
}

} // verus!
