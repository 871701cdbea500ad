//! One chooser at a time, and the door that opened it closes it.
//!
//! The older lock of the two: one file per screen under the session's runtime
//! directory, named for the chooser, holding the pid of the chooser up and the
//! door it came out of. A second chooser asks the one up to go and takes its
//! place; asked for through the same door, the one up goes and nothing
//! replaces it; and a door that only opens, asked again, is turned away.

use vstd::prelude::*;

use crate::picker::{holder_of, lock_at, maybe, Outcome, Turn};
use crate::text::trim;

verus! {

/// Whether the lock was taken.
#[derive(Debug, Clone, Copy, PartialEq, Eq, Structural)]
pub enum Took {
    It,
    Not,
}

/// Whether a second press of the door a panel came out of puts it away.
#[derive(Debug, Clone, Copy, PartialEq, Eq, Structural)]
pub enum Again {
    Closes,
    Keeps,
}

/// Whether a chooser that was up was told to go.
#[derive(Debug, Clone, Copy, PartialEq, Eq, Structural)]
pub enum Away {
    Told,
    Nothing,
}

/// Whether this chooser is the one on the screen.
#[derive(Debug, Clone, Copy, PartialEq, Eq, Structural)]
pub enum Alone {
    Yes,
    No,
}

/// What became of waiting for a chooser that had not said its door yet.
#[derive(Debug, Clone, Copy, PartialEq, Eq, Structural)]
pub enum Meanwhile {
    Drawn,
    Free,
    Stuck,
}

/// The stem of a chooser's lock.
pub open spec fn chooser_stem() -> Seq<char> {
    "chooser"@
}

/// Where the choosers' lock lives, given what the session says its runtime
/// directory and its screen are.
pub fn under(runtime: Option<&str>, screen: Option<&str>) -> (r: String)
    ensures
        r@ == lock_at(maybe(runtime), maybe(screen), chooser_stem()),
{
    crate::picker::under(runtime, screen, "chooser")
}

/// Who holds the lock and which door they came out of.
pub fn holder(said: &str) -> (r: (i32, String))
    ensures
        r.0 == holder_of(said@).0,
        r.1@ == holder_of(said@).1,
{
    crate::picker::holder(said)
}

/// The name of a door, as it is written in the lock.
pub fn door(name: &str) -> (r: String)
    ensures
        r@ == trim(name@),
{
    crate::picker::door(name)
}

/// What is done about a lock held by `pid`, whose file names the door
/// `holding`, when this chooser, pid `ours`, came out of the door `name`.
pub open spec fn held_turn(
    pid: i32,
    ours: i32,
    holding: Seq<char>,
    name: Seq<char>,
    again: Again,
) -> Turn {
    if pid == 0 || pid == ours {
        Turn::Answer(crate::picker::Alone::No)
    } else if holding == name && again == Again::Keeps {
        Turn::Answer(crate::picker::Alone::No)
    } else if holding.len() == 0 {
        Turn::WaitMeanwhile
    } else {
        Turn::Free(pid)
    }
}

/// What is done about the lock `said` says is held by somebody else.
pub fn held_by(said: &str, ours: i32, name: &str, again: Again) -> (t: Turn)
    ensures
        t == held_turn(holder_of(said@).0, ours, holder_of(said@).1, name@, again),
{
    let (pid, holding) = crate::picker::holder(said);
    let held = crate::text::letters(holding.as_str());
    let same = crate::text::same(&held, &crate::text::letters(name));
    if pid == 0 || pid == ours {
        Turn::Answer(crate::picker::Alone::No)
    } else if same && again == Again::Keeps {
        Turn::Answer(crate::picker::Alone::No)
    } else if held.len() == 0 {
        Turn::WaitMeanwhile
    } else {
        Turn::Free(pid)
    }
}

/// What is done once the holder that had not said its door has been waited
/// for: turned away when it drew, kept when it went, asked to go otherwise.
pub fn after_meanwhile(m: Meanwhile, pid: i32) -> (t: Turn)
    ensures
        t == (match m {
            Meanwhile::Drawn => Turn::Answer(crate::picker::Alone::No),
            Meanwhile::Free => Turn::Keep,
            Meanwhile::Stuck => Turn::Free(pid),
        }),
{
    match m {
        Meanwhile::Drawn => Turn::Answer(crate::picker::Alone::No),
        Meanwhile::Free => Turn::Keep,
        Meanwhile::Stuck => Turn::Free(pid),
    }
}

/// Whether this chooser is shown once the one asked to go has gone or has
/// not: not when it stayed, and not when it was this door's own.
pub fn after_freeing(o: Outcome, same_door: bool) -> (a: Alone)
    ensures
        a == (if o == Outcome::RanOut || same_door {
            Alone::No
        } else {
            Alone::Yes
        }),
{
    match o {
        Outcome::RanOut => Alone::No,
        Outcome::Happened => if same_door {
            Alone::No
        } else {
            Alone::Yes
        },
    }
}

/// A door that only opens, asked for again while its panel is up, is turned
/// away.
pub proof fn lemma_a_door_that_only_opens_is_not_asked_twice(pid: i32, ours: i32, name: Seq<char>)
    ensures
        held_turn(pid, ours, name, name, Again::Keeps) == Turn::Answer(crate::picker::Alone::No),
{
}

/// Whether a chooser being put away is told to go, and which pid: the one
/// the lock names, when somebody holds the lock and it names one.
pub fn to_tell(took: Took, said: &str) -> (r: Option<i32>)
    ensures
        r == (if took == Took::It || holder_of(said@).0 <= 0 {
            None::<i32>
        } else {
            Some(holder_of(said@).0)
        }),
{
    if took == Took::It {
        return None;
    }
    let (pid, _door) = crate::picker::holder(said);
    if pid <= 0 {
        None
    } else {
        Some(pid)
    }
}

} // verus!
