//! What a key means here, and what a finger dragged across a row means.
//!
//! The panel is driven by the pad, and the pad arrives as keys: the d-pad as
//! arrows, A as Enter, B as Escape, the shoulders as the page keys and Y as a
//! launch key. So this is the whole of what the front of the machine does to
//! a panel. A key is a keysym, the one the compositor hands a surface.

use vstd::prelude::*;

verus! {

/// The keysyms a panel reads; every other key is `Other`, with its number.
#[allow(non_camel_case_types)]
#[derive(Debug, Clone, Copy, PartialEq, Eq, Structural)]
pub enum Keysym {
    Escape,
    BackSpace,
    KP_Enter,
    Return,
    space,
    Left,
    Right,
    Up,
    Down,
    Page_Up,
    Page_Down,
    F1,
    F18,
    XF86_Launch9,
    a,
    Other(u32),
}

/// What a key asks the panel to do.
#[derive(Debug, Clone, Copy, PartialEq, Eq, Structural)]
pub enum Meaning {
    Abandon,
    Choose,
    More,
    Nothing,
    Nudge(i32),
    Close,
    Step(i32),
    Tab(i32),
}

/// What the keys are driving just now.
#[derive(Debug, Clone, Copy, PartialEq, Eq, Structural)]
pub enum Driving {
    Panel,
    Question,
    Sure,
    Search,
}

/// Which way a finger swept across a row, if it swept at all.
#[derive(Debug, Clone, Copy, PartialEq, Eq, Structural)]
pub enum Sweep {
    Back,
    On,
    Nothing,
}

impl Sweep {
    /// The step a sweep takes a row's level: back is one down, on is one up.
    pub fn step(self) -> (r: Option<i32>)
        ensures
            r == (match self {
                Sweep::Back => Some(-1i32),
                Sweep::On => Some(1i32),
                Sweep::Nothing => None::<i32>,
            }),
    {
        match self {
            Sweep::Back => Some(-1i32),
            Sweep::On => Some(1),
            Sweep::Nothing => None,
        }
    }
}

/// Whether a key is Y, under either of the names it arrives under.
pub open spec fn is_more(key: Keysym) -> bool {
    key == Keysym::F18 || key == Keysym::XF86_Launch9
}

/// What a key means on a panel being driven as a list.
pub open spec fn driven_meaning(key: Keysym) -> Meaning {
    match key {
        Keysym::BackSpace | Keysym::Escape => Meaning::Close,
        Keysym::KP_Enter | Keysym::Return | Keysym::space => Meaning::Choose,
        Keysym::Down => Meaning::Step(1i32),
        Keysym::Up => Meaning::Step(-1i32),
        Keysym::Left => Meaning::Nudge(-1i32),
        Keysym::Right => Meaning::Nudge(1i32),
        Keysym::Page_Down => Meaning::Tab(1i32),
        Keysym::Page_Up => Meaning::Tab(-1i32),
        _ => if is_more(key) {
            Meaning::More
        } else {
            Meaning::Nothing
        },
    }
}

/// What a key means on a list with a line to type into: the letters are the
/// line's, and only the keys that move through the list are the panel's.
pub open spec fn sought_meaning(key: Keysym) -> Meaning {
    match key {
        Keysym::Escape => Meaning::Close,
        Keysym::KP_Enter | Keysym::Return => Meaning::Choose,
        Keysym::Down => Meaning::Step(1i32),
        Keysym::Up => Meaning::Step(-1i32),
        Keysym::Page_Down => Meaning::Tab(1i32),
        Keysym::Page_Up => Meaning::Tab(-1i32),
        _ => if is_more(key) {
            Meaning::More
        } else {
            Meaning::Nothing
        },
    }
}

/// What a key means while a yes-or-no question is up.
pub open spec fn sure_meaning(key: Keysym) -> Meaning {
    match key {
        Keysym::BackSpace | Keysym::Escape => Meaning::Abandon,
        Keysym::KP_Enter | Keysym::Return | Keysym::space => Meaning::Choose,
        Keysym::Left => Meaning::Nudge(-1i32),
        Keysym::Right => Meaning::Nudge(1i32),
        _ => Meaning::Nothing,
    }
}

/// What a key means, given what the keys are driving.
pub open spec fn meaning_of(key: Keysym, driving: Driving) -> Meaning {
    match driving {
        Driving::Panel => driven_meaning(key),
        Driving::Question => if key == Keysym::Escape {
            Meaning::Abandon
        } else {
            Meaning::Nothing
        },
        Driving::Search => sought_meaning(key),
        Driving::Sure => sure_meaning(key),
    }
}

/// Whether a key is Y.
fn more(key: Keysym) -> (r: bool)
    ensures
        r == is_more(key),
{
    key == Keysym::F18 || key == Keysym::XF86_Launch9
}

/// What a key means.
pub fn meaning(key: Keysym, driving: Driving) -> (m: Meaning)
    ensures
        m == meaning_of(key, driving),
{
    match driving {
        Driving::Panel => driven(key),
        Driving::Question => match key {
            Keysym::Escape => Meaning::Abandon,
            _ => Meaning::Nothing,
        },
        Driving::Search => sought(key),
        Driving::Sure => match key {
            Keysym::BackSpace | Keysym::Escape => Meaning::Abandon,
            Keysym::KP_Enter | Keysym::Return | Keysym::space => Meaning::Choose,
            Keysym::Left => Meaning::Nudge(-1i32),
            Keysym::Right => Meaning::Nudge(1i32),
            _ => Meaning::Nothing,
        },
    }
}

/// What a key means on a list with a line to type into.
fn sought(key: Keysym) -> (m: Meaning)
    ensures
        m == sought_meaning(key),
{
    match key {
        Keysym::Escape => Meaning::Close,
        Keysym::KP_Enter | Keysym::Return => Meaning::Choose,
        Keysym::Down => Meaning::Step(1i32),
        Keysym::Up => Meaning::Step(-1i32),
        Keysym::Page_Down => Meaning::Tab(1i32),
        Keysym::Page_Up => Meaning::Tab(-1i32),
        _ => if more(key) {
            Meaning::More
        } else {
            Meaning::Nothing
        },
    }
}

/// What a key means on a panel being driven as a list.
fn driven(key: Keysym) -> (m: Meaning)
    ensures
        m == driven_meaning(key),
{
    match key {
        Keysym::BackSpace | Keysym::Escape => Meaning::Close,
        Keysym::KP_Enter | Keysym::Return | Keysym::space => Meaning::Choose,
        Keysym::Down => Meaning::Step(1i32),
        Keysym::Up => Meaning::Step(-1i32),
        Keysym::Left => Meaning::Nudge(-1i32),
        Keysym::Right => Meaning::Nudge(1i32),
        Keysym::Page_Down => Meaning::Tab(1i32),
        Keysym::Page_Up => Meaning::Tab(-1i32),
        _ => if more(key) {
            Meaning::More
        } else {
            Meaning::Nothing
        },
    }
}

/// The shoulders turn the tabs opposite ways wherever the keys drive a list:
/// the left one back a tab, the right one on a tab.
pub proof fn lemma_the_shoulders_turn_the_tabs_opposite_ways(driving: Driving)
    requires
        driving == Driving::Panel || driving == Driving::Search,
    ensures
        meaning_of(Keysym::Page_Up, driving) == Meaning::Tab(-1i32),
        meaning_of(Keysym::Page_Down, driving) == Meaning::Tab(1i32),
{
}

/// The d-pad's up and down walk the list opposite ways, a row at a time, and
/// Y asks what else a row offers, wherever the keys drive a list; left and
/// right move a row's level opposite ways on a panel.
pub proof fn lemma_the_d_pad_walks_the_list_opposite_ways(driving: Driving)
    requires
        driving == Driving::Panel || driving == Driving::Search,
    ensures
        meaning_of(Keysym::Up, driving) == Meaning::Step(-1i32),
        meaning_of(Keysym::Down, driving) == Meaning::Step(1i32),
        meaning_of(Keysym::F18, driving) == Meaning::More,
        meaning_of(Keysym::XF86_Launch9, driving) == Meaning::More,
        driving == Driving::Panel ==> meaning_of(Keysym::Left, driving) == Meaning::Nudge(-1i32),
        driving == Driving::Panel ==> meaning_of(Keysym::Right, driving) == Meaning::Nudge(1i32),
{
}

/// While something is being typed, back is the only key the panel hears.
pub proof fn lemma_only_back_reaches_a_question(key: Keysym)
    ensures
        meaning_of(key, Driving::Question) != Meaning::Nothing ==> key == Keysym::Escape,
{
}

/// A question of two answers hears nothing from the shoulders, the d-pad's
/// up and down, or Y.
pub proof fn lemma_a_question_of_two_answers_is_answered_left_and_right(key: Keysym)
    ensures
        meaning_of(key, Driving::Sure) matches Meaning::Step(_) ==> false,
        meaning_of(key, Driving::Sure) matches Meaning::Tab(_) ==> false,
        meaning_of(key, Driving::Sure) != Meaning::More,
{
}

} // verus!
