//! What each part of a panel a hand can land on is called, in what a panel
//! says it drew.

use vstd::prelude::*;

verus! {

/// A tab in the strip.
pub const TAB: &'static str = "tab";

/// The way out of the panel.
pub const SHUT: &'static str = "shut";

/// An arrow at either end of the strip.
pub const MORE: &'static str = "more";

/// One of the two marks of a row's level.
pub const STEP: &'static str = "step";

/// The mark for what else a row offers.
pub const ELSE: &'static str = "else";

/// A row, pressed.
pub const PRESS: &'static str = "press";

/// An answer to a question.
pub const ANSWER: &'static str = "answer";

/// A button in a strip of them.
pub const BUTTON: &'static str = "button";

/// A bar, pressed where it should go to.
pub const SEEK: &'static str = "seek";

} // verus!
