//! What the panel draws that is not a row, and what each part is called.
//!
//! The marks are written once and read by the drawing. `CANCEL` is the one
//! word here that a person reads: it names the answer that undoes the asking.

use vstd::prelude::*;

pub mod named;

verus! {

/// The mark that shuts a panel: a multiplication sign.
pub const SHUT: &'static str = "\u{d7}";

/// The mark before a row that goes back: a single left angle quote.
pub const BEFORE: &'static str = "\u{2039}";

/// The mark after a row that goes further in: a single right angle quote.
pub const AFTER: &'static str = "\u{203a}";

/// The mark on a row that opens something further in.
pub const INTO: &'static str = "\u{203a}";

/// The mark that takes a level down: a minus sign.
pub const LESS: &'static str = "\u{2212}";

/// The mark that takes a level up.
pub const MORE: &'static str = "+";

/// The mark for what else a row offers: an ellipsis.
pub const ELSE: &'static str = "\u{2026}";

/// What a letter of a password is drawn as: a black circle.
pub const HIDDEN: &'static str = "\u{25cf}";

/// The answer that undoes the asking.
pub const CANCEL: &'static str = "Cancel";

} // verus!
