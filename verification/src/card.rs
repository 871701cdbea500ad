//! What a panel crate hands over, so that something else can draw it.
//!
//! What a panel is, is a door it comes out of and a card to draw. A door is a
//! name and a rule about opening it twice, worked out from the arguments and
//! nothing else; the card reads the machine, and belongs where the drawing
//! happens.

use vstd::prelude::*;

use crate::chooser::Again;

verus! {

/// The door a panel comes out of: its name, and whether asking for it again
/// puts it away.
#[derive(Debug, Clone, PartialEq, Eq)]
pub struct Door {
    pub name: String,
    pub again: Again,
}

impl Door {
    /// A door called `name` that does `again` when asked for a second time.
    pub fn new(name: &str, again: Again) -> (d: Door)
        ensures
            d.name@ == name@,
            d.again == again,
    {
        Door { name: text_of(name), again }
    }

    /// A door called `name` that puts its panel away when asked for again.
    pub fn closing(name: &str) -> (d: Door)
        ensures
            d.name@ == name@,
            d.again == Again::Closes,
    {
        Door::new(name, Again::Closes)
    }
}

/// What a panel hands over to be drawn: `build` reads its rows, `column` is
/// where on the strip it stands, `start` is the tab it opens on when one is
/// named, and `done` is what is run once it is put away (nothing, until
/// something is given).
pub struct Card<B, D> {
    pub build: B,
    pub column: i32,
    pub start: Option<String>,
    pub done: D,
}

impl<B> Card<B, ()> {
    /// A card that builds its rows with `build`, under the first column,
    /// opening where it was left, with nothing to do once put away.
    pub fn new(build: B) -> (c: Card<B, ()>)
        ensures
            c.build == build,
            c.column == 0,
            c.start is None,
    {
        Card { build, column: 0, start: None, done: () }
    }
}

impl<B, D> Card<B, D> {
    /// The same card, under `column`.
    pub fn under(self, column: i32) -> (c: Card<B, D>)
        ensures
            c.build == self.build,
            c.column == column,
            c.start == self.start,
            c.done == self.done,
    {
        Card { build: self.build, column, start: self.start, done: self.done }
    }

    /// The same card, opening on the tab called `tab` when one is named and
    /// where it was left when none is.
    pub fn opening_at(self, tab: Option<&str>) -> (c: Card<B, D>)
        ensures
            c.build == self.build,
            c.column == self.column,
            c.done == self.done,
            match tab {
                Some(t) => c.start is Some && c.start.unwrap()@ == t@,
                None => c.start is None,
            },
    {
        let start = match tab {
            Some(t) => Some(text_of(t)),
            None => None,
        };
        Card { build: self.build, column: self.column, start, done: self.done }
    }

    /// The same card, running `done` once it is put away.
    pub fn shutting<E>(self, done: E) -> (c: Card<B, E>)
        ensures
            c.build == self.build,
            c.column == self.column,
            c.start == self.start,
            c.done == done,
    {
        Card { build: self.build, column: self.column, start: self.start, done }
    }
}

/// The string holding the characters of `s`.
fn text_of(s: &str) -> (r: String)
    ensures
        r@ == s@,
{
    crate::text::text(&crate::text::letters(s))
}

} // verus!
