//! What a panel is asked to draw.
//!
//! A page is what the tab says and the rows under it. A row is what it says,
//! what is written beside it, what it does, and, where there is one, what left
//! and right do to it. A row that does nothing is read rather than chosen,
//! which is what a guide is made of.
//!
//! What a row does is the program's around this, and here a row only says
//! whether it does something, holds a level, offers more or can be sought
//! along: that is all that what is worked out here reads of it.
//!
//! ## The letter a row stands under
//!
//! `lettered` puts a heading over every run of rows beginning with the same
//! letter, the way a shelf of anything long enough to scroll is arranged. A
//! heading the caller wrote already is left alone and starts the letters
//! again, so a list that is sections of its own can still have letters inside
//! them. `standing` is the same answer as a number, for a caller sorting
//! before it draws: digits first, then letters, then everything that begins
//! with neither.

use vstd::prelude::*;

use crate::icons::Icon;
use crate::text::{self, is_letter, is_numeral, upper};

verus! {

/// The page a panel opens on when nothing else is asked for.
pub const THE_FIRST_PAGE: u32 = 0;

/// What is written beside the row that is the one in effect.
pub const NOW: &'static str = "now";

/// What is written where something is still coming.
pub const YET: &'static str = "\u{2026}";

/// The heading over everything that begins with a digit.
pub const NUMBERS: &'static str = "0-9";

/// The heading over everything that begins with neither a letter nor a
/// digit.
pub const REST: &'static str = "Other";

/// The answer that marks a row as selected.
pub const SELECT: &'static str = "Select";

/// The answer that deletes.
pub const DELETE: &'static str = "Delete";

/// The question asked before deleting what is selected.
pub const DELETE_SELECTED: &'static str = "Delete these?";

/// The answer that shows a file where it is.
pub const SHOW_IN_FILES: &'static str = "Show in Files";

/// Somewhere that shows nothing: whatever it is asked to do, nothing is done.
#[derive(Debug, Clone, Copy, PartialEq, Eq, Structural)]
pub struct Nowhere;

/// How far along something is: `at` of `of`.
#[derive(Clone, Copy, Debug, Eq, PartialEq, Structural)]
pub struct Bar {
    pub at: u64,
    pub of: u64,
}

impl Default for Bar {
    fn default() -> (r: Bar)
        ensures
            r == (Bar { at: 0, of: 0 }),
    {
        Bar { at: 0, of: 0 }
    }
}

/// How much of `wide` a bar fills: the share `at` is of `of`, rounded down,
/// with `at` held at `of`, and nothing of a bar that is along nothing.
pub open spec fn filled_of(bar: Bar, wide: u32) -> int {
    if bar.of == 0 {
        0
    } else {
        (wide as int) * (if bar.at <= bar.of {
            bar.at as int
        } else {
            bar.of as int
        }) / (bar.of as int)
    }
}

impl Bar {
    /// How much of `wide` this bar fills.
    pub fn filled(self, wide: u32) -> (r: u32)
        ensures
            r == filled_of(self, wide),
            r <= wide,
    {
        if self.of == 0 {
            return 0;
        }
        let at: u64 = if self.at <= self.of {
            self.at
        } else {
            self.of
        };
        assert((wide as int) * (at as int) <= 0xffff_ffff * 0xffff_ffff_ffff_ffff) by (nonlinear_arith)
            requires
                wide <= 0xffff_ffff,
                at <= 0xffff_ffff_ffff_ffff,
        ;
        let whole: u128 = (wide as u128) * (at as u128);
        let share: u128 = whole / (self.of as u128);
        proof {
            assert((wide as int) * (at as int) <= (wide as int) * (self.of as int)) by (nonlinear_arith)
                requires
                    at <= self.of,
            ;
            assert(share <= wide) by (nonlinear_arith)
                requires
                    share == (wide as int) * (at as int) / (self.of as int),
                    (wide as int) * (at as int) <= (wide as int) * (self.of as int),
                    self.of > 0,
            ;
        }
        share as u32
    }
}

/// A bar fills nothing less than none of its width and nothing more than
/// all of it.
pub proof fn lemma_filled_within(bar: Bar, wide: u32)
    ensures
        0 <= filled_of(bar, wide) <= wide,
{
    if bar.of > 0 {
        let at: int = if bar.at <= bar.of {
            bar.at as int
        } else {
            bar.of as int
        };
        assert((wide as int) * at <= (wide as int) * (bar.of as int)) by (nonlinear_arith)
            requires
                0 <= at <= bar.of,
        ;
        assert(0 <= (wide as int) * at / (bar.of as int) <= wide) by (nonlinear_arith)
            requires
                (wide as int) * at <= (wide as int) * (bar.of as int),
                0 <= at,
                bar.of > 0,
        ;
    }
}

/// Where a bar is drawn across: from `from`, `width` wide.
#[derive(Clone, Copy, Debug, Eq, PartialEq, Structural)]
pub struct Track {
    pub from: i32,
    pub width: u32,
}

/// A picture a row carries.
#[derive(Debug, Eq, PartialEq)]
pub enum Picture {
    /// No picture.
    Blank,
    /// Room for a picture, with nothing in it.
    Space,
    /// An icon by its name.
    Named(Icon),
    /// The picture in a file.
    At(String),
    /// The sleeve of something, if it has one.
    Sleeve(Option<String>),
    /// A picture being looked at.
    Showing(Option<String>),
    /// A film being played.
    Playing(Option<String>),
    /// Words written where a picture would be.
    Written(String),
    /// How far along something is.
    Bar(Bar),
}

impl Default for Picture {
    fn default() -> (r: Picture)
        ensures
            r == Picture::Blank,
    {
        Picture::Blank
    }
}

/// Which side of the card a headline's number stands on.
#[derive(Clone, Copy, Debug, PartialEq, Eq, Structural)]
pub enum Alignment {
    Leading,
    Trailing,
}

impl Default for Alignment {
    fn default() -> (r: Alignment)
        ensures
            r == Alignment::Leading,
    {
        Alignment::Leading
    }
}

/// The head of a card about one thing: a title, what it is, an icon, and a
/// number written large.
#[derive(Debug, PartialEq, Eq)]
pub struct Headline {
    pub title: String,
    pub subtitle: String,
    pub icon: Option<Icon>,
    pub says: String,
    pub big: String,
    pub aside: String,
    pub alignment: Alignment,
}

impl Default for Headline {
    fn default() -> (r: Headline)
        ensures
            r.title@.len() == 0,
            r.subtitle@.len() == 0,
            r.icon is None,
            r.says@.len() == 0,
            r.big@.len() == 0,
            r.aside@.len() == 0,
            r.alignment == Alignment::Leading,
    {
        Headline {
            title: String::new(),
            subtitle: String::new(),
            icon: None,
            says: String::new(),
            big: String::new(),
            aside: String::new(),
            alignment: Alignment::Leading,
        }
    }
}

/// How a button is filled in.
#[derive(Debug, Clone, Copy, PartialEq, Eq, Structural)]
pub enum ButtonStyle {
    Gray,
    Tinted,
    Filled,
}

/// Where a button stands along its strip.
#[derive(Debug, Clone, Copy, PartialEq, Eq, Structural)]
pub enum Placed {
    Among,
    Corner,
}

/// Whether something is the one in effect.
#[derive(Debug, Clone, Copy, PartialEq, Eq, Structural)]
pub enum Active {
    Yes,
    No,
}

/// Whether a row acts when it is chosen.
#[derive(Debug, Clone, Copy, PartialEq, Eq, Structural)]
pub enum Action {
    Yes,
    Nothing,
}

/// What a button shows: an icon, words, or a swatch of a colour, the colour
/// by a number that stands for it.
#[derive(Debug, PartialEq, Eq)]
pub enum Face {
    Glyph(Icon),
    Written(String),
    Swatch(u64),
}

/// One button of a strip, as the card reads it: what it shows, whether it
/// is on, whether it is the chief one, where it stands and how it is filled
/// in.
#[derive(Debug, PartialEq, Eq)]
pub struct Press {
    pub face: Face,
    pub now: Active,
    pub chief: bool,
    pub placed: Placed,
    pub style: ButtonStyle,
}

/// A strip of buttons across a row, and the one stood on.
#[derive(Debug, PartialEq, Eq)]
pub struct Across {
    pub presses: Vec<Press>,
    pub at: u32,
}

/// One cell of a row of cells: what it says, whether it is the one in
/// effect, and the icon drawn before its words.
#[derive(Debug, PartialEq, Eq)]
pub struct Cell {
    pub says: String,
    pub now: bool,
    pub icon: Option<Icon>,
}

impl Cell {
    /// A cell saying `says`, the one in effect when `now` says so.
    pub fn new(says: &str, now: Active) -> (c: Cell)
        ensures
            c.says@ == says@,
            c.now == (now == Active::Yes),
            c.icon is None,
    {
        Cell { says: text::text(&text::letters(says)), now: now == Active::Yes, icon: None }
    }

    /// The same cell with `icon` drawn before its words.
    pub fn with_icon(self, icon: Icon) -> (c: Cell)
        ensures
            c.says == self.says,
            c.now == self.now,
            c.icon == Some(icon),
    {
        Cell { icon: Some(icon), ..self }
    }
}

/// What is written beside a row.
#[derive(Debug, Clone, Copy, PartialEq, Eq)]
pub struct Aside<'a>(pub &'a str);

/// What a question is about.
#[derive(Debug, Clone, Copy, PartialEq, Eq)]
pub struct Subject<'a>(pub &'a str);

/// What is written at the two ends of a level.
#[derive(Debug, Clone, Copy, PartialEq, Eq)]
pub struct Ends<'a> {
    pub less: &'a str,
    pub more: &'a str,
}

/// Whether a row is a heading over the rows after it rather than a row of
/// its own.
#[derive(Debug, Clone, Copy, PartialEq, Eq, Structural)]
pub enum Heading {
    Yes,
    No,
}

/// How far the highlight is asked to move, and which way.
#[derive(Debug, Clone, Copy, PartialEq, Eq, Structural)]
pub struct Step(pub i32);

/// Whether a row asked to wear no marks at its ends.
#[derive(Clone, Copy, Debug, Eq, PartialEq, Structural)]
pub enum Bare {
    Yes,
    No,
}

/// Whether a row wears the mark for what else it offers.
#[derive(Clone, Copy, Debug, Eq, PartialEq, Structural)]
pub enum Wears {
    WhatElse,
    Nothing,
}

/// Whether a row holds a level.
#[derive(Clone, Copy, Debug, Eq, PartialEq, Structural)]
pub enum Holds {
    Level,
    Nothing,
}

/// Whether the highlight stands beside a row, on what else it offers.
#[derive(Clone, Copy, Debug, Eq, PartialEq, Structural)]
pub enum Beside {
    Yes,
    No,
}

/// What left or right does to the row the highlight is on.
#[derive(Clone, Copy, Debug, Eq, PartialEq, Structural)]
pub enum Nudged {
    /// Stand beside it, on what else it offers.
    Stand,
    /// Come back from beside it.
    Back,
    /// Move its level.
    Level,
    /// Nothing.
    Nothing,
}

/// Whether two rows look the same.
#[derive(Debug, Clone, Copy, PartialEq, Eq, Structural)]
pub enum Same {
    Yes,
    No,
}

/// What wakes a tab that has gone quiet: the program run to watch for a
/// change.
#[derive(Clone, Debug, PartialEq, Eq)]
pub struct Watch {
    pub arguments: Vec<String>,
}

/// The strings holding the characters of each of `words`.
pub open spec fn words_of(words: Seq<&str>) -> Seq<Seq<char>> {
    words.map_values(|w: &str| w@)
}

impl Watch {
    /// A watch that runs `arguments` and wakes the tab on anything it says.
    pub fn anything(arguments: &[&str]) -> (w: Watch)
        ensures
            w.arguments@.map_values(|s: String| s@) == words_of(arguments@),
    {
        let mut said: Vec<String> = Vec::new();
        let mut i: usize = 0;
        while i < arguments.len()
            invariant
                i <= arguments.len(),
                said@.map_values(|s: String| s@) == words_of(arguments@).take(i as int),
            decreases arguments.len() - i,
        {
            let ghost before = said@.map_values(|s: String| s@);
            said.push(text::text(&text::letters(arguments[i])));
            assert(said@.map_values(|s: String| s@) =~= before.push(arguments@[i as int]@));
            i += 1;
            assert(words_of(arguments@).take(i as int) =~= words_of(arguments@).take(i - 1).push(
                arguments@[i - 1]@,
            ));
        }
        assert(words_of(arguments@).take(i as int) =~= words_of(arguments@));
        Watch { arguments: said }
    }
}

/// Whether a tab that was asked to wake did.
#[derive(Debug, Clone, Copy, PartialEq, Eq, Structural)]
pub enum WakeOutcome {
    Woke,
    AlreadyAwake,
}

/// Where a page is scrolled to when it opens.
#[derive(Clone, Copy, Debug, PartialEq, Eq, Structural)]
pub enum SetAt {
    FromTheTop,
    InTheMiddle,
}

impl Default for SetAt {
    fn default() -> (r: SetAt)
        ensures
            r == SetAt::FromTheTop,
    {
        SetAt::FromTheTop
    }
}

/// A row, as what is worked out here reads it. What it does, the level it
/// holds, what more it offers and what seeking along it does are the
/// program's around this; here a row says only whether it has each.
#[derive(Debug, PartialEq, Eq)]
pub struct Row {
    pub says: String,
    pub aside: String,
    /// Whether choosing it does something.
    pub does: bool,
    /// Whether it holds a level that left and right move.
    pub level: bool,
    pub ends: Option<(String, String)>,
    /// Whether it offers something more behind Y.
    pub more: bool,
    pub picture: Picture,
    pub tail: Option<Picture>,
    pub opens: bool,
    pub typing: bool,
    pub naming: bool,
    pub nothing: bool,
    /// Whether a finger can seek along it.
    pub seek: bool,
    pub middle: bool,
    pub stacked: bool,
    pub buttons: Option<Across>,
    pub cells: Vec<Cell>,
    pub chief: bool,
    pub headline: Option<Headline>,
    pub key: Option<String>,
}

/// Whether everything about a row but what it says and what is written
/// beside it is as a row that has been told nothing else has it.
pub open spec fn is_plain(r: Row) -> bool {
    &&& plain_but_cells(r)
    &&& r.cells@.len() == 0
}

/// Whether everything about a row but what it says, what is written beside
/// it and its cells is as a row that has been told nothing else has it.
pub open spec fn plain_but_cells(r: Row) -> bool {
    &&& !r.does
    &&& !r.level
    &&& r.ends is None
    &&& !r.more
    &&& r.picture == Picture::Blank
    &&& r.tail is None
    &&& !r.opens
    &&& !r.typing
    &&& !r.naming
    &&& !r.nothing
    &&& !r.seek
    &&& !r.middle
    &&& !r.stacked
    &&& r.buttons is None
    &&& !r.chief
    &&& r.headline is None
    &&& r.key is None
}

/// The string holding the characters of `s`.
fn owned(s: &str) -> (r: String)
    ensures
        r@ == s@,
{
    text::text(&text::letters(s))
}

impl Default for Row {
    fn default() -> (r: Row)
        ensures
            r.says@.len() == 0,
            r.aside@.len() == 0,
            is_plain(r),
    {
        Row {
            says: String::new(),
            aside: String::new(),
            does: false,
            level: false,
            ends: None,
            more: false,
            picture: Picture::Blank,
            tail: None,
            opens: false,
            typing: false,
            naming: false,
            nothing: false,
            seek: false,
            middle: false,
            stacked: false,
            buttons: None,
            cells: Vec::new(),
            chief: false,
            headline: None,
            key: None,
        }
    }
}

/// Whether choosing a row does anything: it does something, holds a level
/// or can be sought along.
pub open spec fn acts_of(row: Row) -> bool {
    row.does || row.level || row.seek
}

/// Whether a row is a heading over the rows after it: one that names what
/// follows, one that only says something, or one that neither acts, nor has
/// anything beside it, nor is typed into.
pub open spec fn heading_of(row: Row) -> bool {
    row.naming || row.nothing || (!acts_of(row) && row.aside@.len() == 0 && !row.typing)
}

impl Row {
    /// A row saying `says`, with `aside` written beside it, that does
    /// nothing.
    pub fn said(says: &str, aside: Aside<'_>) -> (r: Row)
        ensures
            r.says@ == says@,
            r.aside@ == aside.0@,
            is_plain(r),
    {
        Row { says: owned(says), aside: owned(aside.0), ..Row::default() }
    }

    /// A row that only says something, read rather than chosen.
    pub fn nothing(says: &str) -> (r: Row)
        ensures
            r.says@ == says@,
            r.aside@.len() == 0,
            r.nothing,
            is_plain(Row { nothing: false, ..r }),
    {
        proof {
            reveal_strlit("");
        }
        Row { nothing: true, ..Row::said(says, Aside("")) }
    }

    /// A row naming what the rows after it are about.
    pub fn naming(says: &str, aside: Aside<'_>) -> (r: Row)
        ensures
            r.says@ == says@,
            r.aside@ == aside.0@,
            r.naming,
            is_plain(Row { naming: false, ..r }),
    {
        Row { naming: true, ..Row::said(says, aside) }
    }

    /// A row that does something when it is chosen.
    pub fn new(says: &str, aside: Aside<'_>) -> (r: Row)
        ensures
            r.says@ == says@,
            r.aside@ == aside.0@,
            r.does,
            is_plain(Row { does: false, ..r }),
    {
        Row { does: true, ..Row::said(says, aside) }
    }

    /// A row that goes back, saying `says` after the mark for going back.
    pub fn back(says: &str) -> (r: Row)
        ensures
            r.says@ == crate::marks::BEFORE@ + seq![' '] + says@,
            r.aside@.len() == 0,
            r.does,
            is_plain(Row { does: false, ..r }),
    {
        let mut said = text::letters(crate::marks::BEFORE);
        said.push(' ');
        text::extend(&mut said, &text::letters(says));
        let said = text::text(&said);
        proof {
            reveal_strlit("");
        }
        Row::new(said.as_str(), Aside(""))
    }

    /// The same row with `ends` written at the two ends of its level.
    pub fn ended(self, ends: Ends<'_>) -> (r: Row)
        ensures
            r == (Row { ends: r.ends, ..self }),
            r.ends matches Some(e) && e.0@ == ends.less@ && e.1@ == ends.more@,
    {
        Row { ends: Some((owned(ends.less), owned(ends.more))), ..self }
    }

    /// The same row holding a level.
    pub fn leveled(self) -> (r: Row)
        ensures
            r == (Row { level: true, ..self }),
    {
        Row { level: true, ..self }
    }

    /// The same row carrying `picture`.
    pub fn picturing(self, picture: Picture) -> (r: Row)
        ensures
            r == (Row { picture: picture, ..self }),
    {
        Row { picture, ..self }
    }

    /// The same row with `tail` at its far end.
    pub fn tailing(self, tail: Picture) -> (r: Row)
        ensures
            r == (Row { tail: Some(tail), ..self }),
    {
        Row { tail: Some(tail), ..self }
    }

    /// The same row, opening something when it is chosen.
    pub fn opening(self) -> (r: Row)
        ensures
            r == (Row { opens: true, ..self }),
    {
        Row { opens: true, ..self }
    }

    /// The same row, offering something more behind Y.
    pub fn offering(self) -> (r: Row)
        ensures
            r == (Row { more: true, ..self }),
    {
        Row { more: true, ..self }
    }

    /// The same row, one a finger can seek along.
    pub fn seeking(self) -> (r: Row)
        ensures
            r == (Row { seek: true, ..self }),
    {
        Row { seek: true, ..self }
    }

    /// A row that is a picture, across the middle of the card.
    pub fn showing(picture: Picture) -> (r: Row)
        ensures
            r.says@.len() == 0,
            r.aside@.len() == 0,
            r.picture == picture,
            r.naming,
            r.middle,
            is_plain(Row { picture: Picture::Blank, naming: false, middle: false, ..r }),
    {
        Row { picture, naming: true, middle: true, ..Row::default() }
    }

    /// A row that is the head of a card about one thing.
    pub fn headline(picture: Picture, headline: Headline) -> (r: Row)
        ensures
            r.says@.len() == 0,
            r.aside@.len() == 0,
            r.picture == picture,
            r.headline == Some(headline),
            r.naming,
            r.middle,
            is_plain(
                Row { picture: Picture::Blank, headline: None, naming: false, middle: false, ..r },
            ),
    {
        Row { picture, headline: Some(headline), naming: true, middle: true, ..Row::default() }
    }

    /// A row with its two lines stacked against its picture.
    pub fn stacked(picture: Picture, says: &str, aside: Aside<'_>) -> (r: Row)
        ensures
            r.says@ == says@,
            r.aside@ == aside.0@,
            r.picture == picture,
            r.naming,
            r.stacked,
            is_plain(Row { picture: Picture::Blank, naming: false, stacked: false, ..r }),
    {
        Row { picture, naming: true, stacked: true, ..Row::said(says, aside) }
    }

    /// The same row, the chief one of its card.
    pub fn chief(self) -> (r: Row)
        ensures
            r == (Row { chief: true, ..self }),
    {
        Row { chief: true, ..self }
    }

    /// The same row, chosen rather than read: it does something, and names
    /// nothing.
    pub fn choosing(self) -> (r: Row)
        ensures
            r == (Row { does: true, naming: false, ..self }),
    {
        Row { does: true, naming: false, ..self }
    }

    /// The same row, drawn across the middle of the card.
    pub fn in_the_middle(self) -> (r: Row)
        ensures
            r == (Row { middle: true, ..self }),
    {
        Row { middle: true, ..self }
    }

    /// A row that is a strip of buttons, standing on the one at `at`, or on
    /// the last when `at` is past it.
    pub fn pressing(presses: Vec<Press>, at: u32) -> (r: Row)
        ensures
            r.says@.len() == 0,
            r.aside@.len() == 0,
            r.does,
            r.buttons matches Some(across) && across.presses == presses && across.at == stood_at(
                presses@.len(),
                at,
            ),
            is_plain(Row { does: false, buttons: None, ..r }),
    {
        let at = stood(presses.len(), at);
        Row { does: true, buttons: Some(Across { presses, at }), ..Row::default() }
    }

    /// A row of cells.
    pub fn celled(cells: Vec<Cell>) -> (r: Row)
        ensures
            r.says@.len() == 0,
            r.aside@.len() == 0,
            r.cells == cells,
            plain_but_cells(r),
    {
        Row { cells, ..Row::default() }
    }

    /// A row of cells naming what the rows after it are about.
    pub fn naming_cells(cells: Vec<Cell>) -> (r: Row)
        ensures
            r.says@.len() == 0,
            r.aside@.len() == 0,
            r.cells == cells,
            r.naming,
            plain_but_cells(Row { naming: false, ..r }),
    {
        Row { naming: true, ..Row::celled(cells) }
    }

    /// The same row, one that can be selected under `key`.
    pub fn selectable(self, key: &str) -> (r: Row)
        ensures
            r == (Row { key: r.key, ..self }),
            r.key matches Some(k) && k@ == key@,
    {
        Row { key: Some(owned(key)), ..self }
    }

    /// Whether this row is the one in effect: it says so beside it.
    pub fn now(&self) -> (r: Active)
        ensures
            r == (if self.aside@ == NOW@ {
                Active::Yes
            } else {
                Active::No
            }),
    {
        if text::same(&text::letters(self.aside.as_str()), &text::letters(NOW)) {
            Active::Yes
        } else {
            Active::No
        }
    }

    /// Whether choosing this row does anything.
    pub fn acts(&self) -> (r: Action)
        ensures
            r == (if acts_of(*self) {
                Action::Yes
            } else {
                Action::Nothing
            }),
    {
        if self.does || self.level || self.seek {
            Action::Yes
        } else {
            Action::Nothing
        }
    }

    /// Whether this row is a heading over the rows after it.
    pub fn heading(&self) -> (r: Heading)
        ensures
            r == (if heading_of(*self) {
                Heading::Yes
            } else {
                Heading::No
            }),
    {
        let acts = self.acts();
        let over = self.naming || self.nothing || (acts == Action::Nothing
            && text::letters(self.aside.as_str()).len() == 0 && !self.typing);
        if over {
            Heading::Yes
        } else {
            Heading::No
        }
    }
}

/// Which button of a strip of `many` a row asked to stand on `at` stands on:
/// `at`, or the last when `at` is past it.
pub open spec fn stood_at(many: nat, at: u32) -> u32 {
    let last: int = if many == 0 {
        0
    } else if many - 1 > u32::MAX {
        u32::MAX as int
    } else {
        many - 1
    };
    if at <= last {
        at
    } else {
        last as u32
    }
}

/// Which button of a strip of `many` is stood on.
fn stood(many: usize, at: u32) -> (r: u32)
    ensures
        r == stood_at(many as nat, at),
{
    let last: u32 = if many == 0 {
        0
    } else if many - 1 > u32::MAX as usize {
        u32::MAX
    } else {
        (many - 1) as u32
    };
    if at <= last {
        at
    } else {
        last
    }
}

/// The heading a row saying `says` stands under: the upper case of its first
/// letter, `0-9` when it begins with a digit, and `Other` when it begins with
/// neither or says nothing.
pub open spec fn under_of(says: Seq<char>) -> Seq<char> {
    if says.len() == 0 {
        REST@
    } else if is_letter(says[0]) {
        upper(says[0])
    } else if is_numeral(says[0]) {
        NUMBERS@
    } else {
        REST@
    }
}

/// The heading a row saying `says` stands under.
pub fn under(says: &str) -> (r: String)
    ensures
        r@ == under_of(says@),
{
    let letters = text::letters(says);
    if letters.len() == 0 {
        return owned(REST);
    }
    let letter = letters[0];
    if text::alphabetic(letter) {
        text::uppercase(letter)
    } else if text::numeric(letter) {
        owned(NUMBERS)
    } else {
        owned(REST)
    }
}

/// Where a row saying `says` sorts: the digits first, then the letters, then
/// everything that begins with neither.
pub open spec fn standing_of(says: Seq<char>) -> u8 {
    if under_of(says) == NUMBERS@ {
        0
    } else if under_of(says) == REST@ {
        2
    } else {
        1
    }
}

/// Where a row saying `says` sorts.
pub fn standing(says: &str) -> (r: u8)
    ensures
        r == standing_of(says@),
{
    let under = text::letters(under(says).as_str());
    if text::same(&under, &text::letters(NUMBERS)) {
        0
    } else if text::same(&under, &text::letters(REST)) {
        2
    } else {
        1
    }
}

/// Whether a row holds a level.
pub fn holds(row: &Row) -> (r: Holds)
    ensures
        r == (if row.level {
            Holds::Level
        } else {
            Holds::Nothing
        }),
{
    if row.level {
        Holds::Level
    } else {
        Holds::Nothing
    }
}

/// Whether a row asked to wear no marks: its ends are both written as
/// nothing.
pub open spec fn bare_of(row: Row) -> bool {
    match row.ends {
        Some(e) => e.0@.len() == 0 && e.1@.len() == 0,
        None => false,
    }
}

/// Whether a row asked to wear no marks.
pub fn bare(row: &Row) -> (r: Bare)
    ensures
        r == (if bare_of(*row) {
            Bare::Yes
        } else {
            Bare::No
        }),
{
    match &row.ends {
        Some(e) => if text::letters(e.0.as_str()).len() == 0 && text::letters(e.1.as_str()).len()
            == 0 {
            Bare::Yes
        } else {
            Bare::No
        },
        None => Bare::No,
    }
}

/// Whether a row wears the mark for what else it offers: when it offers
/// something and did not ask to wear no marks.
pub fn wears(row: &Row) -> (r: Wears)
    ensures
        r == (if row.more && !bare_of(*row) {
            Wears::WhatElse
        } else {
            Wears::Nothing
        }),
{
    let bare = bare(row);
    if row.more && bare == Bare::No {
        Wears::WhatElse
    } else {
        Wears::Nothing
    }
}

/// What left or right does to a row: beside a row, a step back comes back
/// from beside it and a step on does nothing; on a row that wears what else
/// it offers and holds no level, a step on stands beside it; anything else
/// moves the row's level.
pub open spec fn nudged_of(beside: Beside, wears: Wears, holds: Holds, step: i32) -> Nudged {
    match beside {
        Beside::Yes => if step > 0 {
            Nudged::Nothing
        } else {
            Nudged::Back
        },
        Beside::No => if wears == Wears::WhatElse && holds == Holds::Nothing && step > 0 {
            Nudged::Stand
        } else {
            Nudged::Level
        },
    }
}

/// What left or right does to a row.
pub fn nudged(beside: Beside, wears: Wears, holds: Holds, step: i32) -> (r: Nudged)
    ensures
        r == nudged_of(beside, wears, holds, step),
{
    match beside {
        Beside::Yes => if step > 0 {
            Nudged::Nothing
        } else {
            Nudged::Back
        },
        Beside::No => if wears == Wears::WhatElse && holds == Holds::Nothing && step > 0 {
            Nudged::Stand
        } else {
            Nudged::Level
        },
    }
}

/// What is written at the two ends of a row's level: what it asked for, or
/// the marks for less and more.
pub fn ends_of(row: &Row) -> (r: (&str, &str))
    ensures
        match row.ends {
            Some(e) => r.0@ == e.0@ && r.1@ == e.1@,
            None => r.0@ == crate::marks::LESS@ && r.1@ == crate::marks::MORE@,
        },
{
    match &row.ends {
        Some(e) => (e.0.as_str(), e.1.as_str()),
        None => (crate::marks::LESS, crate::marks::MORE),
    }
}

/// `x` held inside what an `i32` holds.
pub open spec fn held_i32(x: int) -> int {
    if x < i32::MIN {
        i32::MIN as int
    } else if x > i32::MAX {
        i32::MAX as int
    } else {
        x
    }
}

/// The last index of `rows`, as an `i32`.
pub open spec fn last_of(rows: Seq<Row>) -> int {
    if rows.len() == 0 {
        0
    } else {
        held_i32(rows.len() - 1)
    }
}

/// How much walking is left from `next`: what a walk moving `step` at a time
/// has still to cover before it falls off the list.
pub open spec fn walk_left(last: int, next: int, step: int) -> int {
    if step > 0 {
        if next > last {
            0
        } else {
            last + 1 - next
        }
    } else {
        if next < 0 {
            0
        } else {
            next + 1
        }
    }
}

/// Where a walk from `at` that has come to `next` stops: the first row from
/// `next` on, `step` at a time, that is not a heading, or `at` when the walk
/// falls off either end first.
pub open spec fn walk_on(rows: Seq<Row>, last: int, at: int, next: int, step: int) -> int
    decreases walk_left(last, next, step),
{
    if next < 0 || next > last || next >= rows.len() {
        at
    } else if !heading_of(rows[next]) {
        next
    } else if step == 0 || next + step > i32::MAX {
        at
    } else {
        walk_on(rows, last, at, held_i32(next + step), step)
    }
}

/// Where the highlight lands, walked from `at` by `step`: the first row that
/// is not a heading, or where it was when there is none that way.
pub open spec fn walked_of(rows: Seq<Row>, at: i32, step: i32) -> int {
    walk_on(rows, last_of(rows), at as int, held_i32(at + step), step as int)
}

/// Where the highlight lands, walked from `at` by `step`.
///
/// A step of nothing from a heading inside the list would never land, so it
/// is not asked for.
pub fn walked(rows: &Vec<Row>, at: i32, step: Step) -> (r: i32)
    requires
        rows@.len() <= i32::MAX,
        step.0 == 0 ==> !(0 <= at < rows@.len() && heading_of(rows@[at as int])),
    ensures
        r == walked_of(rows@, at, step.0),
{
    let last: i32 = if rows.len() == 0 {
        0
    } else {
        (rows.len() - 1) as i32
    };
    let mut going: i32 = at;
    loop
        invariant
            rows@.len() <= i32::MAX,
            last == last_of(rows@),
            step.0 == 0 ==> going == at,
            step.0 == 0 ==> !(0 <= at < rows@.len() && heading_of(rows@[at as int])),
            walk_on(rows@, last as int, at as int, held_i32(going + step.0), step.0 as int)
                == walked_of(rows@, at, step.0),
        decreases walk_left(last as int, held_i32(going + step.0), step.0 as int),
    {
        let sum: i64 = going as i64 + step.0 as i64;
        going = if sum < i32::MIN as i64 {
            i32::MIN
        } else if sum > i32::MAX as i64 {
            i32::MAX
        } else {
            sum as i32
        };
        if going < 0 || going > last || going as usize >= rows.len() {
            return at;
        }
        if rows[going as usize].heading() == Heading::No {
            return going;
        }
    }
}

/// A page's title as it is compared: in lower case.
pub open spec fn titled(titles: Seq<String>, i: int) -> Seq<char> {
    text::lowercase_of(titles[i]@)
}

/// Whether the page at `k` is the first whose title is `wanted`.
pub open spec fn found_at(titles: Seq<String>, wanted: Seq<char>, k: int) -> bool {
    &&& 0 <= k < titles.len()
    &&& titled(titles, k) == wanted
    &&& forall|j: int| 0 <= j < k ==> titled(titles, j) != wanted
}

/// The page a panel opens on, asked for by `name`: the first whose title, in
/// lower case, is the name trimmed and in lower case, and otherwise the
/// first; an index past what a `u32` holds is held at the most it holds.
pub open spec fn found_of(titles: Seq<String>, name: Option<Seq<char>>) -> int {
    match name {
        None => 0,
        Some(n) => {
            let wanted = text::lowercase_of(text::trim(n));
            if exists|k: int| found_at(titles, wanted, k) {
                let k = choose|k: int| found_at(titles, wanted, k);
                if k <= u32::MAX {
                    k
                } else {
                    u32::MAX as int
                }
            } else {
                0
            }
        },
    }
}

/// Two pages that are each the first with one title are one page.
proof fn lemma_found_once(titles: Seq<String>, wanted: Seq<char>, i: int, k: int)
    requires
        found_at(titles, wanted, i),
        found_at(titles, wanted, k),
    ensures
        i == k,
{
    if i < k {
        assert(titled(titles, i) != wanted);
    } else if k < i {
        assert(titled(titles, k) != wanted);
    }
}

/// The page a panel opens on, asked for by `name`.
pub fn find(titles: &Vec<String>, name: Option<&str>) -> (r: u32)
    ensures
        r == found_of(titles@, crate::picker::maybe(name)),
{
    let n = match name {
        Some(n) => n,
        None => return 0,
    };
    let trimmed = text::text(&text::trimmed(&text::letters(n)));
    let wanted = text::letters(text::lowercase(trimmed.as_str()).as_str());
    let ghost w = text::lowercase_of(text::trim(n@));
    let mut i: usize = 0;
    while i < titles.len()
        invariant
            name == Some(n),
            i <= titles@.len(),
            wanted@ == w,
            w == text::lowercase_of(text::trim(n@)),
            forall|j: int| 0 <= j < i ==> titled(titles@, j) != w,
        decreases titles.len() - i,
    {
        let title = text::letters(text::lowercase(titles[i].as_str()).as_str());
        if text::same(&title, &wanted) {
            assert(found_at(titles@, w, i as int));
            proof {
                let k = choose|k: int| found_at(titles@, w, k);
                lemma_found_once(titles@, w, i as int, k);
                assert(crate::picker::maybe(name) == Some(n@));
            }
            return if i > u32::MAX as usize {
                u32::MAX
            } else {
                i as u32
            };
        }
        i += 1;
    }
    assert(!exists|k: int| found_at(titles@, w, k));
    THE_FIRST_PAGE
}

/// Where a row of a lettered list comes from: a row of the list it was
/// made from, by its index, or a heading over a letter.
pub enum Stands {
    Row(int),
    Heading(Seq<char>),
}

/// The heading a row stands under in a lettered list.
pub open spec fn letter_of(row: Row) -> Seq<char> {
    under_of(row.says@)
}

/// How the rows of `rows` from `i` on are lettered, standing under
/// `standing`: a heading is kept and starts the letters again, a row under
/// the letter already standing follows it, and a row under another letter
/// has a heading for its letter put over it.
pub open spec fn lettering(rows: Seq<Row>, i: int, standing: Option<Seq<char>>) -> Seq<Stands>
    decreases rows.len() - i,
{
    if i < 0 || i >= rows.len() {
        Seq::empty()
    } else if heading_of(rows[i]) {
        seq![Stands::Row(i)] + lettering(rows, i + 1, None)
    } else if standing == Some(letter_of(rows[i])) {
        seq![Stands::Row(i)] + lettering(rows, i + 1, standing)
    } else {
        seq![Stands::Heading(letter_of(rows[i])), Stands::Row(i)] + lettering(
            rows,
            i + 1,
            Some(letter_of(rows[i])),
        )
    }
}

/// Whether `row` is the heading put over the letter `letter`: a row naming
/// the letter and nothing else.
pub open spec fn is_letter_heading(row: Row, letter: Seq<char>) -> bool {
    &&& row.says@ == letter
    &&& row.aside@.len() == 0
    &&& row.naming
    &&& is_plain(Row { naming: false, ..row })
}

/// Whether `out` is the rows `rows` laid out as `stands` says.
pub open spec fn laid_out(out: Seq<Row>, rows: Seq<Row>, stands: Seq<Stands>) -> bool {
    &&& out.len() == stands.len()
    &&& forall|k: int|
        0 <= k < out.len() ==> match #[trigger] stands[k] {
            Stands::Row(i) => out[k] == rows[i],
            Stands::Heading(letter) => is_letter_heading(out[k], letter),
        }
}

/// The characters of a string that may not be there.
pub open spec fn seen(o: Option<String>) -> Option<Seq<char>> {
    match o {
        Some(s) => Some(s@),
        None => None,
    }
}

/// The rows with a heading over every run of rows beginning with the same
/// letter.
pub fn lettered(rows: Vec<Row>) -> (out: Vec<Row>)
    ensures
        laid_out(out@, rows@, lettering(rows@, 0, None)),
{
    let ghost given = rows@;
    let mut out: Vec<Row> = Vec::new();
    let mut standing: Option<String> = None;
    let ghost mut placed: Seq<Stands> = Seq::empty();
    for row in it: rows.into_iter()
        invariant
            it.seq() == given,
            laid_out(out@, given, placed),
            placed + lettering(
                given,
                it.index() as int,
                seen(standing),
            ) == lettering(given, 0, None),
    {
        let ghost i = it.index() as int;
        let ghost stood = seen(standing);
        let ghost before = placed;
        assert(row == given[i]);
        if row.heading() == Heading::Yes {
            standing = None;
            out.push(row);
            proof {
                placed = placed.push(Stands::Row(i));
                assert(lettering(given, i, stood) == seq![Stands::Row(i)] + lettering(
                    given,
                    i + 1,
                    None,
                ));
                assert(before + lettering(given, i, stood) =~= placed + lettering(given, i + 1, None));
            }
        } else {
            let under = under(row.says.as_str());
            let same = match &standing {
                Some(s) => text::same(&text::letters(s.as_str()), &text::letters(under.as_str())),
                None => false,
            };
            if !same {
                proof {
                    reveal_strlit("");
                }
                let naming = Row::naming(under.as_str(), Aside(""));
                out.push(naming);
                proof {
                    placed = placed.push(Stands::Heading(under@));
                }
                standing = Some(under);
            }
            out.push(row);
            proof {
                placed = placed.push(Stands::Row(i));
                let now = seen(standing);
                if same {
                    assert(lettering(given, i, stood) == seq![Stands::Row(i)] + lettering(
                        given,
                        i + 1,
                        now,
                    ));
                } else {
                    assert(lettering(given, i, stood) == seq![
                        Stands::Heading(letter_of(given[i])),
                        Stands::Row(i),
                    ] + lettering(given, i + 1, now));
                }
                assert(before + lettering(given, i, stood) =~= placed + lettering(given, i + 1, now));
            }
        }
    }
    out
}

/// The heading standing when the lettering comes to the row at `i`: none
/// at the top or after a heading, and otherwise the letter of the row
/// before it.
pub open spec fn standing_before(rows: Seq<Row>, i: int) -> Option<Seq<char>> {
    if i <= 0 || heading_of(rows[i - 1]) {
        None
    } else {
        Some(letter_of(rows[i - 1]))
    }
}

/// Whether the row at `i` starts a run of its letter: it is the first row,
/// or follows a heading, or follows a row under another letter.
pub open spec fn starts_a_run(rows: Seq<Row>, i: int) -> bool {
    i <= 0 || heading_of(rows[i - 1]) || letter_of(rows[i - 1]) != letter_of(rows[i])
}

/// What the lettering puts down for the row at `i`: the row, with a heading
/// for its letter over it when it is no heading and starts a run.
pub open spec fn block(rows: Seq<Row>, i: int) -> Seq<Stands> {
    if !heading_of(rows[i]) && starts_a_run(rows, i) {
        seq![Stands::Heading(letter_of(rows[i])), Stands::Row(i)]
    } else {
        seq![Stands::Row(i)]
    }
}

/// The indices of the rows of the list a lettering keeps, in the order it
/// keeps them.
pub open spec fn kept(st: Seq<Stands>) -> Seq<int>
    decreases st.len(),
{
    if st.len() == 0 {
        Seq::empty()
    } else {
        (match st[0] {
            Stands::Row(i) => seq![i],
            Stands::Heading(_) => Seq::empty(),
        }) + kept(st.drop_first())
    }
}

/// What is kept of two laid end to end is what is kept of each.
proof fn lemma_kept_add(a: Seq<Stands>, b: Seq<Stands>)
    ensures
        kept(a + b) == kept(a) + kept(b),
    decreases a.len(),
{
    if a.len() == 0 {
        assert(a + b =~= b);
    } else {
        assert((a + b).drop_first() =~= a.drop_first() + b);
        lemma_kept_add(a.drop_first(), b);
        assert((a + b)[0] == a[0]);
    }
}

/// The lettering from `i` is what is put down for `i` and then the lettering
/// from the row after it.
proof fn lemma_lettering_step(rows: Seq<Row>, i: int)
    requires
        0 <= i < rows.len(),
    ensures
        lettering(rows, i, standing_before(rows, i)) == block(rows, i) + lettering(
            rows,
            i + 1,
            standing_before(rows, i + 1),
        ),
{
}

/// The lettering from `i` on.
pub open spec fn lettered_from(rows: Seq<Row>, i: int) -> Seq<Stands> {
    lettering(rows, i, standing_before(rows, i))
}

/// The lettering from `i` on keeps the rows from `i` on, in order.
proof fn lemma_kept_from(rows: Seq<Row>, i: int)
    requires
        0 <= i <= rows.len(),
    ensures
        kept(lettered_from(rows, i)) == Seq::new((rows.len() - i) as nat, |k: int| i + k),
    decreases rows.len() - i,
{
    let st = lettered_from(rows, i);
    if i == rows.len() {
        assert(kept(st) =~= Seq::new((rows.len() - i) as nat, |k: int| i + k));
    } else {
        lemma_kept_from(rows, i + 1);
        lemma_lettering_step(rows, i);
        let b = block(rows, i);
        let rest = lettered_from(rows, i + 1);
        lemma_kept_add(b, rest);
        assert(kept(b) =~= seq![i]) by {
            let one = seq![Stands::Row(i)];
            assert(one.drop_first() =~= Seq::<Stands>::empty());
            assert(kept(one) =~= seq![i] + kept(one.drop_first()));
            if b.len() == 2 {
                assert(b.drop_first() =~= one);
                assert(kept(b) =~= Seq::<int>::empty() + kept(b.drop_first()));
            } else {
                assert(b =~= one);
            }
        }
        assert(kept(st) =~= Seq::new((rows.len() - i) as nat, |k: int| i + k));
    }
}

/// The lettering from `i` on starts with what is put down for `i`.
proof fn lemma_first(rows: Seq<Row>, i: int)
    requires
        0 <= i < rows.len(),
    ensures
        lettered_from(rows, i).len() > 0,
        lettered_from(rows, i)[0] == block(rows, i)[0],
{
    lemma_lettering_step(rows, i);
}

/// In the lettering from `i` on, every row is one from `i` on, and every
/// heading stands directly over a row from `i` on that is no heading and
/// begins with its letter.
proof fn lemma_headings_from(rows: Seq<Row>, i: int)
    requires
        0 <= i <= rows.len(),
    ensures
        forall|k: int|
            0 <= k < lettered_from(rows, i).len() ==> match #[trigger] lettered_from(rows, i)[k] {
                Stands::Row(j) => i <= j < rows.len(),
                Stands::Heading(l) => {
                    let st = lettered_from(rows, i);
                    &&& k + 1 < st.len()
                    &&& st[k + 1] is Row
                    &&& i <= st[k + 1]->Row_0 < rows.len()
                    &&& !heading_of(rows[st[k + 1]->Row_0])
                    &&& letter_of(rows[st[k + 1]->Row_0]) == l
                },
            },
    decreases rows.len() - i,
{
    if i < rows.len() {
        lemma_headings_from(rows, i + 1);
        lemma_lettering_step(rows, i);
        let st = lettered_from(rows, i);
        let b = block(rows, i);
        let rest = lettered_from(rows, i + 1);
        assert forall|k: int| 0 <= k < st.len() implies match #[trigger] st[k] {
            Stands::Row(j) => i <= j < rows.len(),
            Stands::Heading(l) => {
                &&& k + 1 < st.len()
                &&& st[k + 1] is Row
                &&& i <= st[k + 1]->Row_0 < rows.len()
                &&& !heading_of(rows[st[k + 1]->Row_0])
                &&& letter_of(rows[st[k + 1]->Row_0]) == l
            },
        } by {
            if k >= b.len() {
                assert(st[k] == rest[k - b.len()]);
                if st[k] is Heading {
                    assert(st[k + 1] == rest[k + 1 - b.len()]);
                }
            }
        }
    }
}

/// In the lettering from `i` on, a row that is no heading has directly over
/// it a heading for its letter when it starts a run, and otherwise the row
/// before it.
proof fn lemma_over_from(rows: Seq<Row>, i: int)
    requires
        0 <= i <= rows.len(),
    ensures
        forall|k: int|
            0 < k < lettered_from(rows, i).len() && #[trigger] lettered_from(rows, i)[k] is Row
                && !heading_of(rows[lettered_from(rows, i)[k]->Row_0]) ==> {
                let st = lettered_from(rows, i);
                if starts_a_run(rows, st[k]->Row_0) {
                    st[k - 1] == Stands::Heading(letter_of(rows[st[k]->Row_0]))
                } else {
                    st[k - 1] == Stands::Row(st[k]->Row_0 - 1)
                }
            },
    decreases rows.len() - i,
{
    if i < rows.len() {
        lemma_over_from(rows, i + 1);
        lemma_lettering_step(rows, i);
        lemma_headings_from(rows, i + 1);
        let st = lettered_from(rows, i);
        let b = block(rows, i);
        let rest = lettered_from(rows, i + 1);
        assert forall|k: int|
            0 < k < st.len() && #[trigger] st[k] is Row && !heading_of(
                rows[st[k]->Row_0],
            ) implies (if starts_a_run(rows, st[k]->Row_0) {
            st[k - 1] == Stands::Heading(letter_of(rows[st[k]->Row_0]))
        } else {
            st[k - 1] == Stands::Row(st[k]->Row_0 - 1)
        }) by {
            if k >= b.len() {
                assert(st[k] == rest[k - b.len()]);
                if k > b.len() {
                    assert(st[k - 1] == rest[k - 1 - b.len()]);
                } else {
                    lemma_first(rows, i + 1);
                }
            }
        }
    }
}

/// A list lettered keeps every row it was given, once each and in order; a
/// heading it puts down stands directly over a row that is no heading and
/// begins with its letter; and a row that is no heading has a heading for
/// its letter directly over it exactly when it starts a run of its letter --
/// the first row, the first after a heading someone else wrote, or the first
/// under a new letter -- and otherwise the row before it directly over it.
pub proof fn lemma_lettered(rows: Seq<Row>)
    ensures
        ({
            let st = lettering(rows, 0, None);
            &&& kept(st) == Seq::new(rows.len(), |k: int| k)
            &&& forall|k: int|
                0 <= k < st.len() && #[trigger] st[k] is Heading ==> k + 1 < st.len() && st[k
                    + 1] is Row && 0 <= st[k + 1]->Row_0 < rows.len() && !heading_of(
                    rows[st[k + 1]->Row_0],
                ) && letter_of(rows[st[k + 1]->Row_0]) == st[k]->Heading_0
            &&& forall|k: int|
                0 <= k < st.len() && #[trigger] st[k] is Row && !heading_of(rows[st[k]->Row_0])
                    ==> 0 < k && (if starts_a_run(rows, st[k]->Row_0) {
                    st[k - 1] == Stands::Heading(letter_of(rows[st[k]->Row_0]))
                } else {
                    st[k - 1] == Stands::Row(st[k]->Row_0 - 1)
                })
        }),
{
    lemma_kept_from(rows, 0);
    lemma_headings_from(rows, 0);
    lemma_over_from(rows, 0);
    let st = lettering(rows, 0, None);
    assert(standing_before(rows, 0) == None::<Seq<char>>);
    assert(st == lettered_from(rows, 0));
    if rows.len() > 0 {
        lemma_first(rows, 0);
    }
    assert(kept(st) =~= Seq::new(rows.len(), |k: int| k));
    assert forall|k: int|
        0 <= k < st.len() && #[trigger] st[k] is Row && !heading_of(
            rows[st[k]->Row_0],
        ) implies 0 < k by {
        if k == 0 {
            assert(st[0] == block(rows, 0)[0]);
        }
    }
}

/// Whether two strings that may not be there read the same.
pub open spec fn same_text(a: Option<String>, b: Option<String>) -> bool {
    match (a, b) {
        (Some(x), Some(y)) => x@ == y@,
        (None, None) => true,
        _ => false,
    }
}

/// Whether two pictures are drawn the same.
pub open spec fn picture_looks(a: Picture, b: Picture) -> bool {
    match (a, b) {
        (Picture::Blank, Picture::Blank) => true,
        (Picture::Space, Picture::Space) => true,
        (Picture::Named(x), Picture::Named(y)) => x == y,
        (Picture::At(x), Picture::At(y)) => x@ == y@,
        (Picture::Sleeve(x), Picture::Sleeve(y)) => same_text(x, y),
        (Picture::Showing(x), Picture::Showing(y)) => same_text(x, y),
        (Picture::Playing(x), Picture::Playing(y)) => same_text(x, y),
        (Picture::Written(x), Picture::Written(y)) => x@ == y@,
        (Picture::Bar(x), Picture::Bar(y)) => x == y,
        _ => false,
    }
}

/// Whether two buttons are drawn the same.
pub open spec fn press_looks(a: Press, b: Press) -> bool {
    &&& match (a.face, b.face) {
        (Face::Glyph(x), Face::Glyph(y)) => x == y,
        (Face::Written(x), Face::Written(y)) => x@ == y@,
        (Face::Swatch(x), Face::Swatch(y)) => x == y,
        _ => false,
    }
    &&& a.now == b.now
    &&& a.chief == b.chief
    &&& a.placed == b.placed
    &&& a.style == b.style
}

/// Whether two strips of buttons are drawn the same.
pub open spec fn across_looks(a: Across, b: Across) -> bool {
    &&& a.at == b.at
    &&& a.presses@.len() == b.presses@.len()
    &&& forall|i: int| 0 <= i < a.presses@.len() ==> #[trigger] press_looks(a.presses@[i], b.presses@[i])
}

/// Whether two cells are drawn the same.
pub open spec fn cell_looks(a: Cell, b: Cell) -> bool {
    a.says@ == b.says@ && a.now == b.now && a.icon == b.icon
}

/// Whether two headlines are drawn the same.
pub open spec fn headline_looks(a: Headline, b: Headline) -> bool {
    &&& a.title@ == b.title@
    &&& a.subtitle@ == b.subtitle@
    &&& a.icon == b.icon
    &&& a.says@ == b.says@
    &&& a.big@ == b.big@
    &&& a.aside@ == b.aside@
    &&& a.alignment == b.alignment
}

/// Whether two rows are drawn the same: whatever they do, everything that
/// is drawn of them reads the same.
pub open spec fn looks_like_of(a: Row, b: Row) -> bool {
    &&& a.says@ == b.says@
    &&& a.aside@ == b.aside@
    &&& a.does == b.does
    &&& a.level == b.level
    &&& match (a.ends, b.ends) {
        (Some(x), Some(y)) => x.0@ == y.0@ && x.1@ == y.1@,
        (None, None) => true,
        _ => false,
    }
    &&& a.more == b.more
    &&& picture_looks(a.picture, b.picture)
    &&& match (a.tail, b.tail) {
        (Some(x), Some(y)) => picture_looks(x, y),
        (None, None) => true,
        _ => false,
    }
    &&& a.opens == b.opens
    &&& a.typing == b.typing
    &&& a.naming == b.naming
    &&& a.nothing == b.nothing
    &&& a.seek == b.seek
    &&& a.middle == b.middle
    &&& a.stacked == b.stacked
    &&& match (a.buttons, b.buttons) {
        (Some(x), Some(y)) => across_looks(x, y),
        (None, None) => true,
        _ => false,
    }
    &&& a.cells@.len() == b.cells@.len()
    &&& (forall|i: int| 0 <= i < a.cells@.len() ==> #[trigger] cell_looks(a.cells@[i], b.cells@[i]))
    &&& a.chief == b.chief
    &&& match (a.headline, b.headline) {
        (Some(x), Some(y)) => headline_looks(x, y),
        (None, None) => true,
        _ => false,
    }
    &&& same_text(a.key, b.key)
}

/// Whether two strings read the same.
fn same_str(a: &str, b: &str) -> (r: bool)
    ensures
        r == (a@ == b@),
{
    text::same(&text::letters(a), &text::letters(b))
}

/// Whether two strings that may not be there read the same.
fn same_maybe(a: &Option<String>, b: &Option<String>) -> (r: bool)
    ensures
        r == same_text(*a, *b),
{
    match (a, b) {
        (Some(x), Some(y)) => same_str(x.as_str(), y.as_str()),
        (None, None) => true,
        _ => false,
    }
}

/// Whether two pictures are drawn the same.
fn same_picture(a: &Picture, b: &Picture) -> (r: bool)
    ensures
        r == picture_looks(*a, *b),
{
    match (a, b) {
        (Picture::Blank, Picture::Blank) => true,
        (Picture::Space, Picture::Space) => true,
        (Picture::Named(x), Picture::Named(y)) => *x == *y,
        (Picture::At(x), Picture::At(y)) => same_str(x.as_str(), y.as_str()),
        (Picture::Sleeve(x), Picture::Sleeve(y)) => same_maybe(x, y),
        (Picture::Showing(x), Picture::Showing(y)) => same_maybe(x, y),
        (Picture::Playing(x), Picture::Playing(y)) => same_maybe(x, y),
        (Picture::Written(x), Picture::Written(y)) => same_str(x.as_str(), y.as_str()),
        (Picture::Bar(x), Picture::Bar(y)) => x.at == y.at && x.of == y.of,
        _ => false,
    }
}

/// Whether two buttons are drawn the same.
fn same_press(a: &Press, b: &Press) -> (r: bool)
    ensures
        r == press_looks(*a, *b),
{
    let face = match (&a.face, &b.face) {
        (Face::Glyph(x), Face::Glyph(y)) => *x == *y,
        (Face::Written(x), Face::Written(y)) => same_str(x.as_str(), y.as_str()),
        (Face::Swatch(x), Face::Swatch(y)) => *x == *y,
        _ => false,
    };
    face && a.now == b.now && a.chief == b.chief && a.placed == b.placed && a.style == b.style
}

/// Whether two strips of buttons are drawn the same.
fn same_across(a: &Across, b: &Across) -> (r: bool)
    ensures
        r == across_looks(*a, *b),
{
    if a.at != b.at || a.presses.len() != b.presses.len() {
        return false;
    }
    let mut i: usize = 0;
    while i < a.presses.len()
        invariant
            i <= a.presses@.len(),
            a.presses@.len() == b.presses@.len(),
            forall|k: int| 0 <= k < i ==> #[trigger] press_looks(a.presses@[k], b.presses@[k]),
        decreases a.presses.len() - i,
    {
        if !same_press(&a.presses[i], &b.presses[i]) {
            return false;
        }
        i += 1;
    }
    true
}

/// Whether two rows of cells are drawn the same.
fn same_cells(a: &Vec<Cell>, b: &Vec<Cell>) -> (r: bool)
    ensures
        r == (a@.len() == b@.len() && forall|i: int| 0 <= i < a@.len() ==> #[trigger] cell_looks(a@[i], b@[i])),
{
    if a.len() != b.len() {
        return false;
    }
    let mut i: usize = 0;
    while i < a.len()
        invariant
            i <= a@.len(),
            a@.len() == b@.len(),
            forall|k: int| 0 <= k < i ==> #[trigger] cell_looks(a@[k], b@[k]),
        decreases a.len() - i,
    {
        let x = &a[i];
        let y = &b[i];
        let icon = match (x.icon, y.icon) {
            (Some(p), Some(q)) => p == q,
            (None, None) => true,
            _ => false,
        };
        if !(same_str(x.says.as_str(), y.says.as_str()) && x.now == y.now && icon) {
            assert(!cell_looks(a@[i as int], b@[i as int]));
            return false;
        }
        i += 1;
    }
    true
}

/// Whether two icons that may not be there are the same.
fn same_icon(a: Option<Icon>, b: Option<Icon>) -> (r: bool)
    ensures
        r == (a == b),
{
    match (a, b) {
        (Some(p), Some(q)) => p == q,
        (None, None) => true,
        _ => false,
    }
}

/// Whether two headlines are drawn the same.
fn same_headline(a: &Headline, b: &Headline) -> (r: bool)
    ensures
        r == headline_looks(*a, *b),
{
    same_str(a.title.as_str(), b.title.as_str()) && same_str(a.subtitle.as_str(), b.subtitle.as_str())
        && same_icon(a.icon, b.icon) && same_str(a.says.as_str(), b.says.as_str()) && same_str(a.big.as_str(), b.big.as_str())
        && same_str(a.aside.as_str(), b.aside.as_str()) && a.alignment == b.alignment
}

impl Row {
    /// Whether `other` is drawn the same as this row, so that nothing has
    /// to be drawn again.
    pub fn looks_like(&self, other: &Row) -> (r: Same)
        ensures
            r == (if looks_like_of(*self, *other) {
                Same::Yes
            } else {
                Same::No
            }),
    {
        let ends = match (&self.ends, &other.ends) {
            (Some(x), Some(y)) => same_str(x.0.as_str(), y.0.as_str()) && same_str(x.1.as_str(), y.1.as_str()),
            (None, None) => true,
            _ => false,
        };
        let tail = match (&self.tail, &other.tail) {
            (Some(x), Some(y)) => same_picture(x, y),
            (None, None) => true,
            _ => false,
        };
        let buttons = match (&self.buttons, &other.buttons) {
            (Some(x), Some(y)) => same_across(x, y),
            (None, None) => true,
            _ => false,
        };
        let headline = match (&self.headline, &other.headline) {
            (Some(x), Some(y)) => same_headline(x, y),
            (None, None) => true,
            _ => false,
        };
        let alike = same_str(self.says.as_str(), other.says.as_str()) && same_str(
            self.aside.as_str(),
            other.aside.as_str(),
        ) && self.does == other.does && self.level == other.level && ends && self.more == other.more
            && same_picture(&self.picture, &other.picture) && tail && self.opens == other.opens
            && self.typing == other.typing && self.naming == other.naming && self.nothing == other.nothing
            && self.seek == other.seek && self.middle == other.middle && self.stacked == other.stacked && buttons
            && same_cells(&self.cells, &other.cells) && self.chief == other.chief && headline && same_maybe(
            &self.key,
            &other.key,
        );
        if alike {
            Same::Yes
        } else {
            Same::No
        }
    }
}

/// A row is drawn the same as itself, and two rows are drawn the same
/// whichever is asked about the other.
pub proof fn lemma_a_row_looks_like_itself(a: Row, b: Row)
    ensures
        looks_like_of(a, a),
        looks_like_of(a, b) == looks_like_of(b, a),
{
    assert(picture_looks(a.picture, a.picture));
    assert(picture_looks(a.picture, b.picture) == picture_looks(b.picture, a.picture));
    if looks_like_of(a, b) {
        assert forall|i: int| 0 <= i < b.cells@.len() implies #[trigger] cell_looks(b.cells@[i], a.cells@[i]) by {
            assert(cell_looks(a.cells@[i], b.cells@[i]));
        }
        if let (Some(x), Some(y)) = (a.buttons, b.buttons) {
            assert forall|i: int| 0 <= i < y.presses@.len() implies #[trigger] press_looks(y.presses@[i], x.presses@[i]) by {
                assert(press_looks(x.presses@[i], y.presses@[i]));
            }
        }
    }
    if looks_like_of(b, a) {
        assert forall|i: int| 0 <= i < a.cells@.len() implies #[trigger] cell_looks(a.cells@[i], b.cells@[i]) by {
            assert(cell_looks(b.cells@[i], a.cells@[i]));
        }
        if let (Some(x), Some(y)) = (a.buttons, b.buttons) {
            assert forall|i: int| 0 <= i < x.presses@.len() implies #[trigger] press_looks(x.presses@[i], y.presses@[i]) by {
                assert(press_looks(y.presses@[i], x.presses@[i]));
            }
        }
    }
}

/// A copy of a string that may not be there.
fn text_copied(o: &Option<String>) -> (r: Option<String>)
    ensures
        r == *o,
{
    match o {
        Some(t) => Some(t.clone()),
        None => None,
    }
}

impl Clone for Picture {
    /// The same picture.
    fn clone(&self) -> (r: Picture)
        ensures
            r == *self,
    {
        match self {
            Picture::Blank => Picture::Blank,
            Picture::Space => Picture::Space,
            Picture::Named(icon) => Picture::Named(*icon),
            Picture::At(p) => Picture::At(p.clone()),
            Picture::Sleeve(p) => Picture::Sleeve(text_copied(p)),
            Picture::Showing(p) => Picture::Showing(text_copied(p)),
            Picture::Playing(p) => Picture::Playing(text_copied(p)),
            Picture::Written(w) => Picture::Written(w.clone()),
            Picture::Bar(bar) => Picture::Bar(*bar),
        }
    }
}

impl Clone for Headline {
    /// The same headline.
    fn clone(&self) -> (r: Headline)
        ensures
            r == *self,
    {
        Headline {
            title: self.title.clone(),
            subtitle: self.subtitle.clone(),
            icon: self.icon,
            says: self.says.clone(),
            big: self.big.clone(),
            aside: self.aside.clone(),
            alignment: self.alignment,
        }
    }
}

impl Clone for Face {
    /// The same face.
    fn clone(&self) -> (r: Face)
        ensures
            r == *self,
    {
        match self {
            Face::Glyph(icon) => Face::Glyph(*icon),
            Face::Written(w) => Face::Written(w.clone()),
            Face::Swatch(c) => Face::Swatch(*c),
        }
    }
}

impl Clone for Press {
    /// The same button.
    fn clone(&self) -> (r: Press)
        ensures
            r == *self,
    {
        Press {
            face: self.face.clone(),
            now: self.now,
            chief: self.chief,
            placed: self.placed,
            style: self.style,
        }
    }
}

impl Clone for Cell {
    /// The same cell.
    fn clone(&self) -> (r: Cell)
        ensures
            r == *self,
    {
        Cell { says: self.says.clone(), now: self.now, icon: self.icon }
    }
}

impl Clone for Across {
    /// The same strip: the same buttons, the same one stood on.
    fn clone(&self) -> (r: Across)
        ensures
            r.at == self.at,
            r.presses@ == self.presses@,
    {
        let presses = self.presses.clone();
        assert(presses@ =~= self.presses@);
        Across { presses, at: self.at }
    }
}

impl Clone for Row {
    /// The same row: everything of it the same, its cells and its strip the
    /// same one after another.
    fn clone(&self) -> (r: Row)
        ensures
            r.cells@ == self.cells@,
            match (r.buttons, self.buttons) {
                (Some(x), Some(y)) => x.at == y.at && x.presses@ == y.presses@,
                (None, None) => true,
                _ => false,
            },
            (Row { cells: self.cells, buttons: self.buttons, ..r }) == *self,
    {
        let cells = self.cells.clone();
        assert(cells@ =~= self.cells@);
        let buttons = match &self.buttons {
            Some(across) => Some(across.clone()),
            None => None,
        };
        let ends = match &self.ends {
            Some(pair) => Some((pair.0.clone(), pair.1.clone())),
            None => None,
        };
        let tail = match &self.tail {
            Some(t) => Some(t.clone()),
            None => None,
        };
        let headline = match &self.headline {
            Some(h) => Some(h.clone()),
            None => None,
        };
        Row {
            says: self.says.clone(),
            aside: self.aside.clone(),
            does: self.does,
            level: self.level,
            ends,
            more: self.more,
            picture: self.picture.clone(),
            tail,
            opens: self.opens,
            typing: self.typing,
            naming: self.naming,
            nothing: self.nothing,
            seek: self.seek,
            middle: self.middle,
            stacked: self.stacked,
            buttons,
            cells,
            chief: self.chief,
            headline,
            key: text_copied(&self.key),
        }
    }
}

/// A copy of a row looks like the row.
pub proof fn lemma_a_copy_of_a_row_looks_like_it(a: Row, b: Row)
    requires
        b.cells@ == a.cells@,
        match (b.buttons, a.buttons) {
            (Some(x), Some(y)) => x.at == y.at && x.presses@ == y.presses@,
            (None, None) => true,
            _ => false,
        },
        (Row { cells: a.cells, buttons: a.buttons, ..b }) == a,
    ensures
        looks_like_of(b, a),
{
    lemma_a_row_looks_like_itself(a, a);
}

} // verus!
