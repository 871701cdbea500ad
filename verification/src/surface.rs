//! Where the highlight stands on a card, and what a key does to it.
//!
//! A card is steered by the pad: up and down walk the rows, left and right
//! nudge the row the highlight is on, the shoulders turn the tabs, A chooses,
//! Y asks what else a row offers and B backs out. What each of those does to
//! where the highlight stands, and what the card is then asked to do, is
//! worked out here; drawing the card, running what a row does and reading
//! the keys off the screen are the program's around this.

use vstd::prelude::*;

use crate::keys::Meaning;
use crate::page::{
    self, heading_of, held_i32, nudged_of, walked_of, Beside, Holds, Nudged, Picture, Row, Step,
    Wears,
};
use crate::strip::{self, along_of, Stop};
use crate::text;

verus! {

/// Whether the card is opened out over the whole screen for its picture.
#[derive(Debug, Clone, Copy, PartialEq, Eq, Structural)]
pub enum Opened {
    Expanded,
    No,
}

/// Whether a panel is a card on the screen or the whole of it.
#[derive(Debug, Clone, Copy, PartialEq, Eq, Structural)]
pub enum Framing {
    Card,
    Screen,
}

/// Whether the highlight stands on the way out past the last tab.
#[derive(Debug, Clone, Copy, PartialEq, Eq, Structural)]
pub enum Leaving {
    Standing,
    No,
}

/// Whether a row is one of those selected.
#[derive(Debug, Clone, Copy, PartialEq, Eq, Structural)]
pub enum Selected {
    Yes,
    No,
}

/// Whether the page in front is selecting: it acts on a selection and
/// something on it is selected.
#[derive(Debug, Clone, Copy, PartialEq, Eq, Structural)]
pub enum Selecting {
    Yes,
    No,
}

/// What a key asked the card to do next.
#[derive(Debug, Clone, Copy, PartialEq, Eq, Structural)]
pub enum Outcome {
    /// Nothing: the card is as it was.
    Nothing,
    /// Draw the card again.
    Redrawn,
    /// The row at this index was chosen.
    Chose(u32),
    /// What else the row at this index offers was asked for.
    Else(u32),
    /// Move the level of the row at this index by this step, and draw the
    /// card again.
    Leveled(u32, i32),
    /// Put the panel away.
    Closing,
}

/// Where a hand can land on a card.
#[derive(Debug, Clone, Copy, PartialEq, Eq, Structural)]
pub enum Lands {
    Row(u32),
    Answer(u32),
    Nudge { row: u32, step: i32 },
    Else(u32),
    ButtonPress { row: u32, which: u32 },
    Seek { row: u32, from: i32, wide: u32 },
    Tab(u32),
    More(i32),
    Back,
}

/// What a part a hand can land on belongs to: the card, or one of its rows.
#[derive(Debug, Clone, Copy, PartialEq, Eq, Structural)]
pub enum Owner {
    Card,
    Row(u32),
}

/// The name a part a hand can land on is drawn under, and what it belongs
/// to.
pub open spec fn named_of(lands: Lands) -> (Seq<char>, Owner) {
    match lands {
        Lands::Row(at) => (crate::marks::named::PRESS@, Owner::Row(at)),
        Lands::Answer(_) => (crate::marks::named::ANSWER@, Owner::Card),
        Lands::Nudge { row, step: _ } => (crate::marks::named::STEP@, Owner::Row(row)),
        Lands::Else(row) => (crate::marks::named::ELSE@, Owner::Row(row)),
        Lands::ButtonPress { row, which: _ } => (crate::marks::named::BUTTON@, Owner::Row(row)),
        Lands::Seek { row, from: _, wide: _ } => (crate::marks::named::SEEK@, Owner::Row(row)),
        Lands::Tab(_) => (crate::marks::named::TAB@, Owner::Card),
        Lands::More(_) => (crate::marks::named::MORE@, Owner::Card),
        Lands::Back => (crate::marks::named::SHUT@, Owner::Card),
    }
}

impl Lands {
    /// The name this part is drawn under, and what it belongs to.
    pub fn named(self) -> (r: (&'static str, Owner))
        ensures
            (r.0@, r.1) == named_of(self),
    {
        match self {
            Lands::Row(at) => (crate::marks::named::PRESS, Owner::Row(at)),
            Lands::Answer(_) => (crate::marks::named::ANSWER, Owner::Card),
            Lands::Nudge { row, step: _ } => (crate::marks::named::STEP, Owner::Row(row)),
            Lands::Else(row) => (crate::marks::named::ELSE, Owner::Row(row)),
            Lands::ButtonPress { row, which: _ } => (crate::marks::named::BUTTON, Owner::Row(row)),
            Lands::Seek { row, from: _, wide: _ } => (crate::marks::named::SEEK, Owner::Row(row)),
            Lands::Tab(_) => (crate::marks::named::TAB, Owner::Card),
            Lands::More(_) => (crate::marks::named::MORE, Owner::Card),
            Lands::Back => (crate::marks::named::SHUT, Owner::Card),
        }
    }
}

/// The height of a finger, in points.
pub const FINGER: i32 = 48;

/// What the strip of tabs spends on the three buttons at its end.
pub fn spent() -> (r: i32)
    ensures
        r == (FINGER + strip::GAP) * 3,
{
    (FINGER + strip::GAP) * 3
}

/// How far along a row its words start after what is drawn at its front:
/// a picture and a gap either side of it, or nothing.
pub open spec fn beside_the_words_of(picture: Picture) -> int {
    match picture {
        Picture::Space | Picture::Named(_) | Picture::At(_) => strip::PICTURE + strip::GAP * 2,
        Picture::Sleeve(Some(_)) => strip::PICTURE + strip::GAP * 2,
        _ => 0,
    }
}

/// How far along a row its words start.
pub fn beside_the_words(picture: &Picture) -> (r: i32)
    ensures
        r == beside_the_words_of(*picture),
{
    match picture {
        Picture::Space | Picture::Named(_) | Picture::At(_) => strip::PICTURE + strip::GAP * 2,
        Picture::Sleeve(Some(_)) => strip::PICTURE + strip::GAP * 2,
        _ => 0,
    }
}

/// The file a row's picture is drawn from, when it is a picture that is
/// made small before it is drawn: a picture at a file, or a sleeve.
pub fn wanted_of(picture: &Picture) -> (r: Option<&str>)
    ensures
        match *picture {
            Picture::At(p) => r matches Some(s) && s@ == p@,
            Picture::Sleeve(Some(p)) => r matches Some(s) && s@ == p@,
            _ => r is None,
        },
{
    match picture {
        Picture::At(p) => Some(p.as_str()),
        Picture::Sleeve(Some(p)) => Some(p.as_str()),
        _ => None,
    }
}

/// The file a row is looking at, when it shows a picture or plays a film.
pub fn looked_at(picture: &Picture) -> (r: Option<&str>)
    ensures
        match *picture {
            Picture::Showing(Some(p)) => r matches Some(s) && s@ == p@,
            Picture::Playing(Some(p)) => r matches Some(s) && s@ == p@,
            _ => r is None,
        },
{
    match picture {
        Picture::Showing(Some(p)) => Some(p.as_str()),
        Picture::Playing(Some(p)) => Some(p.as_str()),
        _ => None,
    }
}

/// The file a row shows still, when it shows a picture.
pub fn still_of(picture: &Picture) -> (r: Option<&str>)
    ensures
        match *picture {
            Picture::Showing(Some(p)) => r matches Some(s) && s@ == p@,
            _ => r is None,
        },
{
    match picture {
        Picture::Showing(Some(p)) => Some(p.as_str()),
        _ => None,
    }
}

/// How big the surface a panel is drawn on is.
#[derive(Debug, Clone, Copy, PartialEq, Eq, Structural)]
pub struct SurfaceSize {
    pub width: i32,
    pub height: i32,
}

/// Where the card stands on the surface, and how big it is.
#[derive(Debug, Clone, Copy, PartialEq, Eq, Structural)]
pub struct Card {
    pub x: i32,
    pub y: i32,
    pub width: i32,
    pub height: i32,
}

/// Where the card stands: the whole surface when it is opened out or the
/// panel is the whole screen, and otherwise the card's share of the surface
/// in the middle of it.
pub open spec fn card_on_of(surface: SurfaceSize, opened: Opened, framing: Framing) -> Card {
    if opened == Opened::Expanded || framing == Framing::Screen {
        Card { x: 0, y: 0, width: surface.width, height: surface.height }
    } else {
        let wide = crate::shape::share_of(surface.width as int, crate::shape::PART as int);
        let tall = crate::shape::share_of(surface.height as int, crate::shape::TALL as int);
        Card {
            x: strip::quotient(crate::measure::clamp_i32(surface.width - wide), 2) as i32,
            y: strip::quotient(crate::measure::clamp_i32(surface.height - tall), 2) as i32,
            width: wide as i32,
            height: tall as i32,
        }
    }
}

/// Where the card stands on a surface this big.
pub fn card_on(surface: SurfaceSize, opened: Opened, framing: Framing) -> (r: Card)
    ensures
        r == card_on_of(surface, opened, framing),
{
    if opened == Opened::Expanded || framing == Framing::Screen {
        return Card { x: 0, y: 0, width: surface.width, height: surface.height };
    }
    let wide = crate::shape::part_of(surface.width);
    let tall = crate::shape::tall_part_of(surface.height);
    let x = crate::measure::less(surface.width, wide) / 2;
    let y = crate::measure::less(surface.height, tall) / 2;
    Card { x, y, width: wide, height: tall }
}

/// Where the highlight stands on a card: on the way out or not, which tab is
/// in front, which row it is on, whether the card is opened out, how far the
/// rows are scrolled, whether it stands beside its row, which button of a
/// strip it stands on, and what is selected.
#[derive(Debug, Clone, PartialEq, Eq)]
pub struct Steering {
    pub leaving: Leaving,
    pub here: u32,
    pub at: Option<u32>,
    pub opened: Opened,
    pub scroll: i32,
    pub beside: Beside,
    pub pressing: Option<(u32, u32)>,
    pub selected: Vec<String>,
}

/// Where the highlight stands, with what is selected as characters.
pub struct Steered {
    pub leaving: Leaving,
    pub here: u32,
    pub at: Option<u32>,
    pub opened: Opened,
    pub scroll: i32,
    pub beside: Beside,
    pub pressing: Option<(u32, u32)>,
    pub selected: Seq<Seq<char>>,
}

impl View for Steering {
    type V = Steered;

    open spec fn view(&self) -> Steered {
        Steered {
            leaving: self.leaving,
            here: self.here,
            at: self.at,
            opened: self.opened,
            scroll: self.scroll,
            beside: self.beside,
            pressing: self.pressing,
            selected: self.selected@.map_values(|k: String| k@),
        }
    }
}

/// Where the highlight stands on a card just opened on the tab `here`: on no
/// row, nothing opened out, scrolled to the top, nothing selected.
pub open spec fn opened_at(here: u32) -> Steered {
    Steered {
        leaving: Leaving::No,
        here,
        at: None,
        opened: Opened::No,
        scroll: 0,
        beside: Beside::No,
        pressing: None,
        selected: Seq::empty(),
    }
}

impl Steering {
    /// Where the highlight stands on a card just opened on the tab `here`.
    pub fn new(here: u32) -> (s: Steering)
        ensures
            s@ == opened_at(here),
    {
        let s = Steering {
            leaving: Leaving::No,
            here,
            at: None,
            opened: Opened::No,
            scroll: 0,
            beside: Beside::No,
            pressing: None,
            selected: Vec::new(),
        };
        assert(s@.selected =~= Seq::<Seq<char>>::empty());
        s
    }
}

/// The last button of a strip of `many`, held inside what a `u32` holds.
pub open spec fn last_press(many: nat) -> u32 {
    if many == 0 {
        0
    } else if many - 1 > u32::MAX {
        u32::MAX
    } else {
        (many - 1) as u32
    }
}

/// The last button of a strip of `many`.
fn last_of_strip(many: usize) -> (r: u32)
    ensures
        r == last_press(many as nat),
{
    if many == 0 {
        0
    } else if many - 1 > u32::MAX as usize {
        u32::MAX
    } else {
        (many - 1) as u32
    }
}

/// The smaller of two.
pub open spec fn least(a: u32, b: u32) -> u32 {
    if a <= b {
        a
    } else {
        b
    }
}

/// Which button of the strip on `row`, the row at `at`, the highlight stands
/// on: the one it was walked to on this row, or else the one the row asked
/// for, held at the last; nought on a row with no strip.
pub open spec fn pressed_of(s: Steered, at: u32, row: Row) -> u32 {
    match row.buttons {
        None => 0,
        Some(across) => {
            let last = last_press(across.presses@.len());
            match s.pressing {
                Some(p) => if p.0 == at {
                    least(p.1, last)
                } else {
                    least(across.at, last)
                },
                None => least(across.at, last),
            }
        },
    }
}

/// Which button of the strip on `row` the highlight stands on.
pub fn pressed(state: &Steering, at: u32, row: &Row) -> (r: u32)
    ensures
        r == pressed_of(state@, at, *row),
{
    let across = match &row.buttons {
        Some(across) => across,
        None => return 0,
    };
    let last = last_of_strip(across.presses.len());
    let which = match state.pressing {
        Some(p) => if p.0 == at {
            p.1
        } else {
            across.at
        },
        None => across.at,
    };
    if which <= last {
        which
    } else {
        last
    }
}

/// The row at `at` of `rows`, if there is one.
pub open spec fn row_at(rows: Seq<Row>, at: u32) -> Option<Row> {
    if at < rows.len() {
        Some(rows[at as int])
    } else {
        None
    }
}

/// Where the highlight stands once it has landed on the row at `landed`: a
/// button walked to on a strip is kept, held at the new strip's last, and
/// is on the new row.
pub open spec fn column_kept_of(s: Steered, rows: Seq<Row>, landed: u32) -> Steered {
    match (s.pressing, row_at(rows, landed)) {
        (Some(p), Some(row)) => match row.buttons {
            Some(across) => Steered {
                pressing: Some((landed, least(p.1, last_press(across.presses@.len())))),
                ..s
            },
            None => s,
        },
        _ => s,
    }
}

/// Keeps the button walked to as the highlight lands on another row.
pub fn column_kept(state: &mut Steering, rows: &Vec<Row>, landed: u32)
    ensures
        final(state)@ == column_kept_of(old(state)@, rows@, landed),
{
    if (landed as usize) < rows.len() {
        match (state.pressing, &rows[landed as usize].buttons) {
            (Some(p), Some(across)) => {
                let last = last_of_strip(across.presses.len());
                let which = if p.1 <= last {
                    p.1
                } else {
                    last
                };
                state.pressing = Some((landed, which));
            },
            _ => {},
        }
    }
}

/// Where the highlight stands once the tab `which` is put in front: on no
/// row of it, nothing opened out, scrolled to the top, nothing selected.
pub open spec fn stood_on_of(s: Steered, which: u32) -> Steered {
    Steered {
        opened: Opened::No,
        leaving: Leaving::No,
        here: which,
        at: None,
        scroll: 0,
        beside: Beside::No,
        selected: Seq::empty(),
        ..s
    }
}

/// Puts the tab `which` in front.
pub fn stood_on(state: &mut Steering, which: u32)
    ensures
        final(state)@ == stood_on_of(old(state)@, which),
{
    state.opened = Opened::No;
    state.leaving = Leaving::No;
    state.here = which;
    state.at = None;
    state.scroll = 0;
    state.beside = Beside::No;
    state.selected = Vec::new();
    assert(state@.selected =~= Seq::<Seq<char>>::empty());
}

/// Whether `row` can be selected under `key`.
pub open spec fn key_is(row: Row, key: Seq<char>) -> bool {
    match row.key {
        Some(k) => k@ == key,
        None => false,
    }
}

/// Whether some row of `rows` can be selected under `key`.
pub open spec fn keyed(rows: Seq<Row>, key: Seq<char>) -> bool {
    exists|i: int| 0 <= i < rows.len() && key_is(#[trigger] rows[i], key)
}

/// Whether something selected is still on the card: the key of some row of
/// `rows`.
pub open spec fn still_any(selected: Seq<Seq<char>>, rows: Seq<Row>) -> bool {
    exists|j: int| 0 <= j < selected.len() && keyed(rows, #[trigger] selected[j])
}

/// Whether some row of `rows` can be selected under `key`.
fn is_keyed(rows: &Vec<Row>, key: &String) -> (r: bool)
    ensures
        r == keyed(rows@, key@),
{
    let wanted = text::letters(key.as_str());
    let mut i: usize = 0;
    while i < rows.len()
        invariant
            i <= rows@.len(),
            wanted@ == key@,
            forall|j: int| 0 <= j < i ==> !key_is(#[trigger] rows@[j], key@),
        decreases rows.len() - i,
    {
        match &rows[i].key {
            Some(k) => {
                if text::same(&text::letters(k.as_str()), &wanted) {
                    assert(key_is(rows@[i as int], key@));
                    return true;
                }
            },
            None => {},
        }
        i += 1;
    }
    false
}

/// Whether the page in front is selecting, given whether it acts on a
/// selection at all: it does, and something selected is still on it.
pub fn selecting(state: &Steering, rows: &Vec<Row>, selects: bool) -> (r: Selecting)
    ensures
        r == (if selects && still_any(state@.selected, rows@) {
            Selecting::Yes
        } else {
            Selecting::No
        }),
{
    if !selects {
        return Selecting::No;
    }
    let mut j: usize = 0;
    while j < state.selected.len()
        invariant
            selects,
            j <= state.selected@.len(),
            forall|m: int| 0 <= m < j ==> !keyed(rows@, #[trigger] state@.selected[m]),
        decreases state.selected.len() - j,
    {
        if is_keyed(rows, &state.selected[j]) {
            assert(keyed(rows@, state@.selected[j as int]));
            return Selecting::Yes;
        }
        j += 1;
    }
    Selecting::No
}

/// Where the highlight lands walked from `at` by `step`, as a row index:
/// from before the first row when it is on none.
pub open spec fn landed_of(rows: Seq<Row>, at: Option<u32>, step: i32) -> u32 {
    let from: i32 = match at {
        Some(a) => held_i32(a as int) as i32,
        None => -1i32,
    };
    let going = walked_of(rows, from, step);
    if going < 0 {
        0
    } else {
        going as u32
    }
}

/// Whether walking from `at` by `step` could never land: a step of nothing
/// from a heading.
pub open spec fn stuck(rows: Seq<Row>, at: Option<u32>, step: i32) -> bool {
    step == 0 && match at {
        Some(a) => held_i32(a as int) < rows.len() && heading_of(rows[held_i32(a as int)]),
        None => false,
    }
}

/// What left and right do on a strip of buttons: walk along it, held at
/// both ends.
pub open spec fn walked_strip_of(s: Steered, at: u32, row: Row, step: i32) -> (Steered, Outcome) {
    let from = pressed_of(s, at, row);
    let last = match row.buttons {
        Some(across) => last_press(across.presses@.len()),
        None => 0,
    };
    let going: u32 = if step > 0 {
        if from < last {
            (from + 1) as u32
        } else {
            last
        }
    } else if from == 0 {
        0
    } else {
        (from - 1) as u32
    };
    (
        Steered { pressing: Some((at, going)), ..s },
        if going == from {
            Outcome::Nothing
        } else {
            Outcome::Redrawn
        },
    )
}

/// Whether a row wears the mark for what else it offers.
pub open spec fn wears_of(row: Row) -> Wears {
    if row.more && !page::bare_of(row) {
        Wears::WhatElse
    } else {
        Wears::Nothing
    }
}

/// Whether a row holds a level.
pub open spec fn holds_of(row: Row) -> Holds {
    if row.level {
        Holds::Level
    } else {
        Holds::Nothing
    }
}

/// What left and right do on a row with no strip: stand beside it, come
/// back from beside it, move its level, or nothing.
pub open spec fn nudged_row_of(s: Steered, at: u32, row: Row, step: i32) -> (Steered, Outcome) {
    match nudged_of(s.beside, wears_of(row), holds_of(row), step) {
        Nudged::Stand => (Steered { beside: Beside::Yes, ..s }, Outcome::Redrawn),
        Nudged::Back => (Steered { beside: Beside::No, ..s }, Outcome::Redrawn),
        Nudged::Nothing => (s, Outcome::Nothing),
        Nudged::Level => (
            s,
            if row.level {
                Outcome::Leveled(at, step)
            } else {
                Outcome::Nothing
            },
        ),
    }
}

/// What left and right do to the row the highlight is on.
pub open spec fn nudge_of(s: Steered, rows: Seq<Row>, step: i32) -> (Steered, Outcome) {
    match s.at {
        None => (s, Outcome::Nothing),
        Some(at) => match row_at(rows, at) {
            None => (s, Outcome::Nothing),
            Some(row) => if row.buttons is Some {
                walked_strip_of(s, at, row, step)
            } else {
                nudged_row_of(s, at, row, step)
            },
        },
    }
}

/// What B does: put down what is selected, else close the picture opened
/// out, else put the panel away.
pub open spec fn closed_of(s: Steered, rows: Seq<Row>, selects: bool) -> (Steered, Outcome) {
    if selects && still_any(s.selected, rows) {
        (Steered { selected: Seq::empty(), ..s }, Outcome::Redrawn)
    } else if s.opened == Opened::Expanded {
        (Steered { opened: Opened::No, ..s }, Outcome::Redrawn)
    } else {
        (s, Outcome::Closing)
    }
}

/// What up and down do: walk to the next row that is no heading, off the
/// side of the row, keeping the button walked to on a strip.
pub open spec fn stepped_of(s: Steered, rows: Seq<Row>, step: i32) -> (Steered, Outcome) {
    let landed = landed_of(rows, s.at, step);
    (
        column_kept_of(Steered { at: Some(landed), beside: Beside::No, ..s }, rows, landed),
        Outcome::Redrawn,
    )
}

/// What the shoulders do: walk the tabs, and past the last onto the way out.
pub open spec fn turned_of(s: Steered, tabs: u32, step: i32) -> (Steered, Outcome) {
    let from = if s.leaving == Leaving::Standing {
        Stop::Outside
    } else {
        Stop::Tab(s.here)
    };
    match along_of(tabs, from, step) {
        Stop::Outside => (Steered { leaving: Leaving::Standing, ..s }, Outcome::Redrawn),
        Stop::Tab(index) => (stood_on_of(s, index), Outcome::Redrawn),
    }
}

/// What A does: beside a row, ask what else it offers and come back from
/// beside it; on a row, choose it.
pub open spec fn chosen_of(s: Steered) -> (Steered, Outcome) {
    match s.at {
        Some(at) => if s.beside == Beside::Yes {
            (Steered { beside: Beside::No, ..s }, Outcome::Else(at))
        } else {
            (s, Outcome::Chose(at))
        },
        None => (s, Outcome::Nothing),
    }
}

/// What a key means to where the highlight stands, once it is not on the way
/// out past the tabs.
pub open spec fn told_on(
    s: Steered,
    meaning: Meaning,
    rows: Seq<Row>,
    tabs: u32,
    selects: bool,
) -> (Steered, Outcome) {
    match meaning {
        Meaning::Nothing => (s, Outcome::Nothing),
        Meaning::Close | Meaning::Abandon => closed_of(s, rows, selects),
        Meaning::Step(step) => stepped_of(s, rows, step),
        Meaning::Tab(step) => turned_of(s, tabs, step),
        Meaning::Nudge(step) => nudge_of(s, rows, step),
        Meaning::Choose => chosen_of(s),
        Meaning::More => match s.at {
            Some(at) => (s, Outcome::Else(at)),
            None => (s, Outcome::Nothing),
        },
    }
}

/// What a key means to where the highlight stands on a card of `tabs` tabs,
/// the tab in front showing `rows` and acting on a selection when `selects`
/// says so: on the way out, A puts the panel away and any other step comes
/// back off it; elsewhere it is as `told_on` says.
pub open spec fn told_of(
    s: Steered,
    meaning: Meaning,
    rows: Seq<Row>,
    tabs: u32,
    selects: bool,
) -> (Steered, Outcome) {
    if s.leaving == Leaving::Standing && meaning == Meaning::Choose {
        (s, Outcome::Closing)
    } else if s.leaving == Leaving::Standing && (meaning is Step || meaning is Nudge
        || meaning is More) {
        (Steered { leaving: Leaving::No, ..s }, Outcome::Redrawn)
    } else {
        told_on(s, meaning, rows, tabs, selects)
    }
}

/// Y asks the row the highlight is on what else it offers and never chooses
/// it: where the highlight stands is left as it was, and on no row Y does
/// nothing; on the way out past the tabs it only comes back off it.
pub proof fn lemma_y_asks_a_row_what_else_it_offers(
    s: Steered,
    rows: Seq<Row>,
    tabs: u32,
    selects: bool,
)
    ensures
        s.leaving == Leaving::No ==> told_of(s, Meaning::More, rows, tabs, selects) == (match s.at {
            Some(at) => (s, Outcome::Else(at)),
            None => (s, Outcome::Nothing),
        }),
        s.leaving == Leaving::Standing ==> told_of(s, Meaning::More, rows, tabs, selects) == (
            Steered { leaving: Leaving::No, ..s },
            Outcome::Redrawn,
        ),
        !(told_of(s, Meaning::More, rows, tabs, selects).1 is Chose),
{
}

/// Where the highlight lands walked from `at` by `step`.
fn landed(rows: &Vec<Row>, at: Option<u32>, step: i32) -> (r: u32)
    requires
        rows@.len() <= i32::MAX,
        !stuck(rows@, at, step),
    ensures
        r == landed_of(rows@, at, step),
{
    let from: i32 = match at {
        Some(a) => if a > i32::MAX as u32 {
            i32::MAX
        } else {
            a as i32
        },
        None => -1,
    };
    let going = page::walked(rows, from, Step(step));
    if going < 0 {
        0
    } else {
        going as u32
    }
}

/// What left and right do to the row the highlight is on.
fn nudge(state: &mut Steering, rows: &Vec<Row>, step: i32) -> (r: Outcome)
    ensures
        (final(state)@, r) == nudge_of(old(state)@, rows@, step),
{
    let at = match state.at {
        Some(at) => at,
        None => return Outcome::Nothing,
    };
    if at as usize >= rows.len() {
        return Outcome::Nothing;
    }
    let row = &rows[at as usize];
    match &row.buttons {
        Some(across) => {
            let from = pressed(state, at, row);
            let last = last_of_strip(across.presses.len());
            let going: u32 = if step > 0 {
                if from < last {
                    from + 1
                } else {
                    last
                }
            } else if from == 0 {
                0
            } else {
                from - 1
            };
            state.pressing = Some((at, going));
            if going == from {
                Outcome::Nothing
            } else {
                Outcome::Redrawn
            }
        },
        None => {
            let wears = page::wears(row);
            let holds = page::holds(row);
            match page::nudged(state.beside, wears, holds, step) {
                Nudged::Stand => {
                    state.beside = Beside::Yes;
                    Outcome::Redrawn
                },
                Nudged::Back => {
                    state.beside = Beside::No;
                    Outcome::Redrawn
                },
                Nudged::Nothing => Outcome::Nothing,
                Nudged::Level => if row.level {
                    Outcome::Leveled(at, step)
                } else {
                    Outcome::Nothing
                },
            }
        },
    }
}

/// What a key means to where the highlight stands on a card of `tabs` tabs,
/// the tab in front showing `rows` and acting on a selection when `selects`
/// says so: where the highlight then stands, and what the card is asked to
/// do.
///
/// Up or down by nothing from a heading would never land, so it is not
/// asked for.
pub fn told(state: &mut Steering, meaning: Meaning, rows: &Vec<Row>, tabs: u32, selects: bool) -> (r:
    Outcome)
    requires
        rows@.len() <= i32::MAX,
        old(state).leaving == Leaving::No ==> (meaning matches Meaning::Step(step) ==> !stuck(
            rows@,
            old(state).at,
            step,
        )),
    ensures
        (final(state)@, r) == told_of(old(state)@, meaning, rows@, tabs, selects),
{
    if state.leaving == Leaving::Standing {
        match meaning {
            Meaning::Choose => return Outcome::Closing,
            Meaning::Step(_) | Meaning::Nudge(_) | Meaning::More => {
                state.leaving = Leaving::No;
                return Outcome::Redrawn;
            },
            _ => {},
        }
    }
    match meaning {
        Meaning::Nothing => Outcome::Nothing,
        Meaning::Close | Meaning::Abandon => {
            if selecting(state, rows, selects) == Selecting::Yes {
                state.selected = Vec::new();
                assert(state@.selected =~= Seq::<Seq<char>>::empty());
                Outcome::Redrawn
            } else if state.opened == Opened::Expanded {
                state.opened = Opened::No;
                Outcome::Redrawn
            } else {
                Outcome::Closing
            }
        },
        Meaning::Step(step) => {
            let landed = landed(rows, state.at, step);
            state.at = Some(landed);
            state.beside = Beside::No;
            column_kept(state, rows, landed);
            Outcome::Redrawn
        },
        Meaning::Tab(step) => {
            let from = if state.leaving == Leaving::Standing {
                Stop::Outside
            } else {
                Stop::Tab(state.here)
            };
            match strip::along(tabs, from, step) {
                Stop::Outside => state.leaving = Leaving::Standing,
                Stop::Tab(index) => stood_on(state, index),
            }
            Outcome::Redrawn
        },
        Meaning::Nudge(step) => nudge(state, rows, step),
        Meaning::Choose => match state.at {
            Some(at) => if state.beside == Beside::Yes {
                state.beside = Beside::No;
                Outcome::Else(at)
            } else {
                Outcome::Chose(at)
            },
            None => Outcome::Nothing,
        },
        Meaning::More => match state.at {
            Some(at) => Outcome::Else(at),
            None => Outcome::Nothing,
        },
    }
}

/// A walk either stays where it was or lands on a row of the list that is
/// no heading.
proof fn lemma_walk_on_lands(rows: Seq<Row>, last: int, at: int, next: int, step: int)
    ensures
        ({
            let r = page::walk_on(rows, last, at, next, step);
            r == at || (0 <= r <= last && r < rows.len() && !heading_of(rows[r]))
        }),
    decreases page::walk_left(last, next, step),
{
    if !(next < 0 || next > last || next >= rows.len()) && heading_of(rows[next]) && !(step == 0
        || next + step > i32::MAX) {
        lemma_walk_on_lands(rows, last, at, held_i32(next + step), step);
    }
}

/// Up and down either leave the highlight where it was or land it on a row
/// that is no heading: the name of what a list is about, and a line saying
/// the list is empty, are stepped over.
pub proof fn lemma_a_step_lands_on_a_row_or_stays(rows: Seq<Row>, at: i32, step: i32)
    ensures
        walked_of(rows, at, step) == at || (0 <= walked_of(rows, at, step) < rows.len()
            && !heading_of(rows[walked_of(rows, at, step)])),
{
    lemma_walk_on_lands(rows, page::last_of(rows), at as int, held_i32(at + step), step as int);
}

/// B puts a selection down before it closes anything: while something
/// selected is still on a page that acts on a selection, B clears the
/// selection, leaves the card up and changes nothing else.
pub proof fn lemma_b_puts_a_selection_down_first(s: Steered, rows: Seq<Row>, tabs: u32)
    requires
        s.leaving == Leaving::No,
        still_any(s.selected, rows),
    ensures
        told_of(s, Meaning::Close, rows, tabs, true) == (
            Steered { selected: Seq::empty(), ..s },
            Outcome::Redrawn,
        ),
{
}

/// B over a picture opened out puts the picture away and not the panel.
pub proof fn lemma_b_over_a_picture_puts_the_picture_away(
    s: Steered,
    rows: Seq<Row>,
    tabs: u32,
    selects: bool,
)
    requires
        s.leaving == Leaving::No,
        s.opened == Opened::Expanded,
        !(selects && still_any(s.selected, rows)),
    ensures
        told_of(s, Meaning::Close, rows, tabs, selects) == (
            Steered { opened: Opened::No, ..s },
            Outcome::Redrawn,
        ),
{
}

/// A panel is put away by B only with nothing selected and nothing opened
/// out, and by A only on the way out past the tabs.
pub proof fn lemma_what_puts_a_panel_away(
    s: Steered,
    meaning: Meaning,
    rows: Seq<Row>,
    tabs: u32,
    selects: bool,
)
    ensures
        told_of(s, meaning, rows, tabs, selects).1 == Outcome::Closing <==> (
            (s.leaving == Leaving::Standing && meaning == Meaning::Choose) || ((meaning
                == Meaning::Close || meaning == Meaning::Abandon) && !(selects && still_any(
                s.selected,
                rows,
            )) && s.opened == Opened::No)),
{
}

/// A tab turned to opens with the highlight on no row of it, nothing opened
/// out, scrolled to the top and nothing selected.
pub proof fn lemma_a_tab_turned_to_starts_afresh(s: Steered, rows: Seq<Row>, tabs: u32, step: i32)
    ensures
        told_of(s, Meaning::Tab(step), rows, tabs, false).0.leaving == Leaving::No ==> {
            let t = told_of(s, Meaning::Tab(step), rows, tabs, false).0;
            &&& t.at is None
            &&& t.opened == Opened::No
            &&& t.scroll == 0
            &&& t.beside == Beside::No
            &&& t.selected.len() == 0
        },
{
}

/// A key that means nothing changes nothing.
pub proof fn lemma_nothing_changes_nothing(s: Steered, rows: Seq<Row>, tabs: u32, selects: bool)
    ensures
        told_of(s, Meaning::Nothing, rows, tabs, selects) == (s, Outcome::Nothing),
{
}

/// The row a key stepped the highlight onto: the row it stands on after an
/// up or down that moved it, and otherwise none.
pub fn stepped_onto(meaning: Meaning, before: Option<u32>, state: &Steering) -> (r: Option<u32>)
    ensures
        r == (if meaning is Step && state.at != before {
            state.at
        } else {
            None
        }),
{
    let moved = if state.at == before {
        None
    } else {
        state.at
    };
    match meaning {
        Meaning::Step(_) => moved,
        _ => None,
    }
}

/// The room the rows are scrolled in, and how far down they are scrolled.
#[derive(Debug, Clone, Copy, PartialEq, Eq, Structural)]
pub struct Viewport {
    pub room: i32,
    pub y: i32,
}

/// How far the rows are scrolled once the row at `at` is brought into
/// view: up to its top when it is above the view, down to its foot when it
/// is below, and otherwise where they were.
pub open spec fn scrolled_of(at: Option<u32>, viewport: Viewport) -> int {
    match at {
        None => 0,
        Some(a) => {
            let top = crate::measure::clamp_i32(held_i32(a as int) * crate::fitting::ROW);
            let under = crate::measure::clamp_i32(top + crate::fitting::ROW);
            if top < viewport.y {
                top
            } else if under > crate::measure::clamp_i32(viewport.y + viewport.room) {
                crate::measure::clamp_i32(under - viewport.room)
            } else {
                viewport.y as int
            }
        },
    }
}

/// How far the rows are scrolled once the row at `at` is brought into view.
pub fn scrolled(at: Option<u32>, viewport: Viewport) -> (r: i32)
    ensures
        r == scrolled_of(at, viewport),
{
    let at = match at {
        Some(at) => at,
        None => return 0,
    };
    let index: i32 = if at > i32::MAX as u32 {
        i32::MAX
    } else {
        at as i32
    };
    let top = crate::measure::times(index, crate::fitting::ROW);
    let under = crate::measure::more(top, crate::fitting::ROW);
    if top < viewport.y {
        top
    } else if under > crate::measure::more(viewport.y, viewport.room) {
        crate::measure::less(under, viewport.room)
    } else {
        viewport.y
    }
}

/// Which answer of `answers` a question stands on once left or right has
/// leaned it by `step`: held at the first and the last.
pub open spec fn leaned_of(at: u32, answers: nat, step: i32) -> u32 {
    let last: int = if answers == 0 {
        0
    } else {
        held_i32(answers - 1)
    };
    let moved = crate::measure::clamp_i32(held_i32(at as int) + step);
    (if moved < 0 {
        0
    } else if moved > last {
        last
    } else {
        moved
    }) as u32
}

/// Which answer a question stands on once it is leaned by `step`.
pub fn leaned(at: u32, answers: usize, step: i32) -> (r: u32)
    ensures
        r == leaned_of(at, answers as nat, step),
{
    let last: i32 = if answers == 0 {
        0
    } else if answers - 1 > i32::MAX as usize {
        i32::MAX
    } else {
        (answers - 1) as i32
    };
    let at: i32 = if at > i32::MAX as u32 {
        i32::MAX
    } else {
        at as i32
    };
    let moved = crate::measure::more(at, step);
    if moved < 0 {
        0
    } else if moved > last {
        last as u32
    } else {
        moved as u32
    }
}

/// Whether the row `row` is selected.
pub fn selected_of(state: &Steering, row: &Row) -> (r: Selected)
    ensures
        r == (if (match row.key {
            Some(k) => state@.selected.contains(k@),
            None => false,
        }) {
            Selected::Yes
        } else {
            Selected::No
        }),
{
    let key = match &row.key {
        Some(key) => text::letters(key.as_str()),
        None => return Selected::No,
    };
    let mut j: usize = 0;
    while j < state.selected.len()
        invariant
            j <= state.selected@.len(),
            row.key matches Some(k) && key@ == k@,
            forall|m: int| 0 <= m < j ==> #[trigger] state@.selected[m] != key@,
        decreases state.selected.len() - j,
    {
        if text::same(&text::letters(state.selected[j].as_str()), &key) {
            assert(state@.selected[j as int] == key@);
            return Selected::Yes;
        }
        j += 1;
    }
    Selected::No
}

/// What is selected once `key` is marked or unmarked: unmarked, every time
/// it was marked, when it was, and otherwise marked after the rest.
pub open spec fn toggled_of(selected: Seq<Seq<char>>, key: Seq<char>) -> Seq<Seq<char>> {
    if selected.contains(key) {
        selected.filter(|k: Seq<char>| k != key)
    } else {
        selected.push(key)
    }
}

/// Marks the row selectable under `key`, or unmarks it.
pub fn toggled(state: &mut Steering, key: &str)
    ensures
        final(state)@.selected == toggled_of(old(state)@.selected, key@),
        final(state)@ == (Steered { selected: final(state)@.selected, ..old(state)@ }),
{
    let wanted = text::letters(key);
    let ghost was = state@.selected;
    let mut kept: Vec<String> = Vec::new();
    let mut found = false;
    let mut j: usize = 0;
    while j < state.selected.len()
        invariant
            j <= state.selected@.len(),
            wanted@ == key@,
            was == state@.selected,
            found == was.take(j as int).contains(key@),
            kept@.map_values(|k: String| k@) == was.take(j as int).filter(
                |k: Seq<char>| k != key@,
            ),
        decreases state.selected.len() - j,
    {
        let held = text::letters(state.selected[j].as_str());
        let ghost before = was.take(j as int);
        assert(was.take(j + 1) =~= before.push(was[j as int]));
        proof {
            reveal(Seq::filter);
            assert(before.push(was[j as int]).drop_last() =~= before);
            vstd::seq_lib::lemma_seq_contains_after_push(before, was[j as int], key@);
        }
        if text::same(&held, &wanted) {
            found = true;
        } else {
            let ghost had = kept@.map_values(|k: String| k@);
            kept.push(text::text(&held));
            assert(kept@.map_values(|k: String| k@) =~= had.push(was[j as int]));
        }
        j += 1;
    }
    assert(was.take(j as int) =~= was);
    if found {
        state.selected = kept;
    } else {
        let ghost had = state@.selected;
        state.selected.push(text::text(&wanted));
        assert(state@.selected =~= had.push(key@));
    }
}

/// Whether the point `(x, y)` is off the card.
pub open spec fn outside_of(card: Card, x: i32, y: i32) -> bool {
    !(x >= card.x && x < crate::measure::clamp_i32(card.x + card.width) && y >= card.y && y
        < crate::measure::clamp_i32(card.y + card.height))
}

/// Whether the point `(x, y)` is off the card.
pub fn outside(card: &Card, x: i32, y: i32) -> (r: bool)
    ensures
        r == outside_of(*card, x, y),
{
    let across = x >= card.x && x < crate::measure::more(card.x, card.width);
    let down = y >= card.y && y < crate::measure::more(card.y, card.height);
    !(across && down)
}

/// How many rows there are, held inside what an `i32` holds.
pub open spec fn many_of(rows: Seq<Row>) -> int {
    held_i32(rows.len() as int)
}

/// How far the rows are scrolled once a finger has scrolled them to `y`:
/// held between the top and the furthest the rows go.
pub open spec fn scroll_held(rows: Seq<Row>, viewport: Viewport) -> int {
    let furthest = crate::measure::clamp_i32(
        crate::measure::clamp_i32(many_of(rows) * crate::fitting::ROW) - viewport.room,
    );
    let furthest = if furthest < 0 {
        0
    } else {
        furthest
    };
    if viewport.y < 0 {
        0
    } else if viewport.y > furthest {
        furthest
    } else {
        viewport.y as int
    }
}

/// The first row wholly in view, scrolled `down`.
pub open spec fn first_seen(down: int) -> int {
    strip::quotient(
        crate::measure::clamp_i32(
            crate::measure::clamp_i32(down + crate::fitting::ROW) - 1,
        ),
        crate::fitting::ROW as int,
    )
}

/// The last row wholly in view, scrolled `down` in `room`.
pub open spec fn last_seen(down: int, room: i32) -> int {
    crate::measure::clamp_i32(
        strip::quotient(crate::measure::clamp_i32(down + room), crate::fitting::ROW as int) - 1,
    )
}

/// Where the highlight stands once a finger has scrolled the rows: the
/// scroll held inside the rows, and a highlight scrolled out of view brought
/// back onto the nearest row in view that is no heading.
pub open spec fn scrolled_to_of(s: Steered, rows: Seq<Row>, viewport: Viewport) -> Steered {
    let down = scroll_held(rows, viewport);
    let first = first_seen(down);
    let last = last_seen(down, viewport.room);
    let at = match s.at {
        Some(a) => held_i32(a as int),
        None => 0,
    };
    let scrolled = Steered { scroll: down as i32, ..s };
    if at < first {
        let wanted = walked_of(rows, crate::measure::clamp_i32(first - 1) as i32, 1i32);
        Steered {
            at: Some(
                if wanted < 0 {
                    0
                } else {
                    wanted as u32
                },
            ),
            beside: Beside::No,
            ..scrolled
        }
    } else if at > last {
        let wanted = walked_of(rows, crate::measure::clamp_i32(last + 1) as i32, -1i32);
        Steered {
            at: Some(
                if wanted < 0 {
                    0
                } else {
                    wanted as u32
                },
            ),
            beside: Beside::No,
            ..scrolled
        }
    } else {
        scrolled
    }
}

/// Where the highlight stands once a finger has scrolled the rows.
pub fn scrolled_to(state: &mut Steering, rows: &Vec<Row>, viewport: Viewport)
    requires
        rows@.len() <= i32::MAX,
    ensures
        final(state)@ == scrolled_to_of(old(state)@, rows@, viewport),
{
    let many: i32 = rows.len() as i32;
    let furthest = crate::measure::less(
        crate::measure::times(many, crate::fitting::ROW),
        viewport.room,
    );
    let furthest = if furthest < 0 {
        0
    } else {
        furthest
    };
    let down = if viewport.y < 0 {
        0
    } else if viewport.y > furthest {
        furthest
    } else {
        viewport.y
    };
    state.scroll = down;
    let first = crate::measure::less(crate::measure::more(down, crate::fitting::ROW), 1)
        / crate::fitting::ROW;
    let last = crate::measure::less(
        crate::measure::more(down, viewport.room) / crate::fitting::ROW,
        1,
    );
    let at: i32 = match state.at {
        Some(a) => if a > i32::MAX as u32 {
            i32::MAX
        } else {
            a as i32
        },
        None => 0,
    };
    assert(first == first_seen(down as int));
    assert(last == last_seen(down as int, viewport.room));
    let wanted = if at < first {
        page::walked(rows, crate::measure::less(first, 1), Step(1))
    } else if at > last {
        page::walked(rows, crate::measure::more(last, 1), Step(-1))
    } else {
        return ;
    };
    state.at = Some(
        if wanted < 0 {
            0
        } else {
            wanted as u32
        },
    );
    state.beside = Beside::No;
}

/// What is done with the row at `at` once it is chosen or asked what else
/// it offers.
#[derive(Debug, Clone, Copy, PartialEq, Eq, Structural)]
pub enum Acting {
    /// Nothing: the card stays as it is.
    Staying,
    /// Mark or unmark the row, which can be selected.
    Toggle,
    /// Ask what is to be done with what is selected.
    AskWhatToDo,
    /// Press the button of the row's strip at this index.
    Press(u32),
    /// Do what the row does.
    Does,
    /// Ask the row what else it offers.
    Offers,
}

/// Whether a row was chosen or asked what else it offers.
#[derive(Debug, Clone, Copy, PartialEq, Eq, Structural)]
pub enum Selection {
    Chose,
    Else,
}

/// What is done with the row at `at`: while selecting, choosing a row that
/// can be selected marks it and asking what else asks what to do with the
/// selection; otherwise choosing presses the button stood on, or does what
/// the row does, and asking what else asks the row, when it has something
/// of each.
pub open spec fn acting_of(
    s: Steered,
    rows: Seq<Row>,
    at: u32,
    what: Selection,
    selects: bool,
) -> Acting {
    match row_at(rows, at) {
        None => Acting::Staying,
        Some(row) => {
            let selecting = selects && still_any(s.selected, rows);
            if selecting && what == Selection::Chose && row.key is Some {
                Acting::Toggle
            } else if selecting && what == Selection::Else {
                Acting::AskWhatToDo
            } else {
                match what {
                    Selection::Chose => match row.buttons {
                        Some(across) => if pressed_of(s, at, row) < across.presses@.len() {
                            Acting::Press(pressed_of(s, at, row))
                        } else if row.does {
                            Acting::Does
                        } else {
                            Acting::Staying
                        },
                        None => if row.does {
                            Acting::Does
                        } else {
                            Acting::Staying
                        },
                    },
                    Selection::Else => if row.more {
                        Acting::Offers
                    } else {
                        Acting::Staying
                    },
                }
            }
        },
    }
}

/// What is done with the row at `at` once it is chosen or asked what else
/// it offers.
pub fn acting(state: &Steering, rows: &Vec<Row>, at: u32, what: Selection, selects: bool) -> (r:
    Acting)
    ensures
        r == acting_of(state@, rows@, at, what, selects),
{
    if at as usize >= rows.len() {
        return Acting::Staying;
    }
    let row = &rows[at as usize];
    let selecting = selecting(state, rows, selects) == Selecting::Yes;
    if selecting && what == Selection::Chose && row.key.is_some() {
        return Acting::Toggle;
    }
    if selecting && what == Selection::Else {
        return Acting::AskWhatToDo;
    }
    match what {
        Selection::Chose => match &row.buttons {
            Some(across) => {
                let which = pressed(state, at, row);
                if (which as usize) < across.presses.len() {
                    Acting::Press(which)
                } else if row.does {
                    Acting::Does
                } else {
                    Acting::Staying
                }
            },
            None => if row.does {
                Acting::Does
            } else {
                Acting::Staying
            },
        },
        Selection::Else => if row.more {
            Acting::Offers
        } else {
            Acting::Staying
        },
    }
}

/// The gap between the strip of tabs and the first row: five ninths of an em.
pub const OVER_ROWS: i32 = 10;

/// The count `n` held in an `i32`, stopped at its end.
pub open spec fn count_i32(n: int) -> int {
    crate::measure::clamp_i32(n)
}

/// `n` as an `i32`, stopped at its end.
fn fitted_i32(n: usize) -> (r: i32)
    ensures
        r == count_i32(n as int),
{
    if n > i32::MAX as usize {
        i32::MAX
    } else {
        n as i32
    }
}

/// `n` as a `u32`, stopped at its end.
fn fitted_u32(n: usize) -> (r: u32)
    ensures
        r == crate::measure::clamp_u32(n as int),
{
    if n > u32::MAX as usize {
        u32::MAX
    } else {
        n as u32
    }
}

/// Whether a row gives the list's room over to what it shows: a headline,
/// or a picture being looked at or played.
pub open spec fn takes_the_stage(row: Row) -> bool {
    row.headline is Some || row.picture is Showing || row.picture is Playing
}

/// How much room beyond its own the first row of `rows` is given in a list
/// `room` tall: what the rows leave over, when the first row takes the
/// stage, and none otherwise.
pub open spec fn stage_of(rows: Seq<Row>, room: i32) -> int {
    if rows.len() == 0 || !takes_the_stage(rows[0]) {
        0
    } else {
        let many = count_i32(rows.len() as int);
        crate::measure::larger(
            crate::measure::clamp_i32(room - crate::measure::clamp_i32(many * crate::fitting::ROW)),
            0,
        )
    }
}

/// How much room beyond its own the first row of `rows` is given.
pub fn stage(rows: &Vec<Row>, room: i32) -> (r: i32)
    ensures
        r == stage_of(rows@, room),
{
    if rows.len() == 0 {
        return 0;
    }
    let first = &rows[0];
    let takes = first.headline.is_some() || match first.picture {
        Picture::Showing(_) | Picture::Playing(_) => true,
        _ => false,
    };
    if !takes {
        return 0;
    }
    let many = fitted_i32(rows.len());
    let left = crate::measure::less(room, crate::measure::times(many, crate::fitting::ROW));
    if left >= 0 {
        left
    } else {
        0
    }
}

/// Where the list of rows starts down the card: at its top when it is opened
/// out, and otherwise under the strip of tabs, the gap over the rows and the
/// line typed into, when the page has one.
pub open spec fn rows_start_of(card: Card, opened: Opened, sought: bool) -> int {
    if opened == Opened::Expanded {
        card.y as int
    } else {
        let typed = if sought {
            crate::fitting::ROW
        } else {
            0
        };
        crate::measure::clamp_i32(
            crate::measure::clamp_i32(crate::measure::clamp_i32(card.y + crate::fitting::STRIP) + OVER_ROWS)
                + typed,
        )
    }
}

/// Where the list of rows starts down the card.
pub fn rows_start(card: &Card, opened: Opened, sought: bool) -> (r: i32)
    ensures
        r == rows_start_of(*card, opened, sought),
{
    if opened == Opened::Expanded {
        return card.y;
    }
    let typed = if sought {
        crate::fitting::ROW
    } else {
        0
    };
    crate::measure::more(
        crate::measure::more(crate::measure::more(card.y, crate::fitting::STRIP), OVER_ROWS),
        typed,
    )
}

/// Where the rows have to end down the card: its bottom, less a breath
/// unless it is opened out.
pub open spec fn rows_end_of(card: Card, opened: Opened) -> int {
    let breath = if opened == Opened::Expanded {
        0
    } else {
        crate::fitting::BREATH
    };
    crate::measure::clamp_i32(crate::measure::clamp_i32(card.y + card.height) - breath)
}

/// Where the rows have to end down the card.
pub fn rows_end(card: &Card, opened: Opened) -> (r: i32)
    ensures
        r == rows_end_of(*card, opened),
{
    let breath = if opened == Opened::Expanded {
        0
    } else {
        crate::fitting::BREATH
    };
    crate::measure::less(crate::measure::more(card.y, card.height), breath)
}

/// Where one row of a list stands: which row it is, its top and its height
/// down the card, and whether the whole of it is on the card, which is what
/// a hand can land on.
#[derive(Debug, Clone, Copy, PartialEq, Eq, Structural)]
pub struct Band {
    pub at: u32,
    pub top: i32,
    pub tall: i32,
    pub whole: bool,
}

/// How the rows of a list are laid down the card: where the list starts,
/// how much room the first row is given beyond its own, how far the list is
/// scrolled, and where the card ends.
#[derive(Debug, Clone, Copy, PartialEq, Eq, Structural)]
pub struct Laid {
    pub start: i32,
    pub stage: i32,
    pub scroll: i32,
    pub bottom: i32,
}

/// Where the row at `i` stands in a list laid as `laid`, whether or not any
/// of it is on the card: a row's height below the one before, the first row
/// the taller by the stage and the rest pushed down by it, and the whole
/// list raised by the scroll.
pub open spec fn band_of(i: int, laid: Laid) -> Band {
    let below = if i == 0 {
        0
    } else {
        laid.stage as int
    };
    let tall = if i == 0 {
        crate::measure::clamp_i32(crate::fitting::ROW + laid.stage)
    } else {
        crate::fitting::ROW as int
    };
    let down = crate::measure::clamp_i32(count_i32(i) * crate::fitting::ROW);
    let top = crate::measure::clamp_i32(
        crate::measure::clamp_i32(crate::measure::clamp_i32(laid.start + down) + below) - laid.scroll,
    );
    let bottom = crate::measure::clamp_i32(top + tall);
    Band {
        at: crate::measure::clamp_u32(i) as u32,
        top: top as i32,
        tall: tall as i32,
        whole: top >= laid.start && bottom <= laid.bottom,
    }
}

/// Whether any of `band` is on the card between where the list starts and
/// where the card ends.
pub open spec fn shows(band: Band, laid: Laid) -> bool {
    let bottom = crate::measure::clamp_i32(band.top + band.tall);
    !(bottom <= laid.start || band.top >= laid.bottom)
}

/// The rows of the first `n` of a list that show, in order.
pub open spec fn bands_of(n: nat, laid: Laid) -> Seq<Band>
    decreases n,
{
    if n == 0 {
        Seq::empty()
    } else {
        let before = bands_of((n - 1) as nat, laid);
        let band = band_of(n - 1, laid);
        if shows(band, laid) {
            before.push(band)
        } else {
            before
        }
    }
}

/// Where the row at `i` stands in a list laid as `laid`.
fn band(i: usize, laid: Laid) -> (r: Band)
    ensures
        r == band_of(i as int, laid),
{
    let below = if i == 0 {
        0
    } else {
        laid.stage
    };
    let tall = if i == 0 {
        crate::measure::more(crate::fitting::ROW, laid.stage)
    } else {
        crate::fitting::ROW
    };
    let down = crate::measure::times(fitted_i32(i), crate::fitting::ROW);
    let top = crate::measure::less(crate::measure::more(crate::measure::more(laid.start, down), below), laid.scroll);
    let bottom = crate::measure::more(top, tall);
    Band { at: fitted_u32(i), top, tall, whole: top >= laid.start && bottom <= laid.bottom }
}

/// The rows of a list of `many` that show on the card, in order, with where
/// each stands.
pub fn placed_rows(many: usize, laid: Laid) -> (r: Vec<Band>)
    ensures
        r@ == bands_of(many as nat, laid),
{
    let mut placed: Vec<Band> = Vec::new();
    let mut i: usize = 0;
    while i < many
        invariant
            i <= many,
            placed@ == bands_of(i as nat, laid),
        decreases many - i,
    {
        let b = band(i, laid);
        let bottom = crate::measure::more(b.top, b.tall);
        if !(bottom <= laid.start || b.top >= laid.bottom) {
            placed.push(b);
        }
        i += 1;
    }
    placed
}

/// Every row placed shows on the card, and every row a hand can land on is
/// wholly between where the list starts and where the card ends.
pub proof fn lemma_a_row_placed_is_on_the_card(n: nat, laid: Laid, k: int)
    requires
        0 <= k < bands_of(n, laid).len(),
    ensures
        shows(bands_of(n, laid)[k], laid),
        bands_of(n, laid)[k].whole ==> laid.start <= bands_of(n, laid)[k].top
            && crate::measure::clamp_i32(bands_of(n, laid)[k].top + bands_of(n, laid)[k].tall)
            <= laid.bottom,
    decreases n,
{
    if n > 0 {
        let before = bands_of((n - 1) as nat, laid);
        if k < before.len() {
            lemma_a_row_placed_is_on_the_card((n - 1) as nat, laid, k);
        }
    }
}

/// The rows placed come in the order of the list, each row once.
pub proof fn lemma_rows_are_placed_in_order(n: nat, laid: Laid, j: int, k: int)
    requires
        n <= u32::MAX,
        0 <= j < k < bands_of(n, laid).len(),
    ensures
        bands_of(n, laid)[j].at < bands_of(n, laid)[k].at,
    decreases n,
{
    if n > 0 {
        let m = (n - 1) as nat;
        let before = bands_of(m, laid);
        lemma_placed_rows_are_before(m, laid);
        if k < before.len() {
            lemma_rows_are_placed_in_order(m, laid, j, k);
        } else {
            assert(band_of(m as int, laid).at == m);
            assert(bands_of(n, laid)[j] == before[j]);
            assert(before[j].at < m);
        }
    }
}

/// Every row placed among the first `n` is one of them.
proof fn lemma_placed_rows_are_before(n: nat, laid: Laid)
    requires
        n <= u32::MAX,
    ensures
        forall|k: int| 0 <= k < bands_of(n, laid).len() ==> #[trigger] bands_of(n, laid)[k].at < n,
    decreases n,
{
    if n > 0 {
        let m = (n - 1) as nat;
        lemma_placed_rows_are_before(m, laid);
        let before = bands_of(m, laid);
        let band = band_of(m as int, laid);
        assert(band.at == m);
        assert forall|k: int| 0 <= k < bands_of(n, laid).len() implies #[trigger] bands_of(n, laid)[k].at < n by {
            if k < before.len() {
                assert(bands_of(n, laid)[k] == before[k]);
            }
        }
    }
}

/// A list with nothing scrolled and no stage, whose rows all fit on the
/// card, has each row a row's height under the one before it, and a hand
/// can land on every one of them.
pub proof fn lemma_rows_stand_a_row_apart(n: nat, laid: Laid, i: int)
    requires
        laid.stage == 0,
        laid.scroll == 0,
        0 <= laid.start,
        laid.start + n * crate::fitting::ROW <= laid.bottom,
        0 <= i < n,
    ensures
        bands_of(n, laid).len() == n,
        bands_of(n, laid)[i] == (Band {
            at: i as u32,
            top: (laid.start + i * crate::fitting::ROW) as i32,
            tall: crate::fitting::ROW,
            whole: true,
        }),
    decreases n,
{
    lemma_every_row_shows(n, laid);
}

/// In such a list every row shows, where it is said to stand.
proof fn lemma_every_row_shows(n: nat, laid: Laid)
    requires
        laid.stage == 0,
        laid.scroll == 0,
        0 <= laid.start,
        laid.start + n * crate::fitting::ROW <= laid.bottom,
    ensures
        bands_of(n, laid).len() == n,
        forall|i: int|
            0 <= i < n ==> #[trigger] bands_of(n, laid)[i] == (Band {
                at: i as u32,
                top: (laid.start + i * crate::fitting::ROW) as i32,
                tall: crate::fitting::ROW,
                whole: true,
            }),
    decreases n,
{
    if n > 0 {
        let m = (n - 1) as nat;
        assert(laid.start + m * crate::fitting::ROW <= laid.bottom) by (nonlinear_arith)
            requires
                laid.start + n * crate::fitting::ROW <= laid.bottom,
                m == n - 1,
        ;
        lemma_every_row_shows(m, laid);
        let i = m as int;
        assert(0 <= i * crate::fitting::ROW <= laid.bottom - laid.start - crate::fitting::ROW)
            by (nonlinear_arith)
            requires
                laid.start + n * crate::fitting::ROW <= laid.bottom,
                i == n - 1,
                0 <= i,
        ;
        assert(i <= i32::MAX);
        assert(crate::measure::clamp_u32(i) == i);
    }
}

/// How wide a press is when it shows an icon: a finger and a half.
pub const PRESS_WIDE: i32 = 72;

/// What the presses of a strip show, as far as how wide they are goes: a
/// swatch of colour, an icon, or words.
#[derive(Debug, Clone, Copy, PartialEq, Eq, Structural)]
pub enum PressFace {
    Swatch,
    Glyph,
    Written,
}

/// Where a strip of presses is laid: across from `from` to `to`, down from
/// `top` for `height`.
#[derive(Debug, Clone, Copy, PartialEq, Eq, Structural)]
pub struct PressRoom {
    pub from: i32,
    pub to: i32,
    pub top: i32,
    pub height: i32,
}

/// Where a press of a strip is drawn, which is where a finger lands on it.
#[derive(Debug, Clone, Copy, PartialEq, Eq, Structural)]
pub struct PressSpot {
    pub which: u32,
    pub x: i32,
    pub y: i32,
    pub wide: u32,
    pub tall: u32,
}

/// The gap between two presses.
pub open spec fn press_gap() -> int {
    2 * strip::GAP
}

/// How many of `presses` stand among the others rather than in the corner.
pub open spec fn among_count(presses: Seq<page::Press>) -> nat
    decreases presses.len(),
{
    if presses.len() == 0 {
        0
    } else {
        among_count(presses.drop_last()) + if presses.last().placed == page::Placed::Among {
            1nat
        } else {
            0nat
        }
    }
}

/// How wide each press is, with `many` of them among the others in `room`:
/// a finger for a swatch, a press's width for an icon, and for words the
/// room shared out between them, never narrower than a press with an icon.
pub open spec fn each_of(face: Option<PressFace>, many: int, room: int) -> int {
    match face {
        Some(PressFace::Swatch) => FINGER as int,
        Some(PressFace::Written) => if many == 0 {
            PRESS_WIDE as int
        } else {
            crate::measure::larger(
                strip::quotient(
                    crate::measure::clamp_i32(
                        room - crate::measure::clamp_i32(crate::measure::larger(many - 1, 0) * press_gap()),
                    ),
                    many,
                ),
                PRESS_WIDE as int,
            )
        },
        _ => PRESS_WIDE as int,
    }
}

/// The measures a strip of `presses` showing `face` is laid out by, in
/// `room`: how many stand among the others, how wide each is, where the
/// first of them stands, and where the one in the corner stands.
pub open spec fn press_measures(face: Option<PressFace>, presses: Seq<page::Press>, room: PressRoom) -> (
    int,
    int,
    int,
    int,
) {
    let many = crate::measure::clamp_i32(among_count(presses) as int);
    let wide = crate::measure::clamp_i32(room.to - room.from);
    let each = each_of(face, many, wide);
    let whole = crate::measure::clamp_i32(
        crate::measure::clamp_i32(many * each) + crate::measure::clamp_i32(
            crate::measure::larger(many - 1, 0) * press_gap(),
        ),
    );
    let first = crate::measure::clamp_i32(
        room.from + strip::quotient(crate::measure::larger(crate::measure::clamp_i32(wide - whole), 0), 2),
    );
    let corner = crate::measure::clamp_i32(room.to - each);
    (many, each, first, corner)
}

/// Where the press at `k` of `presses` stands across the strip, `step` of
/// them having stood among the others before it.
pub open spec fn press_x(
    face: Option<PressFace>,
    presses: Seq<page::Press>,
    room: PressRoom,
    k: int,
    step: int,
) -> int {
    let (many, each, first, corner) = press_measures(face, presses, room);
    if presses[k].placed == page::Placed::Corner {
        corner
    } else {
        crate::measure::clamp_i32(first + crate::measure::clamp_i32(step * crate::measure::clamp_i32(each + press_gap())))
    }
}

/// Where each of a strip of presses is drawn.
pub open spec fn press_spots_of(face: Option<PressFace>, presses: Seq<page::Press>, room: PressRoom) -> Seq<
    PressSpot,
> {
    let (many, each, first, corner) = press_measures(face, presses, room);
    Seq::new(
        presses.len(),
        |k: int|
            PressSpot {
                which: crate::measure::clamp_u32(k) as u32,
                x: press_x(face, presses, room, k, crate::measure::clamp_i32(among_count(presses.take(k)) as int))
                    as i32,
                y: crate::measure::clamp_i32(room.top + strip::GAP) as i32,
                wide: crate::measure::clamp_u32(crate::measure::larger(each, 0)) as u32,
                tall: crate::measure::clamp_u32(
                    crate::measure::larger(crate::measure::clamp_i32(room.height - press_gap()), 0),
                ) as u32,
            },
    )
}

/// `x` held in a `u32`, nought when it is below it.
fn across(x: i32) -> (r: u32)
    ensures
        r == crate::measure::clamp_u32(crate::measure::larger(x as int, 0)),
{
    if x < 0 {
        0
    } else {
        x as u32
    }
}

/// What the first of a strip of presses shows, as far as how wide they are
/// goes.
pub open spec fn face_kind(presses: Seq<page::Press>) -> Option<PressFace> {
    if presses.len() == 0 {
        None
    } else {
        match presses[0].face {
            page::Face::Glyph(_) => Some(PressFace::Glyph),
            page::Face::Written(_) => Some(PressFace::Written),
            page::Face::Swatch(_) => Some(PressFace::Swatch),
        }
    }
}

/// Where each of a strip of presses is drawn in `room`: those among the
/// others side by side in the middle, a gap between each two, each as wide
/// as what the first shows asks, and the one put in the corner at the far
/// end.
pub fn press_spots(presses: &Vec<page::Press>, room: PressRoom) -> (r: Vec<PressSpot>)
    ensures
        r@ == press_spots_of(face_kind(presses@), presses@, room),
{
    let face = if presses.len() == 0 {
        None
    } else {
        match &presses[0].face {
            page::Face::Glyph(_) => Some(PressFace::Glyph),
            page::Face::Written(_) => Some(PressFace::Written),
            page::Face::Swatch(_) => Some(PressFace::Swatch),
        }
    };
    let mut many_count: usize = 0;
    let mut j: usize = 0;
    while j < presses.len()
        invariant
            j <= presses@.len(),
            many_count == among_count(presses@.take(j as int)),
            many_count <= j,
        decreases presses.len() - j,
    {
        assert(presses@.take(j as int + 1).drop_last() =~= presses@.take(j as int));
        if presses[j].placed == page::Placed::Among {
            many_count += 1;
        }
        j += 1;
    }
    assert(presses@.take(presses@.len() as int) =~= presses@);
    let many = fitted_i32(many_count);
    let gap = 2 * strip::GAP;
    let wide = crate::measure::less(room.to, room.from);
    let spare = if many >= 1 {
        many - 1
    } else {
        0
    };
    let spaced = crate::measure::times(spare, gap);
    let each = match face {
        Some(PressFace::Swatch) => FINGER,
        Some(PressFace::Written) => if many == 0 {
            PRESS_WIDE
        } else {
            let shared = strip::divided(crate::measure::less(wide, spaced), many);
            if shared >= PRESS_WIDE {
                shared
            } else {
                PRESS_WIDE
            }
        },
        _ => PRESS_WIDE,
    };
    let whole = crate::measure::more(crate::measure::times(many, each), spaced);
    let left = crate::measure::less(wide, whole);
    let left = if left >= 0 {
        left
    } else {
        0
    };
    let first = crate::measure::more(room.from, left / 2);
    let corner = crate::measure::less(room.to, each);
    let stride = crate::measure::more(each, gap);
    let y = crate::measure::more(room.top, strip::GAP);
    let press_wide = across(each);
    let press_tall = across(crate::measure::less(room.height, gap));
    proof {
        assert(strip::quotient(left as int, 2) == left / 2);
    }
    let ghost measures = press_measures(face, presses@, room);
    assert(measures == (many as int, each as int, first as int, corner as int));
    let mut spots: Vec<PressSpot> = Vec::new();
    let mut step: usize = 0;
    let mut k: usize = 0;
    while k < presses.len()
        invariant
            k <= presses@.len(),
            step == among_count(presses@.take(k as int)),
            step <= k,
            measures == press_measures(face, presses@, room),
            measures == (many as int, each as int, first as int, corner as int),
            stride == crate::measure::clamp_i32(each + press_gap()),
            y == crate::measure::clamp_i32(room.top + strip::GAP),
            press_wide == crate::measure::clamp_u32(crate::measure::larger(each as int, 0)),
            press_tall == crate::measure::clamp_u32(
                crate::measure::larger(crate::measure::clamp_i32(room.height - press_gap()), 0),
            ),
            spots@ == press_spots_of(face, presses@, room).take(k as int),
        decreases presses.len() - k,
    {
        let x = match presses[k].placed {
            page::Placed::Corner => corner,
            page::Placed::Among => crate::measure::more(first, crate::measure::times(fitted_i32(step), stride)),
        };
        let spot = PressSpot { which: fitted_u32(k), x, y, wide: press_wide, tall: press_tall };
        assert(spot == press_spots_of(face, presses@, room)[k as int]);
        spots.push(spot);
        assert(presses@.take(k as int + 1).drop_last() =~= presses@.take(k as int));
        if presses[k].placed == page::Placed::Among {
            step += 1;
        }
        k += 1;
        assert(spots@ =~= press_spots_of(face, presses@, room).take(k as int));
    }
    assert(press_spots_of(face, presses@, room).take(k as int) =~= press_spots_of(face, presses@, room));
    spots
}

/// A press put in the corner stands at the far end of the strip.
pub proof fn lemma_a_press_in_the_corner_ends_the_strip(
    face: Option<PressFace>,
    presses: Seq<page::Press>,
    room: PressRoom,
    k: int,
)
    requires
        0 <= k < presses.len(),
        presses[k].placed == page::Placed::Corner,
        room.to >= 0,
    ensures
        press_spots_of(face, presses, room)[k].x + press_spots_of(face, presses, room)[k].wide == room.to,
{
    let (many, each, first, corner) = press_measures(face, presses, room);
    assert(press_x(face, presses, room, k, crate::measure::clamp_i32(among_count(presses.take(k)) as int))
        == corner);
    let wide = crate::measure::clamp_i32(room.to - room.from);
    assert(each >= PRESS_WIDE || each == FINGER);
    if face == Some(PressFace::Written) && many != 0 {
        let spaced = crate::measure::clamp_i32(crate::measure::larger(many - 1, 0) * press_gap());
        let shared = strip::quotient(crate::measure::clamp_i32(wide - spaced), many);
        assert(shared <= i32::MAX);
    }
    assert(each <= i32::MAX);
}

/// Counting the presses among the others only ever goes up along the strip.
proof fn lemma_among_count_grows(presses: Seq<page::Press>, j: int, k: int)
    requires
        0 <= j <= k <= presses.len(),
    ensures
        among_count(presses.take(j)) <= among_count(presses.take(k)),
        j < k && presses[j].placed == page::Placed::Among ==> among_count(presses.take(j)) + 1 <= among_count(
            presses.take(k),
        ),
        among_count(presses.take(k)) <= k,
    decreases k,
{
    if k > 0 {
        assert(presses.take(k).drop_last() =~= presses.take(k - 1));
        assert(presses.take(k).last() == presses[k - 1]);
        if j < k {
            lemma_among_count_grows(presses, j, k - 1);
        } else {
            lemma_among_count_grows(presses, k - 1, k - 1);
        }
    }
}

/// The presses among the others stand in their order along the strip, a
/// gap between each two, when the strip is laid where nothing it measures
/// runs past the end of an `i32`.
pub proof fn lemma_presses_stand_in_order_a_gap_apart(
    face: Option<PressFace>,
    presses: Seq<page::Press>,
    room: PressRoom,
    j: int,
    k: int,
)
    requires
        0 <= j < k < presses.len(),
        presses[j].placed == page::Placed::Among,
        presses[k].placed == page::Placed::Among,
        ({
            let (many, each, first, corner) = press_measures(face, presses, room);
            0 <= first && first + many * (each + press_gap()) <= i32::MAX
        }),
    ensures
        press_spots_of(face, presses, room)[j].x + press_spots_of(face, presses, room)[j].wide + press_gap()
            <= press_spots_of(face, presses, room)[k].x,
{
    let (many, each, first, corner) = press_measures(face, presses, room);
    let sj = among_count(presses.take(j)) as int;
    let sk = among_count(presses.take(k)) as int;
    lemma_among_count_grows(presses, j, k);
    lemma_among_count_grows(presses, k, presses.len() as int);
    lemma_among_count_grows(presses, k + 1, presses.len() as int);
    assert(presses.take(presses.len() as int) =~= presses);
    assert(presses.take(k + 1).drop_last() =~= presses.take(k));
    assert(sk + 1 <= among_count(presses) as int);
    assert(each >= FINGER);
    let stride = each + press_gap();
    assert(many * stride <= i32::MAX);
    assert(many <= i32::MAX / 8) by (nonlinear_arith)
        requires
            many * stride <= i32::MAX,
            stride >= 8,
            many >= 0,
    ;
    assert(many == among_count(presses) as int);
    assert(sk < many);
    assert(0 <= sj * stride <= sk * stride <= many * stride) by (nonlinear_arith)
        requires
            0 <= sj <= sk <= many,
            stride >= 0,
    ;
    assert((sj + 1) * stride <= sk * stride) by (nonlinear_arith)
        requires
            sj + 1 <= sk,
            stride >= 0,
    ;
    assert(sj <= i32::MAX && sk <= i32::MAX);
    assert(stride <= many * stride) by (nonlinear_arith)
        requires
            many >= 1,
            stride >= 0,
    ;
    assert(crate::measure::clamp_i32(each + press_gap()) == stride);
    assert(crate::measure::clamp_i32(sj) == sj);
    assert(crate::measure::clamp_i32(sk) == sk);
    let spots = press_spots_of(face, presses, room);
    assert(spots[j].x == first + sj * stride);
    assert(spots[k].x == first + sk * stride);
    assert(spots[j].wide == each);
    assert((sj + 1) * stride == sj * stride + stride) by (nonlinear_arith);
}

/// Where a cell of a row of cells stands: where it starts across the row
/// and how wide it is, and, for the one in effect when it has no icon, the
/// round it is lit with: where it starts, how wide and how tall it is.
#[derive(Debug, Clone, Copy, PartialEq, Eq, Structural)]
pub struct CellSpot {
    pub from: i32,
    pub each: i32,
    pub lit: Option<Round>,
}

/// A round a cell is lit with: where it starts across the row, how wide and
/// how tall it is.
#[derive(Debug, Clone, Copy, PartialEq, Eq, Structural)]
pub struct Round {
    pub x: i32,
    pub wide: u32,
    pub tall: u32,
}

/// How wide each of `many` cells is across a row from `from` to `to`: the
/// row shared out between them.
pub open spec fn cell_each(many: int, from: i32, to: i32) -> int {
    strip::quotient(crate::measure::clamp_i32(to - from), many)
}

/// Where the cell at `i` of `cells` stands across a row from `from` to
/// `to`, the row `tall` high.
pub open spec fn cell_spot_of(cells: Seq<page::Cell>, i: int, from: i32, to: i32, tall: i32) -> CellSpot {
    let many = count_i32(cells.len() as int);
    let each = cell_each(many, from, to);
    let wide = crate::measure::clamp_u32(crate::measure::larger(each, 0));
    let high = crate::measure::clamp_u32(crate::measure::larger(tall as int, 0));
    let lit_wide = crate::measure::smaller(wide, high);
    let start = crate::measure::clamp_i32(from + crate::measure::clamp_i32(count_i32(i) * each));
    CellSpot {
        from: start as i32,
        each: each as i32,
        lit: if cells[i].now && cells[i].icon is None {
            Some(
                Round {
                    x: crate::measure::clamp_i32(
                        start + strip::quotient(crate::measure::clamp_i32(each - crate::measure::clamp_i32(lit_wide)), 2),
                    ) as i32,
                    wide: lit_wide as u32,
                    tall: high as u32,
                },
            )
        } else {
            None
        },
    }
}

/// Where each of a row of `cells` stands across a row from `from` to `to`,
/// the row `tall` high: the row shared out between them in their order, and
/// the one in effect lit with a round in the middle of it.
pub fn cell_spots(cells: &Vec<page::Cell>, from: i32, to: i32, tall: i32) -> (r: Vec<CellSpot>)
    ensures
        r@ == Seq::new(cells@.len(), |i: int| cell_spot_of(cells@, i, from, to, tall)),
{
    let mut spots: Vec<CellSpot> = Vec::new();
    if cells.len() == 0 {
        assert(spots@ =~= Seq::new(cells@.len(), |i: int| cell_spot_of(cells@, i, from, to, tall)));
        return spots;
    }
    let many = fitted_i32(cells.len());
    let each = strip::divided(crate::measure::less(to, from), many);
    let wide = across(each);
    let high = across(tall);
    let lit_wide = if wide <= high {
        wide
    } else {
        high
    };
    let lit_wide_i: i32 = if lit_wide > i32::MAX as u32 {
        i32::MAX
    } else {
        lit_wide as i32
    };
    let mut i: usize = 0;
    while i < cells.len()
        invariant
            i <= cells@.len(),
            cells@.len() > 0,
            many == count_i32(cells@.len() as int),
            each == cell_each(many as int, from, to),
            wide == crate::measure::clamp_u32(crate::measure::larger(each as int, 0)),
            high == crate::measure::clamp_u32(crate::measure::larger(tall as int, 0)),
            lit_wide == crate::measure::smaller(wide as int, high as int),
            lit_wide_i == crate::measure::clamp_i32(lit_wide as int),
            spots@ =~= Seq::new(i as nat, |k: int| cell_spot_of(cells@, k, from, to, tall)),
        decreases cells.len() - i,
    {
        let start = crate::measure::more(from, crate::measure::times(fitted_i32(i), each));
        let cell = &cells[i];
        let lit = if cell.now && cell.icon.is_none() {
            let inset = strip::divided(crate::measure::less(each, lit_wide_i), 2);
            Some(Round { x: crate::measure::more(start, inset), wide: lit_wide, tall: high })
        } else {
            None
        };
        let spot = CellSpot { from: start, each, lit };
        assert(spot == cell_spot_of(cells@, i as int, from, to, tall));
        spots.push(spot);
        i += 1;
    }
    spots
}

/// The cells of a row stand in their order, one after another, and the
/// round the one in effect is lit with is inside it, when nothing runs past
/// the end of an `i32`.
pub proof fn lemma_cells_stand_in_order_and_the_lit_one_is_inside_its_cell(
    cells: Seq<page::Cell>,
    i: int,
    j: int,
    from: i32,
    to: i32,
    tall: i32,
)
    requires
        0 <= i < j < cells.len(),
        0 <= from <= to,
        cells.len() <= i32::MAX,
    ensures
        cell_spot_of(cells, i, from, to, tall).from + cell_spot_of(cells, i, from, to, tall).each
            <= cell_spot_of(cells, j, from, to, tall).from,
        cell_spot_of(cells, i, from, to, tall).lit matches Some(round) ==> cell_spot_of(
            cells,
            i,
            from,
            to,
            tall,
        ).from <= round.x && round.x + round.wide <= cell_spot_of(cells, i, from, to, tall).from
            + cell_spot_of(cells, i, from, to, tall).each,
{
    let many = cells.len() as int;
    let each = cell_each(many, from, to);
    let room = (to - from) as int;
    assert(each == room / many);
    assert(0 <= each * many <= room) by (nonlinear_arith)
        requires
            each == room / many,
            many >= 1,
            room >= 0,
    ;
    assert(0 <= each <= room) by (nonlinear_arith)
        requires
            0 <= each * many <= room,
            many >= 1,
            each == room / many,
            room >= 0,
    ;
    assert(0 <= i * each <= j * each <= many * each) by (nonlinear_arith)
        requires
            0 <= i < j < many,
            each >= 0,
    ;
    assert((i + 1) * each <= j * each) by (nonlinear_arith)
        requires
            i + 1 <= j,
            each >= 0,
    ;
    assert((i + 1) * each == i * each + each) by (nonlinear_arith);
    assert(count_i32(i) == i && count_i32(j) == j);
}

/// A part of the card a hand can land on: what it is, where it starts
/// across and down, and how wide and tall it is.
#[derive(Debug, Clone, Copy, PartialEq, Eq, Structural)]
pub struct Reach {
    pub lands: Lands,
    pub x: i32,
    pub y: i32,
    pub wide: u32,
    pub tall: u32,
}

/// Where the inside of the card starts across, past its edge and margin.
pub open spec fn inside_left_of(card: Card) -> int {
    crate::measure::clamp_i32(crate::measure::clamp_i32(card.x + strip::EDGE) + strip::MARGIN)
}

/// Where the inside of the card ends across, short of its edge and margin.
pub open spec fn inside_right_of(card: Card) -> int {
    crate::measure::clamp_i32(
        crate::measure::clamp_i32(crate::measure::clamp_i32(card.x + card.width) - strip::EDGE) - strip::MARGIN,
    )
}

/// Where the buttons and tabs along the top of the card stand down it: in
/// the middle of the strip.
pub open spec fn header_top_of(card: Card) -> int {
    crate::measure::clamp_i32(card.y + (crate::fitting::STRIP - FINGER) / 2)
}

/// `a - b`, stopped at nought.
pub open spec fn short_of(a: int, b: int) -> int {
    crate::measure::larger(a - b, 0)
}

/// How wide the run of tabs may be: the card's width, less its edges,
/// margins and padding either side, and what the buttons at its end spend.
pub open spec fn strip_room_of(card: Card) -> int {
    let wide = crate::measure::clamp_u32(card.width as int);
    short_of(
        short_of(short_of(short_of(wide, 2 * strip::EDGE), 2 * strip::MARGIN), 2 * strip::PAD),
        (FINGER + strip::GAP) * 3,
    )
}

/// Where the run of tabs starts across: past the button that goes back a
/// tab, a gap and the padding.
pub open spec fn run_left_of(card: Card) -> int {
    crate::measure::clamp_i32(
        crate::measure::clamp_i32(crate::measure::clamp_i32(inside_left_of(card) + FINGER) + strip::GAP)
            + strip::PAD,
    )
}

/// How many tabs are shown from `from` of `many`, when `fits` fit.
pub open spec fn tabs_shown(many: int, from: u32, fits: u32) -> int {
    crate::measure::smaller(fits as int, short_of(crate::measure::clamp_u32(many), from as int))
}

/// How wide each of the tabs shown is: the run shared between them.
pub open spec fn tab_wide_of(card: Card, shown: int) -> int {
    strip_room_of(card) / crate::measure::larger(shown, 1)
}

/// The button a finger backs out with, at the end of the strip.
pub open spec fn back_reach_of(card: Card) -> Reach {
    Reach {
        lands: Lands::Back,
        x: crate::measure::clamp_i32(inside_right_of(card) - FINGER) as i32,
        y: header_top_of(card) as i32,
        wide: FINGER as u32,
        tall: FINGER as u32,
    }
}

/// The buttons that turn a tab back and on, where there is a tab to turn to.
pub open spec fn arrows_of(card: Card, many: int, here: u32) -> Seq<Reach> {
    let top = header_top_of(card) as i32;
    let back = if here > 0 {
        seq![Reach { lands: Lands::More(-1i32), x: inside_left_of(card) as i32, y: top, wide: FINGER as u32, tall: FINGER as u32 }]
    } else {
        Seq::empty()
    };
    let on = if here + 1 < crate::measure::clamp_u32(many) {
        let x = crate::measure::clamp_i32(
            crate::measure::clamp_i32(crate::measure::clamp_i32(inside_right_of(card) - FINGER) - strip::GAP) - FINGER,
        );
        seq![Reach { lands: Lands::More(1i32), x: x as i32, y: top, wide: FINGER as u32, tall: FINGER as u32 }]
    } else {
        Seq::empty()
    };
    back + on
}

/// The tab at `k` of those shown from `from`.
pub open spec fn tab_reach_of(card: Card, shown: int, from: u32, k: int) -> Reach {
    let wide = tab_wide_of(card, shown);
    Reach {
        lands: Lands::Tab((from + k) as u32),
        x: crate::measure::clamp_i32(
            run_left_of(card) + crate::measure::clamp_i32(count_i32(k) * crate::measure::clamp_i32(wide)),
        )
            as i32,
        y: header_top_of(card) as i32,
        wide: wide as u32,
        tall: FINGER as u32,
    }
}

/// What a hand can land on along the top of a card with `many` tabs, `here`
/// the one in front, shown from `from` as far as `fits` fit: the button that
/// backs out; and, on a card not opened out with more than one tab, the
/// buttons that turn a tab back and on, and the tabs shown.
pub open spec fn header_reach_of(card: Card, many: int, here: u32, from: u32, fits: u32, opened: Opened) -> Seq<
    Reach,
> {
    if opened == Opened::Expanded || crate::measure::clamp_u32(many) <= 1 {
        seq![back_reach_of(card)]
    } else {
        let shown = tabs_shown(many, from, fits);
        seq![back_reach_of(card)] + arrows_of(card, many, here) + Seq::new(
            shown as nat,
            |k: int| tab_reach_of(card, shown, from, k),
        )
    }
}

/// What a hand can land on along the top of a card with `many` tabs.
pub fn header_reach(card: &Card, many: usize, here: u32, from: u32, fits: u32, opened: Opened) -> (r: Vec<Reach>)
    ensures
        r@ == header_reach_of(*card, many as int, here, from, fits, opened),
{
    let left = crate::measure::more(crate::measure::more(card.x, strip::EDGE), strip::MARGIN);
    let right = crate::measure::less(crate::measure::less(crate::measure::more(card.x, card.width), strip::EDGE), strip::MARGIN);
    let top = crate::measure::more(card.y, (crate::fitting::STRIP - FINGER) / 2);
    let shut_x = crate::measure::less(right, FINGER);
    let mut reach: Vec<Reach> = Vec::new();
    reach.push(Reach { lands: Lands::Back, x: shut_x, y: top, wide: 48, tall: 48 });
    let many_u = fitted_u32(many);
    if opened == Opened::Expanded || many_u <= 1 {
        assert(reach@ =~= header_reach_of(*card, many as int, here, from, fits, opened));
        return reach;
    }
    if here > 0 {
        reach.push(Reach { lands: Lands::More(-1), x: left, y: top, wide: 48, tall: 48 });
    }
    if here < u32::MAX && here + 1 < many_u {
        let x = crate::measure::less(crate::measure::less(shut_x, strip::GAP), FINGER);
        reach.push(Reach { lands: Lands::More(1), x, y: top, wide: 48, tall: 48 });
    }
    let ghost head = reach@;
    assert(head =~= seq![back_reach_of(*card)] + arrows_of(*card, many as int, here));
    let wide_u = if card.width < 0 {
        0u32
    } else {
        card.width as u32
    };
    let room = wide_u.saturating_sub(2 * strip::EDGE as u32).saturating_sub(2 * strip::MARGIN as u32).saturating_sub(
        2 * strip::PAD as u32,
    ).saturating_sub(((FINGER + strip::GAP) * 3) as u32);
    let shown = if fits <= many_u.saturating_sub(from) {
        fits
    } else {
        many_u.saturating_sub(from)
    };
    let tab_wide = room / if shown >= 1 {
        shown
    } else {
        1
    };
    let tab_wide_i: i32 = if tab_wide > i32::MAX as u32 {
        i32::MAX
    } else {
        tab_wide as i32
    };
    let run_left = crate::measure::more(crate::measure::more(crate::measure::more(left, FINGER), strip::GAP), strip::PAD);
    assert(room == strip_room_of(*card));
    assert(shown == tabs_shown(many as int, from, fits));
    assert(tab_wide == tab_wide_of(*card, shown as int));
    let mut k: u32 = 0;
    while k < shown
        invariant
            k <= shown,
            shown == tabs_shown(many as int, from, fits),
            shown == 0 || from as int + shown as int <= many_u as int,
            many_u == crate::measure::clamp_u32(many as int),
            tab_wide == tab_wide_of(*card, shown as int),
            tab_wide_i == crate::measure::clamp_i32(tab_wide as int),
            run_left == run_left_of(*card),
            top == header_top_of(*card),
            reach@ =~= head + Seq::new(k as nat, |j: int| tab_reach_of(*card, shown as int, from, j)),
        decreases shown - k,
    {
        let step: i32 = if k > i32::MAX as u32 {
            i32::MAX
        } else {
            k as i32
        };
        let x = crate::measure::more(run_left, crate::measure::times(step, tab_wide_i));
        let tab = Reach { lands: Lands::Tab(from + k), x, y: top, wide: tab_wide, tall: 48 };
        assert(tab == tab_reach_of(*card, shown as int, from, k as int));
        reach.push(tab);
        k += 1;
    }
    reach
}

/// The tabs shown stand side by side, each as wide as the next, and all of
/// them within the room the strip has for them, on a card that stands on
/// the surface.
pub proof fn lemma_tabs_stand_side_by_side_within_the_strip(card: Card, many: int, from: u32, fits: u32, k: int)
    requires
        0 <= card.x,
        0 <= card.width,
        card.x + card.width <= i32::MAX,
        0 <= k < tabs_shown(many, from, fits),
    ensures
        tab_reach_of(card, tabs_shown(many, from, fits), from, k).x == run_left_of(card) + k * tab_wide_of(
            card,
            tabs_shown(many, from, fits),
        ),
        tab_reach_of(card, tabs_shown(many, from, fits), from, k).x + tab_wide_of(card, tabs_shown(many, from, fits))
            <= run_left_of(card) + strip_room_of(card),
{
    let shown = tabs_shown(many, from, fits);
    let room = strip_room_of(card);
    let wide = tab_wide_of(card, shown);
    assert(shown >= 1);
    assert(wide == room / shown);
    assert(0 <= wide * shown <= room) by (nonlinear_arith)
        requires
            wide == room / shown,
            shown >= 1,
            room >= 0,
    ;
    assert(0 <= k * wide <= (k + 1) * wide <= shown * wide) by (nonlinear_arith)
        requires
            0 <= k < shown,
            wide >= 0,
    ;
    assert((k + 1) * wide == k * wide + wide) by (nonlinear_arith);
    assert(wide * shown == shown * wide) by (nonlinear_arith);
    assert(room <= card.width);
    if wide > 0 {
        assert(shown <= room) by (nonlinear_arith)
            requires
                wide * shown <= room,
                wide >= 1,
                shown >= 0,
        ;
        assert(room > 0);
        assert(run_left_of(card) == card.x + 75);
        assert(k <= i32::MAX);
        assert(wide <= i32::MAX);
    } else {
        assert(wide == 0);
        assert(k * wide == 0) by (nonlinear_arith)
            requires
                wide == 0,
        ;
        assert(count_i32(k) * wide == 0) by (nonlinear_arith)
            requires
                wide == 0,
        ;
    }
}

/// Where a question asked over the list starts on the card: inside its edge
/// and margin, under the strip and the gap over the rows.
pub open spec fn asked_at_of(card: Card) -> (int, int) {
    (
        inside_left_of(card),
        crate::measure::clamp_i32(crate::measure::clamp_i32(card.y + crate::fitting::STRIP) + OVER_ROWS),
    )
}

/// How wide a question asked over the list is: the card inside its edges
/// and margins.
pub open spec fn asked_wide_of(card: Card) -> int {
    crate::measure::clamp_u32(
        crate::measure::clamp_i32(crate::measure::clamp_i32(card.width - 2 * strip::EDGE) - 2 * strip::MARGIN),
    )
}

/// How wide each of `many` answers to a question is: the question's width
/// shared between them, a gap between each two.
pub open spec fn answer_wide_of(card: Card, many: int) -> int {
    short_of(asked_wide_of(card), crate::measure::clamp_u32(press_gap() * short_of(many, 1))) / many
}

/// Where the answer at `k` of `many` stands: in a line three rows under the
/// question, side by side.
pub open spec fn answer_reach_of(card: Card, many: int, k: int) -> Reach {
    let (x, y) = asked_at_of(card);
    let wide = answer_wide_of(card, many);
    Reach {
        lands: Lands::Answer(k as u32),
        x: crate::measure::clamp_i32(
            x + crate::measure::clamp_i32(count_i32(k) * crate::measure::clamp_i32(crate::measure::clamp_i32(wide) + press_gap())),
        ) as i32,
        y: crate::measure::clamp_i32(y + crate::measure::clamp_i32(3 * crate::fitting::ROW)) as i32,
        wide: wide as u32,
        tall: FINGER as u32,
    }
}

/// Where each of `many` answers to a question asked on `card` stands.
pub fn answer_reach(card: &Card, many: u32) -> (r: Vec<Reach>)
    ensures
        r@ == Seq::new(many as nat, |k: int| answer_reach_of(*card, many as int, k)),
{
    let mut reach: Vec<Reach> = Vec::new();
    if many == 0 {
        assert(reach@ =~= Seq::new(many as nat, |k: int| answer_reach_of(*card, many as int, k)));
        return reach;
    }
    let x = crate::measure::more(crate::measure::more(card.x, strip::EDGE), strip::MARGIN);
    let y = crate::measure::more(crate::measure::more(card.y, crate::fitting::STRIP), OVER_ROWS);
    let inside = crate::measure::less(crate::measure::less(card.width, 2 * strip::EDGE), 2 * strip::MARGIN);
    let wide: u32 = if inside < 0 {
        0
    } else {
        inside as u32
    };
    let spaced: u64 = 8 * ((many - 1) as u64);
    let gaps: u32 = if spaced > u32::MAX as u64 {
        u32::MAX
    } else {
        spaced as u32
    };
    let each = wide.saturating_sub(gaps) / many;
    let each_i: i32 = if each > i32::MAX as u32 {
        i32::MAX
    } else {
        each as i32
    };
    let stride = crate::measure::more(each_i, 8);
    let down = crate::measure::more(y, 3 * crate::fitting::ROW);
    assert(each == answer_wide_of(*card, many as int));
    let mut k: u32 = 0;
    while k < many
        invariant
            k <= many,
            many >= 1,
            each == answer_wide_of(*card, many as int),
            stride == crate::measure::clamp_i32(crate::measure::clamp_i32(each as int) + press_gap()),
            (x as int, y as int) == asked_at_of(*card),
            down == crate::measure::clamp_i32(y + crate::measure::clamp_i32(3 * crate::fitting::ROW)),
            reach@ =~= Seq::new(k as nat, |j: int| answer_reach_of(*card, many as int, j)),
        decreases many - k,
    {
        let step: i32 = if k > i32::MAX as u32 {
            i32::MAX
        } else {
            k as i32
        };
        let spot = Reach {
            lands: Lands::Answer(k),
            x: crate::measure::more(x, crate::measure::times(step, stride)),
            y: down,
            wide: each,
            tall: 48,
        };
        assert(spot == answer_reach_of(*card, many as int, k as int));
        reach.push(spot);
        k += 1;
    }
    reach
}

/// How far the words of a row stand in from its edge: eight ninths of an em.
pub const INSIDE_A_ROW: i32 = 16;

/// The room between two rows a row's round leaves: a row less a finger.
pub const BETWEEN_ROWS: i32 = 4;

/// How wide the mark on a selected row is: five sixths of an em.
pub const SELECTED_MARK: i32 = 15;

/// Which colour of the panel's palette something is drawn in.
#[derive(Debug, Clone, Copy, PartialEq, Eq, Structural)]
pub enum Paint {
    Pink,
    Night,
    Ground,
    Text,
    Soft,
    Panel,
}

/// How a row is lit: the highlight on it, beside it on what else it
/// offers, or neither.
#[derive(Debug, Clone, Copy, PartialEq, Eq, Structural)]
pub enum Lit {
    Row,
    Beside,
    No,
}

/// The round a row is drawn on: its colour, and whether it is edged in pink.
#[derive(Debug, Clone, Copy, PartialEq, Eq, Structural)]
pub struct Ground {
    pub fill: Paint,
    pub edged: bool,
}

/// Where a row stands on a card: whether it runs to the card's edges, its
/// left and right ends, its top and height, how it is lit, the round it is
/// drawn on, the colours of its words and of what is quieter beside them,
/// where its words start, the button asking what else it offers, and how
/// far across its words may run.
#[derive(Debug, Clone, Copy, PartialEq, Eq, Structural)]
pub struct Frame {
    pub bleeds: bool,
    pub left: i32,
    pub right: i32,
    pub top: i32,
    pub tall: i32,
    pub lit: Lit,
    pub ground: Option<Ground>,
    pub ink: Paint,
    pub quiet: Paint,
    pub words_x: i32,
    pub what_else: Option<Reach>,
    pub far: i32,
}

/// How a row is lit, given whether the highlight is on it and whether it
/// stands beside it.
pub open spec fn lit_of(highlight: bool, beside: page::Beside) -> Lit {
    if !highlight {
        Lit::No
    } else if beside == page::Beside::Yes {
        Lit::Beside
    } else {
        Lit::Row
    }
}

/// Where the row `row` at `at` stands in a band from `top`, `height` high,
/// on `card`: `opened` whether the card is opened out, `highlight` whether
/// the highlight is on it, `beside` whether it stands beside it, `selected`
/// whether it is marked, and `into` how wide the mark saying it opens into
/// more is.
pub open spec fn frame_of(
    row: Row,
    at: u32,
    top: i32,
    height: i32,
    card: Card,
    opened: Opened,
    highlight: bool,
    beside: page::Beside,
    selected: bool,
    into: u32,
) -> Frame {
    let bleeds = opened == Opened::Expanded && (row.picture matches Picture::Showing(Some(_))
        || row.picture matches Picture::Playing(Some(_)));
    let left = if bleeds {
        card.x as int
    } else {
        inside_left_of(card)
    };
    let right = if bleeds {
        crate::measure::clamp_i32(card.x + card.width)
    } else {
        inside_right_of(card)
    };
    let down = if bleeds {
        top as int
    } else {
        crate::measure::clamp_i32(top + BETWEEN_ROWS / 2)
    };
    let tall = if bleeds {
        height as int
    } else {
        crate::measure::clamp_i32(height - BETWEEN_ROWS)
    };
    let lit = lit_of(highlight, beside);
    let heading = page::heading_of(row);
    let ground = if bleeds || row.buttons is Some {
        None
    } else {
        match lit {
            Lit::Row => Some(Ground { fill: Paint::Pink, edged: false }),
            Lit::Beside => Some(Ground { fill: Paint::Ground, edged: true }),
            Lit::No => if heading {
                None
            } else {
                Some(Ground { fill: Paint::Ground, edged: false })
            },
        }
    };
    let (ink, quiet) = if lit == Lit::Row {
        (Paint::Night, Paint::Night)
    } else if heading {
        (Paint::Soft, Paint::Soft)
    } else {
        (Paint::Text, Paint::Soft)
    };
    let words_x = crate::measure::clamp_i32(
        crate::measure::clamp_i32(left + INSIDE_A_ROW) + beside_the_words_of(row.picture),
    );
    let what_else = if wears_of(row) == page::Wears::WhatElse {
        Some(
            Reach {
                lands: Lands::Else(at),
                x: crate::measure::clamp_i32(right - FINGER) as i32,
                y: down as i32,
                wide: FINGER as u32,
                tall: crate::measure::clamp_u32(tall) as u32,
            },
        )
    } else {
        None
    };
    let far = if what_else is Some {
        crate::measure::clamp_i32(crate::measure::clamp_i32(right - FINGER) - 3 * strip::GAP)
    } else {
        crate::measure::clamp_i32(right - INSIDE_A_ROW)
    };
    let far = if row.opens {
        crate::measure::clamp_i32(
            crate::measure::clamp_i32(far - crate::measure::clamp_i32(into as int)) - 3 * strip::GAP,
        )
    } else {
        far
    };
    let far = if selected {
        crate::measure::clamp_i32(crate::measure::clamp_i32(far - SELECTED_MARK) - 3 * strip::GAP)
    } else {
        far
    };
    Frame {
        bleeds,
        left: left as i32,
        right: right as i32,
        top: down as i32,
        tall: tall as i32,
        lit,
        ground,
        ink,
        quiet,
        words_x: words_x as i32,
        what_else,
        far: far as i32,
    }
}

/// Where a row stands on a card, and how it is drawn there.
pub fn frame(
    row: &Row,
    at: u32,
    top: i32,
    height: i32,
    card: &Card,
    opened: Opened,
    highlight: bool,
    beside: page::Beside,
    selected: bool,
    into: u32,
) -> (r: Frame)
    ensures
        r == frame_of(*row, at, top, height, *card, opened, highlight, beside, selected, into),
{
    let bleeds = opened == Opened::Expanded && looked_at(&row.picture).is_some();
    let (left, right, down, tall) = if bleeds {
        (card.x, crate::measure::more(card.x, card.width), top, height)
    } else {
        (
            crate::measure::more(crate::measure::more(card.x, strip::EDGE), strip::MARGIN),
            crate::measure::less(crate::measure::less(crate::measure::more(card.x, card.width), strip::EDGE), strip::MARGIN),
            crate::measure::more(top, BETWEEN_ROWS / 2),
            crate::measure::less(height, BETWEEN_ROWS),
        )
    };
    let lit = if !highlight {
        Lit::No
    } else if beside == page::Beside::Yes {
        Lit::Beside
    } else {
        Lit::Row
    };
    let heading = row.heading() == page::Heading::Yes;
    let ground = if bleeds || row.buttons.is_some() {
        None
    } else {
        match lit {
            Lit::Row => Some(Ground { fill: Paint::Pink, edged: false }),
            Lit::Beside => Some(Ground { fill: Paint::Ground, edged: true }),
            Lit::No => if heading {
                None
            } else {
                Some(Ground { fill: Paint::Ground, edged: false })
            },
        }
    };
    let (ink, quiet) = if lit == Lit::Row {
        (Paint::Night, Paint::Night)
    } else if heading {
        (Paint::Soft, Paint::Soft)
    } else {
        (Paint::Text, Paint::Soft)
    };
    let words_x = crate::measure::more(crate::measure::more(left, INSIDE_A_ROW), beside_the_words(&row.picture));
    let what_else = if page::wears(row) == page::Wears::WhatElse {
        let high: u32 = if tall < 0 {
            0
        } else {
            tall as u32
        };
        Some(Reach { lands: Lands::Else(at), x: crate::measure::less(right, FINGER), y: down, wide: 48, tall: high })
    } else {
        None
    };
    let mut far = if what_else.is_some() {
        crate::measure::less(crate::measure::less(right, FINGER), 3 * strip::GAP)
    } else {
        crate::measure::less(right, INSIDE_A_ROW)
    };
    if row.opens {
        let into_i: i32 = if into > i32::MAX as u32 {
            i32::MAX
        } else {
            into as i32
        };
        far = crate::measure::less(crate::measure::less(far, into_i), 3 * strip::GAP);
    }
    if selected {
        far = crate::measure::less(crate::measure::less(far, SELECTED_MARK), 3 * strip::GAP);
    }
    Frame { bleeds, left, right, top: down, tall, lit, ground, ink, quiet, words_x, what_else, far }
}

/// The button asking what else a row offers stands at the row's right end,
/// and the row's words stop short of it, on a card that stands on the
/// surface.
pub proof fn lemma_what_else_stands_at_the_end_of_the_row(
    row: Row,
    at: u32,
    top: i32,
    height: i32,
    card: Card,
    opened: Opened,
    highlight: bool,
    beside: page::Beside,
    selected: bool,
    into: u32,
)
    requires
        0 <= card.x,
        0 <= card.width,
        card.x + card.width <= i32::MAX,
    ensures
        ({
            let f = frame_of(row, at, top, height, card, opened, highlight, beside, selected, into);
            f.what_else matches Some(button) ==> button.x + button.wide == f.right && f.far
                < button.x
        }),
{
}

/// How much room the reading of a level is kept, however little it says:
/// three and a ninth ems.
pub const LEVEL_SAID: u32 = 56;

/// Where what a row says beside it ends across, and so where what comes
/// before it may run to: `far` less the reading's width, or what it is kept,
/// and a gap; `far` itself when the row says nothing beside it.
pub open spec fn level_said_of(aside: Seq<char>, aside_wide: u32, far: int) -> int {
    if aside.len() == 0 {
        far
    } else {
        let kept = crate::measure::clamp_i32(crate::measure::larger(aside_wide as int, LEVEL_SAID as int));
        crate::measure::clamp_i32(crate::measure::clamp_i32(far - kept) - 2 * strip::GAP)
    }
}

/// The button at `x` that nudges the level of the row at `row` by `step`,
/// in a line from `top`, `height` high.
pub open spec fn nudge_button_of(row: u32, step: i32, x: int, top: i32, height: i32) -> Reach {
    Reach {
        lands: Lands::Nudge { row, step },
        x: x as i32,
        y: top,
        wide: FINGER as u32,
        tall: crate::measure::clamp_u32(height as int) as u32,
    }
}

/// What a hand can land on at the end of a row's line, and how far across
/// its words may then run: for a row holding a level, the buttons that
/// nudge it up and down either side of its reading, the one nudging it up
/// after the reading when it is a bar; for any other row, only what it says
/// beside it, in at most half the row.
pub open spec fn line_end_of(
    row: Row,
    at: u32,
    top: i32,
    height: i32,
    far: i32,
    aside_wide: u32,
    box_wide: u32,
) -> (Seq<Reach>, int) {
    if !row.level {
        if row.aside@.len() == 0 {
            (Seq::empty(), far as int)
        } else {
            let wide = crate::measure::smaller(aside_wide as int, box_wide as int / 2);
            (
                Seq::empty(),
                crate::measure::clamp_i32(
                    crate::measure::clamp_i32(far - crate::measure::clamp_i32(wide)) - 4 * strip::GAP,
                ),
            )
        }
    } else {
        let (less, more) = match row.ends {
            Some(e) => (e.0@, e.1@),
            None => (crate::marks::LESS@, crate::marks::MORE@),
        };
        let bars = row.picture is Bar;
        let far0 = if bars {
            level_said_of(row.aside@, aside_wide, far as int)
        } else {
            far as int
        };
        let up = if more.len() > 0 {
            seq![nudge_button_of(at, 1i32, crate::measure::clamp_i32(far0 - FINGER), top, height)]
        } else {
            Seq::empty()
        };
        let far1 = if more.len() > 0 {
            crate::measure::clamp_i32(crate::measure::clamp_i32(far0 - FINGER) - 2 * strip::GAP)
        } else {
            far0
        };
        if bars {
            (up, far1)
        } else {
            let far2 = level_said_of(row.aside@, aside_wide, far1);
            let down = if less.len() > 0 {
                seq![nudge_button_of(at, -1i32, crate::measure::clamp_i32(far2 - FINGER), top, height)]
            } else {
                Seq::empty()
            };
            let far3 = if less.len() > 0 {
                crate::measure::clamp_i32(crate::measure::clamp_i32(far2 - FINGER) - 3 * strip::GAP)
            } else {
                far2
            };
            (up + down, far3)
        }
    }
}

/// Where what a row says beside it ends across.
fn level_said(row: &Row, aside_wide: u32, far: i32) -> (r: i32)
    ensures
        r == level_said_of(row.aside@, aside_wide, far as int),
{
    if text::letters(row.aside.as_str()).len() == 0 {
        return far;
    }
    let kept_u = if aside_wide >= LEVEL_SAID {
        aside_wide
    } else {
        LEVEL_SAID
    };
    let kept: i32 = if kept_u > i32::MAX as u32 {
        i32::MAX
    } else {
        kept_u as i32
    };
    crate::measure::less(crate::measure::less(far, kept), 2 * strip::GAP)
}

/// What a hand can land on at the end of a row's line, and how far across
/// its words may then run.
pub fn line_end(row: &Row, at: u32, top: i32, height: i32, far: i32, aside_wide: u32, box_wide: u32) -> (r: (
    Vec<Reach>,
    i32,
))
    ensures
        (r.0@, r.1 as int) == line_end_of(*row, at, top, height, far, aside_wide, box_wide),
{
    let mut reach: Vec<Reach> = Vec::new();
    let tall: u32 = if height < 0 {
        0
    } else {
        height as u32
    };
    if !row.level {
        if text::letters(row.aside.as_str()).len() == 0 {
            return (reach, far);
        }
        let half = box_wide / 2;
        let wide = if aside_wide <= half {
            aside_wide
        } else {
            half
        };
        let wide_i: i32 = if wide > i32::MAX as u32 {
            i32::MAX
        } else {
            wide as i32
        };
        return (reach, crate::measure::less(crate::measure::less(far, wide_i), 4 * strip::GAP));
    }
    let (less, more) = page::ends_of(row);
    let bars = match row.picture {
        Picture::Bar(_) => true,
        _ => false,
    };
    let mut end = if bars {
        level_said(row, aside_wide, far)
    } else {
        far
    };
    if text::letters(more).len() > 0 {
        reach.push(Reach { lands: Lands::Nudge { row: at, step: 1 }, x: crate::measure::less(end, FINGER), y: top, wide: 48, tall });
        end = crate::measure::less(crate::measure::less(end, FINGER), 2 * strip::GAP);
    }
    if bars {
        proof {
            reveal_strlit("\u{2212}");
            reveal_strlit("+");
        }
        assert((reach@, end as int) == line_end_of(*row, at, top, height, far, aside_wide, box_wide));
        return (reach, end);
    }
    end = level_said(row, aside_wide, end);
    if text::letters(less).len() > 0 {
        reach.push(Reach { lands: Lands::Nudge { row: at, step: -1 }, x: crate::measure::less(end, FINGER), y: top, wide: 48, tall });
        end = crate::measure::less(crate::measure::less(end, FINGER), 3 * strip::GAP);
    }
    assert((reach@, end as int) == line_end_of(*row, at, top, height, far, aside_wide, box_wide));
    (reach, end)
}

/// How thick the track of a bar is: a third of an em.
pub const TRACK: i32 = 6;

/// The track of a bar: where it starts across and down, how long and thick
/// it is, and how much of it is filled.
#[derive(Debug, Clone, Copy, PartialEq, Eq, Structural)]
pub struct Track {
    pub x: i32,
    pub y: i32,
    pub wide: u32,
    pub thin: u32,
    pub filled: u32,
}

/// What a bar after a row's words draws: the button turning its level down
/// before it, its track, and where a finger seeks along it.
#[derive(Debug, Clone, Copy, PartialEq, Eq, Structural)]
pub struct BarDrawn {
    pub less: Option<Reach>,
    pub track: Option<Track>,
    pub seek: Option<Reach>,
}

/// What the bar of the row `row` at `at` draws after its words, in a line
/// from `top`, `height` high, whose words start at `words_x` and are
/// `says_wide` wide, up to `far`.
pub open spec fn bar_drawn_of(
    row: Row,
    at: u32,
    top: i32,
    height: i32,
    far: i32,
    words_x: i32,
    says_wide: u32,
) -> BarDrawn {
    let from0 = crate::measure::clamp_i32(
        crate::measure::clamp_i32(words_x + crate::measure::clamp_i32(says_wide as int)) + 3 * strip::GAP,
    );
    let less = match row.ends {
        Some(e) => e.0@,
        None => crate::marks::LESS@,
    };
    match row.picture {
        Picture::Bar(bar) => {
            let nudged = row.level && less.len() > 0;
            let from = if nudged {
                crate::measure::clamp_i32(crate::measure::clamp_i32(from0 + FINGER) + 2 * strip::GAP)
            } else {
                from0
            };
            let less_button = if nudged {
                Some(nudge_button_of(at, -1i32, from0, top, height))
            } else {
                None
            };
            let wide = crate::measure::clamp_u32(crate::measure::larger(crate::measure::clamp_i32(far - from), 0));
            if wide == 0 {
                BarDrawn { less: less_button, track: None, seek: None }
            } else {
                BarDrawn {
                    less: less_button,
                    track: Some(
                        Track {
                            x: from as i32,
                            y: crate::measure::clamp_i32(
                                top + strip::quotient(crate::measure::clamp_i32(height - TRACK), 2),
                            ) as i32,
                            wide: wide as u32,
                            thin: TRACK as u32,
                            filled: page::filled_of(bar, wide as u32) as u32,
                        },
                    ),
                    seek: if row.seek {
                        Some(
                            Reach {
                                lands: Lands::Seek { row: at, from: from as i32, wide: wide as u32 },
                                x: from as i32,
                                y: top,
                                wide: wide as u32,
                                tall: crate::measure::clamp_u32(crate::measure::larger(height as int, 0)) as u32,
                            },
                        )
                    } else {
                        None
                    },
                }
            }
        },
        _ => BarDrawn { less: None, track: None, seek: None },
    }
}

/// What the bar of a row draws after its words.
pub fn bar_drawn(row: &Row, at: u32, top: i32, height: i32, far: i32, words_x: i32, says_wide: u32) -> (r: BarDrawn)
    ensures
        r == bar_drawn_of(*row, at, top, height, far, words_x, says_wide),
{
    let says: i32 = if says_wide > i32::MAX as u32 {
        i32::MAX
    } else {
        says_wide as i32
    };
    let from0 = crate::measure::more(crate::measure::more(words_x, says), 3 * strip::GAP);
    let bar = match row.picture {
        Picture::Bar(bar) => bar,
        _ => {
            return BarDrawn { less: None, track: None, seek: None };
        },
    };
    let (less, _more) = page::ends_of(row);
    proof {
        reveal_strlit("\u{2212}");
    }
    let nudged = row.level && text::letters(less).len() > 0;
    let tall: u32 = if height < 0 {
        0
    } else {
        height as u32
    };
    let (from, less_button) = if nudged {
        (
            crate::measure::more(crate::measure::more(from0, FINGER), 2 * strip::GAP),
            Some(Reach { lands: Lands::Nudge { row: at, step: -1 }, x: from0, y: top, wide: 48, tall }),
        )
    } else {
        (from0, None)
    };
    let span = crate::measure::less(far, from);
    let wide: u32 = if span < 0 {
        0
    } else {
        span as u32
    };
    if wide == 0 {
        return BarDrawn { less: less_button, track: None, seek: None };
    }
    let down = crate::measure::more(top, strip::divided(crate::measure::less(height, TRACK), 2));
    let filled = bar.filled(wide);
    let seek = if row.seek {
        Some(Reach { lands: Lands::Seek { row: at, from, wide }, x: from, y: top, wide, tall })
    } else {
        None
    };
    BarDrawn { less: less_button, track: Some(Track { x: from, y: down, wide, thin: 6, filled }), seek }
}

/// A bar is never filled past its end, and where a finger seeks along it
/// is the whole of its track.
pub proof fn lemma_a_bar_is_filled_within_its_track(
    row: Row,
    at: u32,
    top: i32,
    height: i32,
    far: i32,
    words_x: i32,
    says_wide: u32,
)
    ensures
        ({
            let drawn = bar_drawn_of(row, at, top, height, far, words_x, says_wide);
            &&& drawn.track matches Some(track) ==> track.filled <= track.wide && track.wide > 0
            &&& drawn.seek matches Some(seek) ==> drawn.track matches Some(track) && seek.x == track.x
                && seek.wide == track.wide
        }),
{
    let drawn = bar_drawn_of(row, at, top, height, far, words_x, says_wide);
    if let Some(track) = drawn.track {
        if let Picture::Bar(bar) = row.picture {
            page::lemma_filled_within(bar, track.wide);
        }
    }
}

/// Whether the line typed into holds what was typed, or only says what it
/// is for.
#[derive(Debug, Clone, Copy, PartialEq, Eq, Structural)]
pub enum Filled {
    Typed,
    Empty,
}

/// What the line typed into shows while a question is asked, what was typed
/// into it being `typed`: a dot for each letter when what is typed is a
/// secret.
pub open spec fn answered_so_far(typed: Seq<char>, secret: bool) -> Seq<char> {
    if secret {
        Seq::new(typed.len(), |i: int| '\u{25cf}')
    } else {
        typed
    }
}

/// What the line typed into shows, and whether it holds what was typed: the
/// answer typed so far while a question `asking` is asked, and otherwise
/// what was typed into a search, or what the search is `about` while
/// nothing has been.
pub open spec fn in_the_line_of(asking: Option<(Seq<char>, bool)>, typed: Seq<char>, about: Option<Seq<char>>) -> (
    Seq<char>,
    Filled,
) {
    match asking {
        Some((answer, secret)) => {
            let said = answered_so_far(answer, secret);
            (said, if said.len() == 0 {
                Filled::Empty
            } else {
                Filled::Typed
            })
        },
        None => if typed.len() > 0 {
            (typed, Filled::Typed)
        } else {
            match about {
                Some(a) => (a, Filled::Empty),
                None => (Seq::empty(), Filled::Empty),
            }
        },
    }
}

/// What the line typed into shows, and whether it holds what was typed.
pub fn in_the_line(asking: Option<(&str, bool)>, typed: &str, about: Option<&str>) -> (r: (String, Filled))
    ensures
        (r.0@, r.1) == in_the_line_of(
            match asking {
                Some((a, secret)) => Some((a@, secret)),
                None => None,
            },
            typed@,
            match about {
                Some(a) => Some(a@),
                None => None,
            },
        ),
{
    match asking {
        Some((answer, secret)) => {
            let letters = text::letters(answer);
            let said = if secret {
                let mut dots: Vec<char> = Vec::new();
                let mut i: usize = 0;
                while i < letters.len()
                    invariant
                        i <= letters@.len(),
                        dots@ =~= Seq::new(i as nat, |k: int| '\u{25cf}'),
                    decreases letters.len() - i,
                {
                    dots.push('\u{25cf}');
                    i += 1;
                }
                dots
            } else {
                letters
            };
            let filled = if said.len() == 0 {
                Filled::Empty
            } else {
                Filled::Typed
            };
            (text::text(&said), filled)
        },
        None => {
            let t = text::letters(typed);
            if t.len() > 0 {
                return (text::text(&t), Filled::Typed);
            }
            match about {
                Some(a) => (text::text(&text::letters(a)), Filled::Empty),
                None => (String::new(), Filled::Empty),
            }
        },
    }
}

/// Whether a key changed what was typed.
#[derive(Debug, Clone, Copy, PartialEq, Eq, Structural)]
pub enum Typed {
    Edited,
    Nothing,
}

/// What a key does to a line being typed into: take the last letter back,
/// type the letter it types, or nothing.
#[derive(Debug, Clone, Copy, PartialEq, Eq, Structural)]
pub enum Typing {
    Back,
    Letter(char),
    Other,
}

/// Whether `c` is a control character: Unicode's general category `Cc`,
/// which is the two runs std's `char::is_control` is documented to answer.
pub open spec fn is_control(c: char) -> bool {
    (c as u32) < 0x20 || (0x7f <= (c as u32) && (c as u32) <= 0x9f)
}

/// What typing `key` leaves in a line that held `typed`, and whether it
/// changed it.
pub open spec fn typed_into_of(typed: Seq<char>, key: Typing) -> (Seq<char>, Typed) {
    match key {
        Typing::Back => if typed.len() > 0 {
            (typed.drop_last(), Typed::Edited)
        } else {
            (typed, Typed::Nothing)
        },
        Typing::Letter(c) => if is_control(c) {
            (typed, Typed::Nothing)
        } else {
            (typed.push(c), Typed::Edited)
        },
        Typing::Other => (typed, Typed::Nothing),
    }
}

/// Types `key` into a line: a letter goes in at its end, and taking one
/// back takes the last one out.
pub fn typed_into(typed: &mut String, key: Typing) -> (r: Typed)
    ensures
        (final(typed)@, r) == typed_into_of(old(typed)@, key),
{
    match key {
        Typing::Back => {
            let mut letters = text::letters(typed.as_str());
            if letters.len() == 0 {
                return Typed::Nothing;
            }
            letters.pop();
            *typed = text::text(&letters);
            Typed::Edited
        },
        Typing::Letter(c) => {
            let n = c as u32;
            if n < 0x20 || (0x7f <= n && n <= 0x9f) {
                return Typed::Nothing;
            }
            let mut letters = text::letters(typed.as_str());
            letters.push(c);
            *typed = text::text(&letters);
            Typed::Edited
        },
        Typing::Other => Typed::Nothing,
    }
}

/// A letter typed and then taken back leaves the line as it was.
pub proof fn lemma_a_letter_taken_back_leaves_the_line_as_it_was(typed: Seq<char>, c: char)
    requires
        !is_control(c),
    ensures
        typed_into_of(typed_into_of(typed, Typing::Letter(c)).0, Typing::Back).0 == typed,
{
    assert(typed.push(c).drop_last() =~= typed);
}

/// What the keys drive: a question of yes or no when one is asked, else a
/// question answered by typing, else the search line of a page that can be
/// searched, else the panel.
pub open spec fn driving_of(sure: bool, asking: bool, searched: bool) -> crate::keys::Driving {
    if sure {
        crate::keys::Driving::Sure
    } else if asking {
        crate::keys::Driving::Question
    } else if searched {
        crate::keys::Driving::Search
    } else {
        crate::keys::Driving::Panel
    }
}

/// What the keys drive, given whether a question of yes or no is asked,
/// whether a question answered by typing is, and whether the page in front
/// can be searched.
pub fn driving(sure: bool, asking: bool, searched: bool) -> (r: crate::keys::Driving)
    ensures
        r == driving_of(sure, asking, searched),
{
    if sure {
        crate::keys::Driving::Sure
    } else if asking {
        crate::keys::Driving::Question
    } else if searched {
        crate::keys::Driving::Search
    } else {
        crate::keys::Driving::Panel
    }
}

/// How round the corners of a card are: eight ninths of an em.
pub const CARD_ROUND: u32 = 16;

/// How a card is drawn under everything on it: how round its corners are,
/// its colour, and whether it is edged in pink. A card opened out over a
/// picture is night and square; a panel that is the whole screen is square;
/// a card on the screen is round and edged.
pub open spec fn card_ground_of(opened: Opened, framing: Framing) -> (u32, Paint, bool) {
    if opened == Opened::Expanded {
        (0, Paint::Night, false)
    } else if framing == Framing::Screen {
        (0, Paint::Panel, false)
    } else {
        (CARD_ROUND, Paint::Panel, true)
    }
}

/// How a card is drawn under everything on it.
pub fn card_ground(opened: Opened, framing: Framing) -> (r: (u32, Paint, bool))
    ensures
        r == card_ground_of(opened, framing),
{
    if opened == Opened::Expanded {
        (0, Paint::Night, false)
    } else if framing == Framing::Screen {
        (0, Paint::Panel, false)
    } else {
        (CARD_ROUND, Paint::Panel, true)
    }
}

/// Where something drawn on its own stands: where it starts across and
/// down, and how wide and tall it is.
#[derive(Debug, Clone, Copy, PartialEq, Eq, Structural)]
pub struct Area {
    pub x: i32,
    pub y: i32,
    pub wide: u32,
    pub tall: u32,
}

/// Where a note the panel shows for a moment stands: a pill as wide as its
/// words and a row's inset either side, in the middle across the card and a
/// margin above its bottom.
pub open spec fn note_spot_of(card: Card, said_wide: u32) -> Area {
    let wide = crate::measure::clamp_u32(said_wide + 2 * INSIDE_A_ROW);
    Area {
        x: crate::measure::clamp_i32(
            card.x + strip::quotient(crate::measure::clamp_i32(card.width - crate::measure::clamp_i32(wide)), 2),
        ) as i32,
        y: crate::measure::clamp_i32(
            crate::measure::clamp_i32(crate::measure::clamp_i32(card.y + card.height) - strip::MARGIN) - FINGER,
        ) as i32,
        wide: wide as u32,
        tall: FINGER as u32,
    }
}

/// Where a note the panel shows for a moment stands, its words `said_wide`
/// wide.
pub fn note_spot(card: &Card, said_wide: u32) -> (r: Area)
    ensures
        r == note_spot_of(*card, said_wide),
{
    let wide: u32 = if said_wide > u32::MAX - 32 {
        u32::MAX
    } else {
        said_wide + 32
    };
    let wide_i: i32 = if wide > i32::MAX as u32 {
        i32::MAX
    } else {
        wide as i32
    };
    let x = crate::measure::more(card.x, strip::divided(crate::measure::less(card.width, wide_i), 2));
    let y = crate::measure::less(crate::measure::less(crate::measure::more(card.y, card.height), strip::MARGIN), FINGER);
    Area { x, y, wide, tall: 48 }
}

/// How tall the caret in a line typed into is: four thirds of an em.
pub const CARET_TALL: i32 = 24;

/// How wide the caret is: a ninth of an em.
pub const CARET: u32 = 2;

/// Where the caret stands in a line typed into that starts at `x`, `y`:
/// just after what has been typed, `typed_wide` wide, or at the start of the
/// line while it only says what it is for; in the middle of the line down.
pub open spec fn caret_of(x: i32, y: i32, filled: Filled, typed_wide: u32) -> Area {
    let written = if filled == Filled::Typed {
        crate::measure::clamp_i32(typed_wide as int)
    } else {
        0
    };
    Area {
        x: crate::measure::clamp_i32(
            crate::measure::clamp_i32(crate::measure::clamp_i32(x + INSIDE_A_ROW) + written) + 1,
        ) as i32,
        y: crate::measure::clamp_i32(y + (FINGER - CARET_TALL) / 2) as i32,
        wide: CARET,
        tall: CARET_TALL as u32,
    }
}

/// Where the caret stands in a line typed into.
pub fn caret(x: i32, y: i32, filled: Filled, typed_wide: u32) -> (r: Area)
    ensures
        r == caret_of(x, y, filled, typed_wide),
{
    let written: i32 = if filled == Filled::Typed {
        if typed_wide > i32::MAX as u32 {
            i32::MAX
        } else {
            typed_wide as i32
        }
    } else {
        0
    };
    Area {
        x: crate::measure::more(crate::measure::more(crate::measure::more(x, INSIDE_A_ROW), written), 1),
        y: crate::measure::more(y, (FINGER - CARET_TALL) / 2),
        wide: CARET,
        tall: 24,
    }
}

/// Where the mark on a selected row stands: at the end of its words, in the
/// middle of the row down.
pub open spec fn selected_mark_of(far: i32, top: i32, height: i32) -> Area {
    Area {
        x: crate::measure::clamp_i32(far - SELECTED_MARK) as i32,
        y: crate::measure::clamp_i32(
            top + strip::quotient(crate::measure::clamp_i32(height - SELECTED_MARK), 2),
        ) as i32,
        wide: SELECTED_MARK as u32,
        tall: SELECTED_MARK as u32,
    }
}

/// Where the mark on a selected row stands.
pub fn selected_mark(far: i32, top: i32, height: i32) -> (r: Area)
    ensures
        r == selected_mark_of(far, top, height),
{
    Area {
        x: crate::measure::less(far, SELECTED_MARK),
        y: crate::measure::more(top, strip::divided(crate::measure::less(height, SELECTED_MARK), 2)),
        wide: 15,
        tall: 15,
    }
}

/// Where words `said_tall` tall stand down a band from `top`, `height`
/// high: in the middle of it.
pub open spec fn middle_of(top: i32, height: i32, said_tall: u32) -> int {
    crate::measure::clamp_i32(
        top + strip::quotient(crate::measure::clamp_i32(height - crate::measure::clamp_i32(said_tall as int)), 2),
    )
}

/// Where words stand down a band: in the middle of it.
pub fn middle(top: i32, height: i32, said_tall: u32) -> (r: i32)
    ensures
        r == middle_of(top, height, said_tall),
{
    let said: i32 = if said_tall > i32::MAX as u32 {
        i32::MAX
    } else {
        said_tall as i32
    };
    crate::measure::more(top, strip::divided(crate::measure::less(height, said), 2))
}

/// Where words `said_wide` by `said_tall` stand in the box `within`: in its
/// middle across, where they fit, or at its start where they do not; in its
/// middle down; and how wide they may run, which is never wider than the
/// box.
pub open spec fn centred_of(within: Area, said_wide: u32, said_tall: u32) -> Area {
    let wide = crate::measure::clamp_i32(within.wide as int);
    let tall = crate::measure::clamp_i32(within.tall as int);
    let said = crate::measure::clamp_i32(said_wide as int);
    Area {
        x: crate::measure::clamp_i32(
            within.x + strip::quotient(crate::measure::larger(crate::measure::clamp_i32(wide - said), 0), 2),
        ) as i32,
        y: middle_of(within.y, tall as i32, said_tall) as i32,
        wide: crate::measure::smaller(crate::measure::clamp_u32(said_wide + 2), within.wide as int) as u32,
        tall: said_tall,
    }
}

/// Where words stand in a box: in its middle.
pub fn centred(within: Area, said_wide: u32, said_tall: u32) -> (r: Area)
    ensures
        r == centred_of(within, said_wide, said_tall),
{
    let wide: i32 = if within.wide > i32::MAX as u32 {
        i32::MAX
    } else {
        within.wide as i32
    };
    let tall: i32 = if within.tall > i32::MAX as u32 {
        i32::MAX
    } else {
        within.tall as i32
    };
    let said: i32 = if said_wide > i32::MAX as u32 {
        i32::MAX
    } else {
        said_wide as i32
    };
    let spare = crate::measure::less(wide, said);
    let spare = if spare >= 0 {
        spare
    } else {
        0
    };
    let room: u32 = if said_wide > u32::MAX - 2 {
        u32::MAX
    } else {
        said_wide + 2
    };
    Area {
        x: crate::measure::more(within.x, spare / 2),
        y: middle(within.y, tall, said_tall),
        wide: if room <= within.wide {
            room
        } else {
            within.wide
        },
        tall: said_tall,
    }
}

/// Words that fit in a box are drawn inside it, as far from either side of
/// it as from the other, give or take a point.
pub proof fn lemma_words_that_fit_are_drawn_inside_their_box(within: Area, said_wide: u32, said_tall: u32)
    requires
        said_wide <= within.wide <= i32::MAX,
        0 <= within.x,
        within.x + within.wide <= i32::MAX,
    ensures
        within.x <= centred_of(within, said_wide, said_tall).x,
        centred_of(within, said_wide, said_tall).x + said_wide <= within.x + within.wide,
        (centred_of(within, said_wide, said_tall).x - within.x) - (within.x + within.wide - (centred_of(
            within,
            said_wide,
            said_tall,
        ).x + said_wide)) <= 0,
        (within.x + within.wide - (centred_of(within, said_wide, said_tall).x + said_wide)) - (centred_of(
            within,
            said_wide,
            said_tall,
        ).x - within.x) <= 1,
{
}

/// How wide the icon of a headline is: two ems.
pub const BIG_GLYPH: i32 = 36;

/// How big the words of a headline are, as measured: its title's height,
/// the width and height of its large reading, and the heights of its icon,
/// of what it says and of what it says beside that.
#[derive(Debug, Clone, Copy, PartialEq, Eq, Structural)]
pub struct HeadlineSaid {
    pub title_tall: u32,
    pub big_wide: u32,
    pub big_tall: u32,
    pub glyph_tall: u32,
    pub says_tall: u32,
    pub aside_tall: u32,
}

/// A point on the card: across and down.
#[derive(Debug, Clone, Copy, PartialEq, Eq, Structural)]
pub struct At {
    pub x: i32,
    pub y: i32,
}

/// Where the parts of a headline stand: the round it is drawn on, its
/// title and the line under it, its large reading at the bottom, its icon,
/// what it says and what it says beside that, and the room for the picture
/// looked at beside it, when there is one.
#[derive(Debug, Clone, Copy, PartialEq, Eq, Structural)]
pub struct HeadlinePlaces {
    pub within: Area,
    pub title: At,
    pub subtitle: At,
    pub big: At,
    pub glyph: At,
    pub says: At,
    pub aside: At,
    pub picture: Option<Area>,
}

/// `x` as an `i32`, held at its end.
pub open spec fn tall_i32(x: u32) -> int {
    crate::measure::clamp_i32(x as int)
}

/// Where the parts of a headline stand in a band from `top`, `height` high,
/// on `card`, measured as `said`, `looked` whether it shows a picture.
pub open spec fn headline_places_of(card: Card, top: i32, height: i32, said: HeadlineSaid, looked: bool) -> HeadlinePlaces {
    let left0 = inside_left_of(card);
    let right0 = inside_right_of(card);
    let wide = crate::measure::clamp_u32(crate::measure::larger(crate::measure::clamp_i32(right0 - left0), 0));
    let tall = crate::measure::clamp_u32(crate::measure::larger(crate::measure::clamp_i32(height - BETWEEN_ROWS), 0));
    let wy = crate::measure::clamp_i32(top + BETWEEN_ROWS / 2);
    let box_wide = crate::measure::clamp_i32(wide);
    let box_tall = crate::measure::clamp_i32(tall);
    let left = crate::measure::clamp_i32(left0 + INSIDE_A_ROW);
    let up = crate::measure::clamp_i32(wy + INSIDE_A_ROW);
    let bottom = crate::measure::clamp_i32(crate::measure::clamp_i32(wy + box_tall) - INSIDE_A_ROW);
    let big_top = crate::measure::clamp_i32(bottom - tall_i32(said.big_tall));
    let beside = crate::measure::clamp_i32(crate::measure::clamp_i32(left + tall_i32(said.big_wide)) + 2 * INSIDE_A_ROW);
    let line_tall = tall_i32(if said.glyph_tall >= said.says_tall {
        said.glyph_tall
    } else {
        said.says_tall
    });
    let block = crate::measure::clamp_i32(line_tall + tall_i32(said.aside_tall));
    let block_top = crate::measure::clamp_i32(
        big_top + strip::quotient(crate::measure::clamp_i32(tall_i32(said.big_tall) - block), 2),
    );
    let words = crate::measure::clamp_i32(crate::measure::clamp_i32(beside + BIG_GLYPH) + 3 * strip::GAP);
    let inset = 8int;
    let share = strip::quotient(crate::measure::clamp_i32(box_wide * 9), 20);
    HeadlinePlaces {
        within: Area { x: left0 as i32, y: wy as i32, wide: wide as u32, tall: tall as u32 },
        title: At { x: left as i32, y: up as i32 },
        subtitle: At { x: left as i32, y: crate::measure::clamp_i32(up + tall_i32(said.title_tall)) as i32 },
        big: At { x: left as i32, y: big_top as i32 },
        glyph: At { x: beside as i32, y: middle_of(block_top as i32, line_tall as i32, said.glyph_tall) as i32 },
        says: At { x: words as i32, y: middle_of(block_top as i32, line_tall as i32, said.says_tall) as i32 },
        aside: At { x: words as i32, y: crate::measure::clamp_i32(block_top + line_tall) as i32 },
        picture: if looked {
            Some(
                Area {
                    x: crate::measure::clamp_i32(crate::measure::clamp_i32(left0 + box_wide) - share) as i32,
                    y: crate::measure::clamp_i32(wy + inset) as i32,
                    wide: crate::measure::clamp_u32(crate::measure::larger(crate::measure::clamp_i32(share - inset), 0))
                        as u32,
                    tall: crate::measure::clamp_u32(
                        crate::measure::larger(crate::measure::clamp_i32(box_tall - 2 * inset), 0),
                    ) as u32,
                },
            )
        } else {
            None
        },
    }
}

/// `x` as an `i32`, held at its end.
fn held(x: u32) -> (r: i32)
    ensures
        r == tall_i32(x),
{
    if x > i32::MAX as u32 {
        i32::MAX
    } else {
        x as i32
    }
}

/// `x` as a `u32`, nought when it is below it.
fn not_below(x: i32) -> (r: u32)
    ensures
        r == crate::measure::clamp_u32(crate::measure::larger(x as int, 0)),
{
    if x < 0 {
        0
    } else {
        x as u32
    }
}

/// Where the parts of a headline stand in a band on a card.
pub fn headline_places(card: &Card, top: i32, height: i32, said: HeadlineSaid, looked: bool) -> (r: HeadlinePlaces)
    ensures
        r == headline_places_of(*card, top, height, said, looked),
{
    let left0 = crate::measure::more(crate::measure::more(card.x, strip::EDGE), strip::MARGIN);
    let right0 = crate::measure::less(crate::measure::less(crate::measure::more(card.x, card.width), strip::EDGE), strip::MARGIN);
    let wide = not_below(crate::measure::less(right0, left0));
    let tall = not_below(crate::measure::less(height, BETWEEN_ROWS));
    let wy = crate::measure::more(top, BETWEEN_ROWS / 2);
    let box_wide = held(wide);
    let box_tall = held(tall);
    let left = crate::measure::more(left0, INSIDE_A_ROW);
    let up = crate::measure::more(wy, INSIDE_A_ROW);
    let bottom = crate::measure::less(crate::measure::more(wy, box_tall), INSIDE_A_ROW);
    let big_top = crate::measure::less(bottom, held(said.big_tall));
    let beside = crate::measure::more(crate::measure::more(left, held(said.big_wide)), 2 * INSIDE_A_ROW);
    let line_tall = held(if said.glyph_tall >= said.says_tall {
        said.glyph_tall
    } else {
        said.says_tall
    });
    let block = crate::measure::more(line_tall, held(said.aside_tall));
    let block_top = crate::measure::more(big_top, strip::divided(crate::measure::less(held(said.big_tall), block), 2));
    let words = crate::measure::more(crate::measure::more(beside, BIG_GLYPH), 3 * strip::GAP);
    let share = strip::divided(crate::measure::times(box_wide, 9), 20);
    let picture = if looked {
        Some(
            Area {
                x: crate::measure::less(crate::measure::more(left0, box_wide), share),
                y: crate::measure::more(wy, 8),
                wide: not_below(crate::measure::less(share, 8)),
                tall: not_below(crate::measure::less(box_tall, 16)),
            },
        )
    } else {
        None
    };
    HeadlinePlaces {
        within: Area { x: left0, y: wy, wide, tall },
        title: At { x: left, y: up },
        subtitle: At { x: left, y: crate::measure::more(up, held(said.title_tall)) },
        big: At { x: left, y: big_top },
        glyph: At { x: beside, y: middle(block_top, line_tall, said.glyph_tall) },
        says: At { x: words, y: middle(block_top, line_tall, said.says_tall) },
        aside: At { x: words, y: crate::measure::more(block_top, line_tall) },
        picture,
    }
}

/// How tall the large reading of a headline is written: four ems.
pub const BIG: u32 = 72;

/// Where the parts of a headline written at the right stand: the rule under
/// it, how tall its reading may be written, its reading, and its title.
#[derive(Debug, Clone, Copy, PartialEq, Eq, Structural)]
pub struct TrailingPlaces {
    pub rule: Area,
    pub big_height: u32,
    pub big: At,
    pub title: At,
}

/// How tall the reading of a headline written at the right may be, in a
/// band from `top` whose rule stands at `rule_at`: three times the usual,
/// or the room there is, and never nothing.
pub open spec fn trailing_big_of(top: i32, rule_at: int) -> int {
    let room = crate::measure::clamp_u32(
        crate::measure::larger(crate::measure::clamp_i32(crate::measure::clamp_i32(rule_at - top) - INSIDE_A_ROW), 0),
    );
    crate::measure::larger(crate::measure::smaller(3 * BIG, room), 1)
}

/// Where the parts of a headline written at the right stand in a band from
/// `top`, `height` high, on `card`: a rule across the card a row's inset
/// above the band's bottom, the reading, `big_wide` by `big_tall`, at the
/// right over the rule, and the title, `title_tall` high, at the left with
/// its foot on the reading's.
pub open spec fn trailing_places_of(card: Card, top: i32, height: i32, title_tall: u32, big_wide: u32, big_tall: u32) -> TrailingPlaces {
    let left = inside_left_of(card);
    let right = inside_right_of(card);
    let wide = crate::measure::clamp_u32(crate::measure::larger(crate::measure::clamp_i32(right - left), 0));
    let rule_at = crate::measure::clamp_i32(crate::measure::clamp_i32(top + height) - INSIDE_A_ROW);
    let end = crate::measure::clamp_i32(right - strip::GAP);
    let big_top = crate::measure::clamp_i32(crate::measure::clamp_i32(rule_at - INSIDE_A_ROW) - tall_i32(big_tall));
    let title_top = crate::measure::clamp_i32(crate::measure::clamp_i32(big_top + tall_i32(big_tall)) - tall_i32(title_tall));
    TrailingPlaces {
        rule: Area { x: left as i32, y: rule_at as i32, wide: wide as u32, tall: 2 },
        big_height: trailing_big_of(top, rule_at) as u32,
        big: At { x: crate::measure::clamp_i32(end - tall_i32(big_wide)) as i32, y: big_top as i32 },
        title: At { x: crate::measure::clamp_i32(left + strip::GAP) as i32, y: title_top as i32 },
    }
}

/// Where the parts of a headline written at the right stand.
pub fn trailing_places(card: &Card, top: i32, height: i32, title_tall: u32, big_wide: u32, big_tall: u32) -> (r: TrailingPlaces)
    ensures
        r == trailing_places_of(*card, top, height, title_tall, big_wide, big_tall),
{
    let left = crate::measure::more(crate::measure::more(card.x, strip::EDGE), strip::MARGIN);
    let right = crate::measure::less(crate::measure::less(crate::measure::more(card.x, card.width), strip::EDGE), strip::MARGIN);
    let wide = not_below(crate::measure::less(right, left));
    let rule_at = crate::measure::less(crate::measure::more(top, height), INSIDE_A_ROW);
    let end = crate::measure::less(right, strip::GAP);
    let room = not_below(crate::measure::less(crate::measure::less(rule_at, top), INSIDE_A_ROW));
    let big_height = if 3 * BIG <= room {
        3 * BIG
    } else if room >= 1 {
        room
    } else {
        1
    };
    let big_top = crate::measure::less(crate::measure::less(rule_at, INSIDE_A_ROW), held(big_tall));
    let title_top = crate::measure::less(crate::measure::more(big_top, held(big_tall)), held(title_tall));
    TrailingPlaces {
        rule: Area { x: left, y: rule_at, wide, tall: 2 },
        big_height,
        big: At { x: crate::measure::less(end, held(big_wide)), y: big_top },
        title: At { x: crate::measure::more(left, strip::GAP), y: title_top },
    }
}

/// Where the picture at the front of a row stands, in a line from `top`,
/// `tall` high, whose row starts at `left`: a square a picture wide, just
/// inside the row's start and in the middle of it down.
pub open spec fn picture_square_of(left: i32, top: i32, tall: i32) -> Area {
    Area {
        x: crate::measure::clamp_i32(crate::measure::clamp_i32(left + INSIDE_A_ROW) - strip::GAP) as i32,
        y: crate::measure::clamp_i32(
            top + strip::quotient(crate::measure::clamp_i32(tall - strip::PICTURE), 2),
        ) as i32,
        wide: strip::PICTURE as u32,
        tall: strip::PICTURE as u32,
    }
}

/// Where the picture at the front of a row stands.
pub fn picture_square(left: i32, top: i32, tall: i32) -> (r: Area)
    ensures
        r == picture_square_of(left, top, tall),
{
    Area {
        x: crate::measure::less(crate::measure::more(left, INSIDE_A_ROW), strip::GAP),
        y: crate::measure::more(top, strip::divided(crate::measure::less(tall, strip::PICTURE), 2)),
        wide: 32,
        tall: 32,
    }
}

/// The colour an icon at the front of a row is drawn in: night on the row
/// the highlight is on, pink on any other.
pub fn icon_ink(lit: Lit) -> (r: Paint)
    ensures
        r == (if lit == Lit::Row {
            Paint::Night
        } else {
            Paint::Pink
        }),
{
    match lit {
        Lit::Row => Paint::Night,
        _ => Paint::Pink,
    }
}

/// The words of a row start after the picture at its front, a gap clear
/// of it, on a row that stands on the card.
pub proof fn lemma_the_words_start_after_the_picture(row: Row, left: i32, top: i32, tall: i32)
    requires
        0 <= left <= i32::MAX - 64,
        row.picture is Named || row.picture is At || row.picture is Space,
    ensures
        picture_square_of(left, top, tall).x + picture_square_of(left, top, tall).wide + strip::GAP
            <= left + INSIDE_A_ROW + beside_the_words_of(row.picture),
{
}

/// Whether `s` is what a card writes down of the part a hand can land on at
/// `r`: its name, where it starts, how big it is, and whether it scrolls
/// with the rows, which is whether it belongs to one.
pub open spec fn told_spot(s: crate::telling::Spot, r: Reach) -> bool {
    &&& s.name@ == named_of(r.lands).0
    &&& s.at == (r.x, r.y)
    &&& s.big == (crate::measure::clamp_i32(r.wide as int) as i32, crate::measure::clamp_i32(r.tall as int) as i32)
    &&& s.scrolls == (if named_of(r.lands).1 == Owner::Card {
        crate::telling::Scrolls::No
    } else {
        crate::telling::Scrolls::Yes
    })
}

/// The parts of `touching` that belong to `owner`, in order.
pub open spec fn owned_by(touching: Seq<Reach>, owner: Owner) -> Seq<Reach>
    decreases touching.len(),
{
    if touching.len() == 0 {
        Seq::empty()
    } else {
        let rest = owned_by(touching.drop_last(), owner);
        if named_of(touching.last().lands).1 == owner {
            rest.push(touching.last())
        } else {
            rest
        }
    }
}

/// Whether `spots` is what a card writes down of the parts `reach`, one
/// for one, in order.
pub open spec fn spots_said(spots: Seq<crate::telling::Spot>, reach: Seq<Reach>) -> bool {
    &&& spots.len() == reach.len()
    &&& forall|i: int| 0 <= i < spots.len() ==> #[trigger] told_spot(spots[i], reach[i])
}

/// The rows among the first `n` that a hand can land on some part of, in
/// order.
pub open spec fn touched_rows(touching: Seq<Reach>, n: nat) -> Seq<nat>
    decreases n,
{
    if n == 0 {
        Seq::empty()
    } else {
        let before = touched_rows(touching, (n - 1) as nat);
        if owned_by(touching, Owner::Row((n - 1) as u32)).len() > 0 {
            before.push((n - 1) as nat)
        } else {
            before
        }
    }
}

/// Whether `line` is what a card writes down of the row `row` at `at`,
/// whose parts a hand can land on are `reach`, with the highlight standing
/// on the row `standing`, beside it or not.
pub open spec fn line_said(
    line: crate::telling::Line,
    row: Row,
    at: nat,
    reach: Seq<Reach>,
    standing: Option<u32>,
    beside: page::Beside,
) -> bool {
    &&& line.at == at
    &&& line.says@ == row.says@
    &&& line.aside@ == row.aside@
    &&& line.offers == (if wears_of(row) == page::Wears::WhatElse {
        crate::telling::Offers::Yes
    } else {
        crate::telling::Offers::No
    })
    &&& line.bare == (if page::bare_of(row) {
        crate::telling::Bare::Yes
    } else {
        crate::telling::Bare::No
    })
    &&& line.standing == (if standing == Some(at as u32) {
        if beside == page::Beside::Yes {
            crate::telling::Standing::Beside
        } else {
            crate::telling::Standing::On
        }
    } else {
        crate::telling::Standing::No
    })
    &&& spots_said(line.spots@, reach)
}

/// What a card writes down of the part a hand can land on at `r`.
fn spot_from(r: &Reach) -> (s: crate::telling::Spot)
    ensures
        told_spot(s, *r),
{
    let (name, owner) = r.lands.named();
    let wide: i32 = if r.wide > i32::MAX as u32 {
        i32::MAX
    } else {
        r.wide as i32
    };
    let tall: i32 = if r.tall > i32::MAX as u32 {
        i32::MAX
    } else {
        r.tall as i32
    };
    crate::telling::Spot {
        name: text::text(&text::letters(name)),
        at: (r.x, r.y),
        big: (wide, tall),
        scrolls: if owner == Owner::Card {
            crate::telling::Scrolls::No
        } else {
            crate::telling::Scrolls::Yes
        },
    }
}

/// What a card writes down of the parts of `touching` that belong to
/// `owner`.
fn owned(touching: &Vec<Reach>, owner: Owner) -> (v: Vec<crate::telling::Spot>)
    ensures
        spots_said(v@, owned_by(touching@, owner)),
{
    let mut v: Vec<crate::telling::Spot> = Vec::new();
    let mut i: usize = 0;
    while i < touching.len()
        invariant
            i <= touching@.len(),
            spots_said(v@, owned_by(touching@.take(i as int), owner)),
        decreases touching.len() - i,
    {
        let ghost before = v@;
        assert(touching@.take(i + 1).drop_last() =~= touching@.take(i as int));
        assert(touching@.take(i + 1).last() == touching@[i as int]);
        let (_name, whose) = touching[i].lands.named();
        if whose == owner {
            let s = spot_from(&touching[i]);
            v.push(s);
            assert forall|k: int| 0 <= k < v@.len() implies #[trigger] told_spot(
                v@[k],
                owned_by(touching@.take(i + 1), owner)[k],
            ) by {
                if k < before.len() {
                    assert(v@[k] == before[k]);
                }
            }
        }
        i += 1;
    }
    assert(touching@.take(touching@.len() as int) =~= touching@);
    v
}

/// What a card says it drew: which panel it is, which tab is in front,
/// whether it is opened out, how big the screen is, the parts of the card
/// a hand can land on, and for each row a hand can land on some part of,
/// in order, what it says and what is written beside it, whether it offers
/// more and whether it wears no marks, whether the highlight stands on it or
/// beside it, and the parts of it a hand can land on.
pub fn what_it_drew(
    panel: &str,
    tab: &str,
    opened: Opened,
    room: (i32, i32),
    touching: &Vec<Reach>,
    rows: &Vec<Row>,
    standing: Option<u32>,
    beside: page::Beside,
) -> (told: crate::telling::Told)
    requires
        rows@.len() <= u32::MAX,
    ensures
        told.panel@ == panel@,
        told.tab@ == tab@,
        told.out == (if opened == Opened::Expanded {
            crate::telling::Out::Yes
        } else {
            crate::telling::Out::No
        }),
        told.room == room,
        spots_said(told.spots@, owned_by(touching@, Owner::Card)),
        told.lines@.len() == touched_rows(touching@, rows@.len()).len(),
        forall|j: int|
            0 <= j < told.lines@.len() ==> #[trigger] line_said(
                told.lines@[j],
                rows@[touched_rows(touching@, rows@.len())[j] as int],
                touched_rows(touching@, rows@.len())[j],
                owned_by(touching@, Owner::Row(touched_rows(touching@, rows@.len())[j] as u32)),
                standing,
                beside,
            ),
{
    let card = owned(touching, Owner::Card);
    let mut lines: Vec<crate::telling::Line> = Vec::new();
    let mut at: usize = 0;
    while at < rows.len()
        invariant
            at <= rows@.len() <= u32::MAX,
            lines@.len() == touched_rows(touching@, at as nat).len(),
            forall|j: int| 0 <= j < lines@.len() ==> touched_rows(touching@, at as nat)[j] < at,
            forall|j: int|
                0 <= j < lines@.len() ==> #[trigger] line_said(
                    lines@[j],
                    rows@[touched_rows(touching@, at as nat)[j] as int],
                    touched_rows(touching@, at as nat)[j],
                    owned_by(touching@, Owner::Row(touched_rows(touching@, at as nat)[j] as u32)),
                    standing,
                    beside,
                ),
        decreases rows.len() - at,
    {
        let ghost before = lines@;
        let ghost touched = touched_rows(touching@, at as nat);
        let spots = owned(touching, Owner::Row(at as u32));
        if spots.len() > 0 {
            let row = &rows[at];
            let offers = if page::wears(row) == page::Wears::WhatElse {
                crate::telling::Offers::Yes
            } else {
                crate::telling::Offers::No
            };
            let bare = if page::bare(row) == page::Bare::Yes {
                crate::telling::Bare::Yes
            } else {
                crate::telling::Bare::No
            };
            let stands = match standing {
                Some(s) => s == at as u32,
                None => false,
            };
            let standing_here = if stands {
                if beside == page::Beside::Yes {
                    crate::telling::Standing::Beside
                } else {
                    crate::telling::Standing::On
                }
            } else {
                crate::telling::Standing::No
            };
            let line = crate::telling::Line {
                at,
                says: text::text(&text::letters(row.says.as_str())),
                aside: text::text(&text::letters(row.aside.as_str())),
                offers,
                bare,
                standing: standing_here,
                spots,
            };
            assert(line_said(line, rows@[at as int], at as nat, owned_by(touching@, Owner::Row(at as u32)), standing, beside));
            lines.push(line);
            assert(touched_rows(touching@, at as nat + 1) == touched.push(at as nat));
            assert forall|j: int| 0 <= j < lines@.len() implies #[trigger] line_said(
                lines@[j],
                rows@[touched_rows(touching@, at as nat + 1)[j] as int],
                touched_rows(touching@, at as nat + 1)[j],
                owned_by(touching@, Owner::Row(touched_rows(touching@, at as nat + 1)[j] as u32)),
                standing,
                beside,
            ) by {
                if j < before.len() {
                    assert(lines@[j] == before[j]);
                    assert(touched_rows(touching@, at as nat + 1)[j] == touched[j]);
                }
            }
        } else {
            assert(touched_rows(touching@, at as nat + 1) == touched);
        }
        at += 1;
    }
    crate::telling::Told {
        panel: text::text(&text::letters(panel)),
        tab: text::text(&text::letters(tab)),
        out: if opened == Opened::Expanded {
            crate::telling::Out::Yes
        } else {
            crate::telling::Out::No
        },
        room,
        lines,
        spots: card,
    }
}

/// A card tells each row a hand can land on once, in the order of the
/// list, and no row past its end.
pub proof fn lemma_rows_are_told_once_in_order(touching: Seq<Reach>, n: nat, j: int, k: int)
    requires
        0 <= j < k < touched_rows(touching, n).len(),
    ensures
        touched_rows(touching, n)[j] < touched_rows(touching, n)[k] < n,
    decreases n,
{
    lemma_touched_rows_are_below(touching, n);
    if n > 0 {
        let before = touched_rows(touching, (n - 1) as nat);
        lemma_touched_rows_are_below(touching, (n - 1) as nat);
        if k < before.len() {
            lemma_rows_are_told_once_in_order(touching, (n - 1) as nat, j, k);
        } else {
            assert(touched_rows(touching, n)[j] == before[j]);
        }
    }
}

/// Every row told is one of the first `n`.
proof fn lemma_touched_rows_are_below(touching: Seq<Reach>, n: nat)
    ensures
        forall|k: int| 0 <= k < touched_rows(touching, n).len() ==> #[trigger] touched_rows(touching, n)[k] < n,
    decreases n,
{
    if n > 0 {
        let before = touched_rows(touching, (n - 1) as nat);
        lemma_touched_rows_are_below(touching, (n - 1) as nat);
        assert forall|k: int| 0 <= k < touched_rows(touching, n).len() implies #[trigger] touched_rows(touching, n)[k]
            < n by {
            if k < before.len() {
                assert(touched_rows(touching, n)[k] == before[k]);
            }
        }
    }
}

/// What a tap on a card comes to, once where the highlight stands has
/// followed the finger.
#[derive(Debug, Clone, Copy, PartialEq, Eq, Structural)]
pub enum Tap {
    /// The row at the first is acted on: chosen, or asked what else it
    /// offers.
    Act(u32, Selection),
    /// The question asked is answered with the answer at this.
    Answer(u32),
    /// The level of the row at the first is moved by the second.
    Level(u32, i32),
    /// The bar of the row at the first, starting at the second and as wide as
    /// the third, is sought along to where the finger landed.
    Seek(u32, i32, u32),
    /// The question standing over the list is put away.
    PutQuestionAway,
    /// What backing out came to.
    Backed(Outcome),
    /// Nothing more is done.
    Staying,
}

/// Where the highlight stands once a finger lands on `lands`, on a card of
/// `rows` with `tabs` tabs, and what the tap comes to: `selects` whether
/// the page acts on a selection, `off` whether a finger that landed on
/// nothing landed off the card, and `asked` whether a question stands over
/// the list.
pub open spec fn tapped_of(
    s: Steered,
    lands: Option<Lands>,
    rows: Seq<Row>,
    tabs: u32,
    selects: bool,
    off: bool,
    asked: bool,
) -> (Steered, Tap) {
    match lands {
        Some(Lands::Row(landed)) => if landed < rows.len() {
            (Steered { at: Some(landed), beside: Beside::No, ..s }, Tap::Act(landed, Selection::Chose))
        } else {
            (s, Tap::Staying)
        },
        Some(Lands::Answer(which)) => (s, Tap::Answer(which)),
        Some(Lands::Nudge { row, step }) => (Steered { at: Some(row), beside: Beside::No, ..s }, Tap::Level(row, step)),
        Some(Lands::Else(row)) => (Steered { at: Some(row), ..s }, Tap::Act(row, Selection::Else)),
        Some(Lands::ButtonPress { row, which }) => (
            Steered { at: Some(row), beside: Beside::No, pressing: Some((row, which)), ..s },
            Tap::Act(row, Selection::Chose),
        ),
        Some(Lands::Seek { row, from, wide }) => (
            Steered { at: Some(row), beside: Beside::No, ..s },
            Tap::Seek(row, from, wide),
        ),
        Some(Lands::Tab(which)) => (stood_on_of(s, which), Tap::Staying),
        Some(Lands::More(step)) => (told_of(s, Meaning::Tab(step), rows, tabs, selects).0, Tap::Staying),
        Some(Lands::Back) => {
            let (after, outcome) = told_of(Steered { leaving: Leaving::No, ..s }, Meaning::Close, rows, tabs, selects);
            (after, Tap::Backed(outcome))
        },
        None => if !off {
            (s, Tap::Staying)
        } else if asked {
            (s, Tap::PutQuestionAway)
        } else {
            let (after, outcome) = told_of(s, Meaning::Close, rows, tabs, selects);
            (after, Tap::Backed(outcome))
        },
    }
}

/// Moves where the highlight stands to where a finger landed, and says
/// what the tap comes to.
pub fn tapped(
    state: &mut Steering,
    lands: Option<Lands>,
    rows: &Vec<Row>,
    tabs: u32,
    selects: bool,
    off: bool,
    asked: bool,
) -> (r: Tap)
    requires
        rows@.len() <= i32::MAX,
    ensures
        (final(state)@, r) == tapped_of(old(state)@, lands, rows@, tabs, selects, off, asked),
{
    match lands {
        Some(Lands::Row(landed)) => {
            if (landed as usize) < rows.len() {
                state.at = Some(landed);
                state.beside = Beside::No;
                Tap::Act(landed, Selection::Chose)
            } else {
                Tap::Staying
            }
        },
        Some(Lands::Answer(which)) => Tap::Answer(which),
        Some(Lands::Nudge { row, step }) => {
            state.at = Some(row);
            state.beside = Beside::No;
            Tap::Level(row, step)
        },
        Some(Lands::Else(row)) => {
            state.at = Some(row);
            Tap::Act(row, Selection::Else)
        },
        Some(Lands::ButtonPress { row, which }) => {
            state.at = Some(row);
            state.beside = Beside::No;
            state.pressing = Some((row, which));
            Tap::Act(row, Selection::Chose)
        },
        Some(Lands::Seek { row, from, wide }) => {
            state.at = Some(row);
            state.beside = Beside::No;
            Tap::Seek(row, from, wide)
        },
        Some(Lands::Tab(which)) => {
            stood_on(state, which);
            Tap::Staying
        },
        Some(Lands::More(step)) => {
            let _turned = told(state, Meaning::Tab(step), rows, tabs, selects);
            Tap::Staying
        },
        Some(Lands::Back) => {
            state.leaving = Leaving::No;
            let outcome = told(state, Meaning::Close, rows, tabs, selects);
            Tap::Backed(outcome)
        },
        None => {
            if !off {
                Tap::Staying
            } else if asked {
                Tap::PutQuestionAway
            } else {
                let outcome = told(state, Meaning::Close, rows, tabs, selects);
                Tap::Backed(outcome)
            }
        },
    }
}

/// A finger on the card that lands on nothing does nothing, and one off
/// the card puts away the question over the list before anything else.
pub proof fn lemma_a_tap_on_nothing_on_the_card_does_nothing(
    s: Steered,
    rows: Seq<Row>,
    tabs: u32,
    selects: bool,
    asked: bool,
)
    ensures
        tapped_of(s, None, rows, tabs, selects, false, asked) == (s, Tap::Staying),
        asked ==> tapped_of(s, None, rows, tabs, selects, true, asked) == (s, Tap::PutQuestionAway),
{
}

/// What a key pressed on a card is for.
#[derive(Debug, Clone, Copy, PartialEq, Eq, Structural)]
pub enum Pressed {
    /// The question answered by typing is put away.
    DropQuestion,
    /// The question of yes or no is put away.
    DropSure,
    /// The answer leaned on moves by this.
    Lean(i32),
    /// The answer leaned on is taken.
    TakeSure,
    /// What was typed answers the question.
    Answer,
    /// The key is typed into the answer.
    TypeIntoQuestion,
    /// The key is typed into the search, and the list narrowed when that
    /// changed it.
    TypeIntoSearch,
    /// Nothing more: a question stands over the list.
    Staying,
    /// The key steers the card.
    Steer,
}

/// What a key meaning `meaning` is for while the keys drive `driving`:
/// `entered` whether it is the key that enters what was typed, and `asked`
/// whether a question stands over the list.
pub open spec fn pressed_here_of(meaning: Meaning, driving: crate::keys::Driving, entered: bool, asked: bool) -> Pressed {
    match (meaning, driving) {
        (Meaning::Abandon, crate::keys::Driving::Question) => Pressed::DropQuestion,
        (Meaning::Abandon, crate::keys::Driving::Sure) => Pressed::DropSure,
        (Meaning::Nudge(step), crate::keys::Driving::Sure) => Pressed::Lean(step),
        (Meaning::Choose, crate::keys::Driving::Sure) => Pressed::TakeSure,
        (Meaning::Nothing, crate::keys::Driving::Question) => if entered {
            Pressed::Answer
        } else {
            Pressed::TypeIntoQuestion
        },
        (Meaning::Nothing, crate::keys::Driving::Search) => Pressed::TypeIntoSearch,
        _ => if asked {
            Pressed::Staying
        } else {
            Pressed::Steer
        },
    }
}

/// What a key pressed on a card is for.
pub fn pressed_here(meaning: Meaning, driving: crate::keys::Driving, entered: bool, asked: bool) -> (r: Pressed)
    ensures
        r == pressed_here_of(meaning, driving, entered, asked),
{
    match (meaning, driving) {
        (Meaning::Abandon, crate::keys::Driving::Question) => Pressed::DropQuestion,
        (Meaning::Abandon, crate::keys::Driving::Sure) => Pressed::DropSure,
        (Meaning::Nudge(step), crate::keys::Driving::Sure) => Pressed::Lean(step),
        (Meaning::Choose, crate::keys::Driving::Sure) => Pressed::TakeSure,
        (Meaning::Nothing, crate::keys::Driving::Question) => if entered {
            Pressed::Answer
        } else {
            Pressed::TypeIntoQuestion
        },
        (Meaning::Nothing, crate::keys::Driving::Search) => Pressed::TypeIntoSearch,
        _ => if asked {
            Pressed::Staying
        } else {
            Pressed::Steer
        },
    }
}

/// While a question stands over the list, no key steers the card.
pub proof fn lemma_a_question_keeps_the_keys(meaning: Meaning, driving: crate::keys::Driving, entered: bool)
    ensures
        pressed_here_of(meaning, driving, entered, true) != Pressed::Steer,
{
}

/// What a row asked of the card while it ran: to stand on a row, to turn to
/// a tab, to open out or not, to turn opening out over, and what to select.
#[derive(Debug, Clone, PartialEq, Eq)]
pub struct Asks {
    pub at: Option<u32>,
    pub tab: Option<u32>,
    pub opened: Option<Opened>,
    pub toggled: bool,
    pub selecting: Option<Vec<String>>,
}

/// Where the highlight stands once what a row asked is done, on a card of
/// `tabs` tabs: it stands on the row asked for; a tab asked for is turned
/// to, or the last when there is none past it, and starts afresh; opening
/// out is as asked, then turned over when asked; and what is selected is
/// what was asked for.
pub open spec fn onto_of(
    s: Steered,
    at: Option<u32>,
    tab: Option<u32>,
    opened: Option<Opened>,
    toggled: bool,
    selecting: Option<Seq<Seq<char>>>,
    tabs: nat,
) -> Steered {
    let s1 = match at {
        Some(a) => Steered { at: Some(a), ..s },
        None => s,
    };
    let s2 = match tab {
        Some(t) => {
            let last = crate::measure::clamp_u32(short_of(tabs as int, 1));
            Steered {
                here: crate::measure::smaller(t as int, last) as u32,
                selected: Seq::empty(),
                opened: Opened::No,
                at: None,
                scroll: 0,
                ..s1
            }
        },
        None => s1,
    };
    let s3 = match opened {
        Some(o) => Steered { opened: o, ..s2 },
        None => s2,
    };
    let s4 = if toggled {
        Steered {
            opened: if s3.opened == Opened::Expanded {
                Opened::No
            } else {
                Opened::Expanded
            },
            ..s3
        }
    } else {
        s3
    };
    match selecting {
        Some(keys) => Steered { selected: keys, ..s4 },
        None => s4,
    }
}

/// Does what a row asked of the card while it ran.
pub fn onto(state: &mut Steering, asks: Asks, tabs: usize)
    ensures
        final(state)@ == onto_of(
            old(state)@,
            asks.at,
            asks.tab,
            asks.opened,
            asks.toggled,
            match asks.selecting {
                Some(keys) => Some(keys@.map_values(|k: String| k@)),
                None => None,
            },
            tabs as nat,
        ),
{
    match asks.at {
        Some(a) => state.at = Some(a),
        None => {},
    }
    match asks.tab {
        Some(t) => {
            let last = fitted_u32(if tabs >= 1 {
                tabs - 1
            } else {
                0
            });
            state.here = if t <= last {
                t
            } else {
                last
            };
            state.selected = Vec::new();
            state.opened = Opened::No;
            state.at = None;
            state.scroll = 0;
            assert(state@.selected =~= Seq::<Seq<char>>::empty());
        },
        None => {},
    }
    match asks.opened {
        Some(o) => state.opened = o,
        None => {},
    }
    if asks.toggled {
        state.opened = if state.opened == Opened::Expanded {
            Opened::No
        } else {
            Opened::Expanded
        };
    }
    match asks.selecting {
        Some(keys) => state.selected = keys,
        None => {},
    }
}

/// The answer that marks every row of the page that can be selected.
pub const SELECT_ALL: &'static str = "Select All";

/// The answer that unmarks every row.
pub const DESELECT_ALL: &'static str = "Deselect All";

/// The keys of those of `rows` that can be selected, in order.
pub open spec fn keys_of(rows: Seq<Row>) -> Seq<Seq<char>>
    decreases rows.len(),
{
    if rows.len() == 0 {
        Seq::empty()
    } else {
        let before = keys_of(rows.drop_last());
        match rows.last().key {
            Some(k) => before.push(k@),
            None => before,
        }
    }
}

/// What of `selected` is still on the card, in the order it was selected.
pub open spec fn still_selected_of(selected: Seq<Seq<char>>, rows: Seq<Row>) -> Seq<Seq<char>> {
    selected.filter(|k: Seq<char>| keyed(rows, k))
}

/// What of what is selected is still on the card, in the order selected.
pub fn still_selected(state: &Steering, rows: &Vec<Row>) -> (r: Vec<String>)
    ensures
        r@.map_values(|k: String| k@) == still_selected_of(state@.selected, rows@),
{
    let ghost was = state@.selected;
    let mut kept: Vec<String> = Vec::new();
    let mut j: usize = 0;
    while j < state.selected.len()
        invariant
            j <= state.selected@.len(),
            was == state@.selected,
            kept@.map_values(|k: String| k@) == was.take(j as int).filter(
                |k: Seq<char>| keyed(rows@, k),
            ),
        decreases state.selected.len() - j,
    {
        let ghost before = was.take(j as int);
        assert(was.take(j + 1) =~= before.push(was[j as int]));
        proof {
            reveal(Seq::filter);
            assert(before.push(was[j as int]).drop_last() =~= before);
        }
        if is_keyed(rows, &state.selected[j]) {
            let ghost had = kept@.map_values(|k: String| k@);
            kept.push(state.selected[j].clone());
            assert(kept@.map_values(|k: String| k@) =~= had.push(was[j as int]));
        }
        j += 1;
    }
    assert(was.take(j as int) =~= was);
    kept
}

/// The keys of those of `rows` that can be selected, in order.
pub fn every_key(rows: &Vec<Row>) -> (r: Vec<String>)
    ensures
        r@.map_values(|k: String| k@) == keys_of(rows@),
{
    let mut keys: Vec<String> = Vec::new();
    let mut i: usize = 0;
    while i < rows.len()
        invariant
            i <= rows@.len(),
            keys@.map_values(|k: String| k@) == keys_of(rows@.take(i as int)),
        decreases rows.len() - i,
    {
        assert(rows@.take(i + 1).drop_last() =~= rows@.take(i as int));
        match &rows[i].key {
            Some(k) => {
                let ghost had = keys@.map_values(|k: String| k@);
                keys.push(k.clone());
                assert(keys@.map_values(|k: String| k@) =~= had.push(k@));
            },
            None => {},
        }
        i += 1;
    }
    assert(rows@.take(i as int) =~= rows@);
    keys
}

/// The question asked of a selection: how many things are selected, then
/// the word.
pub open spec fn what_to_do_question(many: nat) -> Seq<char> {
    crate::decimal::digits(many) + " Selected"@
}

/// The answers offered for a selection: cancel, then what the page does
/// with a selection, then marking every row, then unmarking them all.
pub open spec fn what_to_do_answers(acts: Seq<Seq<char>>) -> Seq<Seq<char>> {
    seq![crate::marks::CANCEL@] + acts + seq![SELECT_ALL@, DESELECT_ALL@]
}

/// What a page asks when asked what to do with its selection: the question,
/// the answers, what is selected and still on it, and every key on it.
pub struct WhatToDo {
    pub question: String,
    pub answers: Vec<String>,
    pub keys: Vec<String>,
    pub every: Vec<String>,
}

/// What the page in front asks when asked what to do with its selection,
/// given what it does with one (`acts`, by what each says).
pub fn what_to_do(state: &Steering, rows: &Vec<Row>, acts: &Vec<String>) -> (r: WhatToDo)
    ensures
        r.keys@.map_values(|k: String| k@) == still_selected_of(state@.selected, rows@),
        r.every@.map_values(|k: String| k@) == keys_of(rows@),
        r.question@ == what_to_do_question(still_selected_of(state@.selected, rows@).len()),
        r.answers@.map_values(|a: String| a@) == what_to_do_answers(
            acts@.map_values(|a: String| a@),
        ),
{
    let keys = still_selected(state, rows);
    let every = every_key(rows);
    assert(keys@.map_values(|k: String| k@).len() == keys@.len());
    let mut question = crate::decimal::written(keys.len() as u64);
    text::extend(&mut question, &text::letters(" Selected"));
    let mut answers: Vec<String> = Vec::new();
    answers.push(crate::marks::CANCEL.to_owned());
    let mut i: usize = 0;
    while i < acts.len()
        invariant
            i <= acts@.len(),
            answers@.map_values(|a: String| a@) == seq![crate::marks::CANCEL@] + acts@.take(
                i as int,
            ).map_values(|a: String| a@),
        decreases acts.len() - i,
    {
        let ghost had = answers@.map_values(|a: String| a@);
        answers.push(acts[i].clone());
        assert(acts@.take(i + 1).map_values(|a: String| a@) =~= acts@.take(i as int).map_values(
            |a: String| a@,
        ).push(acts@[i as int]@));
        assert(answers@.map_values(|a: String| a@) =~= had.push(acts@[i as int]@));
        i += 1;
    }
    assert(acts@.take(i as int) =~= acts@);
    let ghost had = answers@.map_values(|a: String| a@);
    answers.push(SELECT_ALL.to_owned());
    answers.push(DESELECT_ALL.to_owned());
    assert(answers@.map_values(|a: String| a@) =~= had + seq![SELECT_ALL@, DESELECT_ALL@]);
    WhatToDo { question: text::text(&question), answers, keys, every }
}

/// What taking an answer about a selection does, by the answer after
/// cancel, from nought: the page's act at that index, on what is selected;
/// the one after them marks every row; the last unmarks them all.
#[derive(Debug, Clone, Copy, PartialEq, Eq, Structural)]
pub enum Done {
    Act(u32),
    SelectAll,
    DeselectAll,
}

/// What the answer `which` after cancel does, of a page with `acts` acts.
pub open spec fn done_of(which: u32, acts: nat) -> Done {
    if which < acts {
        Done::Act(which)
    } else if which == acts {
        Done::SelectAll
    } else {
        Done::DeselectAll
    }
}

/// What is done, and what is selected after, when the answer `which` after
/// cancel is taken of a page with `acts` acts and the keys `every`: after
/// marking every row, every key; after anything else, nothing.
pub struct Answered {
    pub done: Done,
    pub selected: Vec<String>,
}

/// What is done when the answer `which` after cancel is taken, and what is
/// selected after it.
pub fn done_with(which: u32, acts: usize, every: &Vec<String>) -> (r: Answered)
    ensures
        r.done == done_of(which, acts as nat),
        r.selected@ == (if r.done == Done::SelectAll {
            every@
        } else {
            Seq::empty()
        }),
{
    if (which as usize) < acts {
        Answered { done: Done::Act(which), selected: Vec::new() }
    } else if which as usize == acts {
        Answered { done: Done::SelectAll, selected: every.clone() }
    } else {
        Answered { done: Done::DeselectAll, selected: Vec::new() }
    }
}

/// The least width of a tab: forty ninths of an em.
pub const TAB_LEAST: i32 = 80;

/// The widest of the tabs measured as chosen, each with its padding either
/// side: nought when there are none.
pub open spec fn widest_of(chosen: Seq<u32>) -> int
    decreases chosen.len(),
{
    if chosen.len() == 0 {
        0
    } else {
        crate::measure::larger(
            widest_of(chosen.drop_last()),
            crate::measure::clamp_u32(chosen.last() + 2 * strip::PAD),
        )
    }
}

/// How wide a tab is made: the widest of them written as chosen, with its
/// padding, and never less than the least width of a tab.
pub open spec fn widest_tab_of(chosen: Seq<u32>) -> int {
    crate::measure::larger(crate::measure::clamp_i32(widest_of(chosen)), TAB_LEAST as int)
}

/// How wide a tab is made, given how wide each title is written as chosen.
pub fn widest_tab(chosen: &Vec<u32>) -> (r: strip::Cell)
    ensures
        r.0 == widest_tab_of(chosen@),
{
    let pad: u32 = (2 * strip::PAD) as u32;
    let mut widest: u32 = 0;
    let mut i: usize = 0;
    while i < chosen.len()
        invariant
            i <= chosen@.len(),
            pad == 2 * strip::PAD,
            widest == widest_of(chosen@.take(i as int)),
        decreases chosen.len() - i,
    {
        assert(chosen@.take(i + 1).drop_last() =~= chosen@.take(i as int));
        let wide = chosen[i].saturating_add(pad);
        if wide > widest {
            widest = wide;
        }
        i += 1;
    }
    assert(chosen@.take(i as int) =~= chosen@);
    let held: i32 = if widest > 2147483647u32 {
        i32::MAX
    } else {
        widest as i32
    };
    strip::Cell(
        if held > TAB_LEAST {
            held
        } else {
            TAB_LEAST
        },
    )
}

/// How tall the room the rows scroll in is: the card less the strip of
/// tabs, the gap over the rows and the line typed into, when the page has
/// one.
pub open spec fn scroll_room_of(card: Card, sought: bool) -> int {
    let typed = if sought {
        crate::fitting::ROW
    } else {
        0
    };
    crate::measure::clamp_i32(
        crate::measure::clamp_i32(crate::measure::clamp_i32(card.height - crate::fitting::STRIP)
            - OVER_ROWS) - typed,
    )
}

/// How tall the room the rows scroll in is.
pub fn scroll_room(card: &Card, sought: bool) -> (r: i32)
    ensures
        r == scroll_room_of(*card, sought),
{
    let typed = if sought {
        crate::fitting::ROW
    } else {
        0
    };
    crate::measure::less(
        crate::measure::less(crate::measure::less(card.height, crate::fitting::STRIP), OVER_ROWS),
        typed,
    )
}

/// On a card not opened out, and where nothing is held at the ends of an
/// `i32`, the room the rows scroll in runs from where they start to the
/// card's foot.
pub proof fn lemma_the_rows_scroll_from_where_they_start_to_the_foot(card: Card, sought: bool)
    requires
        0 <= card.y,
        crate::fitting::STRIP + OVER_ROWS + crate::fitting::ROW <= card.height,
        card.y + card.height <= i32::MAX,
    ensures
        rows_start_of(card, Opened::No, sought) + scroll_room_of(card, sought) == card.y
            + card.height,
{
}

/// The file `picture` is made small from, when it is one.
pub open spec fn wanted_file(picture: Picture) -> Option<Seq<char>> {
    match picture {
        Picture::At(p) => Some(p@),
        Picture::Sleeve(Some(p)) => Some(p@),
        _ => None,
    }
}

/// The files the pictures of `rows` are made small from, in order.
pub open spec fn asked_for_of(rows: Seq<Row>) -> Seq<Seq<char>>
    decreases rows.len(),
{
    if rows.len() == 0 {
        Seq::empty()
    } else {
        let before = asked_for_of(rows.drop_last());
        match wanted_file(rows.last().picture) {
            Some(p) => before.push(p),
            None => before,
        }
    }
}

/// The files the pictures of `rows` are made small from, in order: what
/// the card asks the maker of small pictures for, of those it has not made.
pub fn asked_for(rows: &Vec<Row>) -> (r: Vec<String>)
    ensures
        r@.map_values(|p: String| p@) == asked_for_of(rows@),
{
    let mut wanted: Vec<String> = Vec::new();
    let mut i: usize = 0;
    while i < rows.len()
        invariant
            i <= rows@.len(),
            wanted@.map_values(|p: String| p@) == asked_for_of(rows@.take(i as int)),
        decreases rows.len() - i,
    {
        assert(rows@.take(i + 1).drop_last() =~= rows@.take(i as int));
        match wanted_of(&rows[i].picture) {
            Some(of) => {
                let ghost had = wanted@.map_values(|p: String| p@);
                wanted.push(of.to_owned());
                assert(wanted@.map_values(|p: String| p@) =~= had.push(of@));
            },
            None => {},
        }
        i += 1;
    }
    assert(rows@.take(i as int) =~= rows@);
    wanted
}

/// Rows read for the tab `here`, `many` of them, arriving: taken only while
/// that tab is the one in front, and then a highlight standing past the last
/// of them is taken off.
pub open spec fn arrived_of(s: Steered, here: u32, many: nat) -> (Steered, bool) {
    if here == s.here {
        (
            match s.at {
                Some(a) => if a >= crate::measure::clamp_u32(many as int) {
                    Steered { at: None, ..s }
                } else {
                    s
                },
                None => s,
            },
            true,
        )
    } else {
        (s, false)
    }
}

/// Rows read for the tab `here`, `many` of them, arriving: says whether
/// they are taken.
pub fn arrived(state: &mut Steering, here: u32, many: usize) -> (taken: bool)
    ensures
        (final(state)@, taken) == arrived_of(old(state)@, here, many as nat),
{
    if here != state.here {
        return false;
    }
    let many = fitted_u32(many);
    match state.at {
        Some(a) => if a >= many {
            state.at = None;
        },
        None => {},
    }
    true
}

/// Where the highlight opens on rows it stands on none of: on the first
/// that is no heading, when there are rows; where it was otherwise.
pub open spec fn opened_on_of(s: Steered, rows: Seq<Row>) -> Steered {
    if s.at is None && rows.len() > 0 {
        Steered {
            at: Some(crate::measure::larger(walked_of(rows, -1i32, 1i32), 0) as u32),
            ..s
        }
    } else {
        s
    }
}

/// Puts the highlight on the first row that is no heading, when it stands
/// on none and there are rows.
pub fn opened_on(state: &mut Steering, rows: &Vec<Row>)
    requires
        rows@.len() <= i32::MAX,
    ensures
        final(state)@ == opened_on_of(old(state)@, rows@),
{
    if state.at.is_none() && rows.len() > 0 {
        let first = page::walked(rows, -1, Step(1));
        proof {
            lemma_a_step_lands_on_a_row_or_stays(rows@, -1i32, 1i32);
        }
        state.at = Some(
            if first < 0 {
                0
            } else {
                first as u32
            },
        );
    }
}

/// The highlight opens on something it can act on: on rows it stood on none
/// of, it stands on a row that is no heading, or on the first row when
/// every row is a heading.
pub proof fn lemma_the_highlight_opens_on_something_it_can_act_on(s: Steered, rows: Seq<Row>)
    requires
        s.at is None,
        0 < rows.len() <= i32::MAX,
    ensures
        opened_on_of(s, rows).at matches Some(a) && a < rows.len() && (!heading_of(rows[a as int])
            || forall|k: int| 0 <= k < rows.len() ==> heading_of(#[trigger] rows[k])),
{
    lemma_a_step_lands_on_a_row_or_stays(rows, -1i32, 1i32);
    if walked_of(rows, -1i32, 1i32) == -1 {
        assert(held_i32(-1i32 + 1i32) == 0);
        lemma_a_walk_that_stays_passed_only_headings(rows, 0);
    }
}

/// A walk down from `next` that comes back to where it started, before the
/// first row, passed only headings on its way.
proof fn lemma_a_walk_that_stays_passed_only_headings(rows: Seq<Row>, next: int)
    requires
        0 <= next,
        0 < rows.len() <= i32::MAX,
        page::walk_on(rows, page::last_of(rows), -1, next, 1) == -1,
    ensures
        forall|k: int| next <= k < rows.len() ==> heading_of(#[trigger] rows[k]),
    decreases page::walk_left(page::last_of(rows), next, 1),
{
    if next < rows.len() {
        assert(heading_of(rows[next]));
        lemma_a_walk_that_stays_passed_only_headings(rows, next + 1);
        assert forall|k: int| next <= k < rows.len() implies heading_of(#[trigger] rows[k]) by {
            if k > next {
                assert(heading_of(rows[k]));
            }
        }
    }
}

/// A pointer moved, with no finger down, over what it `lands` on: the
/// highlight moves onto a row it is over, when the highlight is not on its
/// way out and the row is one of the rows and no heading; beside it no
/// longer. Says whether the card is to be drawn again.
pub open spec fn hovered_of(s: Steered, lands: Option<Lands>, rows: Seq<Row>) -> (Steered, bool) {
    match lands {
        Some(Lands::Row(row)) => if s.leaving == Leaving::No && s.at != Some(row) && row
            < crate::measure::clamp_u32(rows.len() as int) && !heading_of(rows[row as int]) {
            (Steered { at: Some(row), beside: Beside::No, ..s }, true)
        } else {
            (s, false)
        },
        _ => (s, false),
    }
}

/// A pointer moved over what it `lands` on, with no finger down.
pub fn hovered(state: &mut Steering, lands: Option<Lands>, rows: &Vec<Row>) -> (redrawn: bool)
    ensures
        (final(state)@, redrawn) == hovered_of(old(state)@, lands, rows@),
{
    let row = match lands {
        Some(Lands::Row(row)) => row,
        _ => return false,
    };
    if state.leaving != Leaving::No || state.at == Some(row) {
        return false;
    }
    if row >= fitted_u32(rows.len()) || rows[row as usize].heading() == page::Heading::Yes {
        return false;
    }
    state.at = Some(row);
    state.beside = Beside::No;
    true
}

/// Whether a tap on what it `lands` on has the rows read again after it: a
/// tap on a row or on anything of one, or on an answer; not one on a tab,
/// on the arrows or on the way out, nor one on nothing.
pub open spec fn stirs_the_rows_of(lands: Option<Lands>) -> bool {
    match lands {
        Some(Lands::Tab(_)) | Some(Lands::More(_)) | Some(Lands::Back) | None => false,
        _ => true,
    }
}

/// Whether a tap on what it `lands` on has the rows read again after it.
pub fn stirs_the_rows(lands: Option<Lands>) -> (r: bool)
    ensures
        r == stirs_the_rows_of(lands),
{
    match lands {
        Some(Lands::Tab(_)) | Some(Lands::More(_)) | Some(Lands::Back) | None => false,
        _ => true,
    }
}

/// How big some words are, measured as they are drawn.
#[derive(Debug, Clone, Copy, PartialEq, Eq, Structural)]
pub struct Said {
    pub wide: u32,
    pub tall: u32,
}

/// How big the words at `which` of `sizes` are: nothing, when none were
/// measured for it.
pub open spec fn said_at(sizes: Seq<Said>, which: int) -> Said {
    if 0 <= which < sizes.len() {
        sizes[which]
    } else {
        Said { wide: 0, tall: 0 }
    }
}

/// The round behind the tab in front, and what it is filled with.
#[derive(Debug, Clone, Copy, PartialEq, Eq, Structural)]
pub struct Pill {
    pub area: Area,
    pub fill: Paint,
}

/// Where one tab shown stands: which tab it is, its cell, its words in the
/// middle of the cell, the round behind it when it is the one in front, and
/// how its words are inked and whether in bold.
#[derive(Debug, Clone, Copy, PartialEq, Eq, Structural)]
pub struct TabPlace {
    pub tab: u32,
    pub cell: Area,
    pub words: Area,
    pub pill: Option<Pill>,
    pub ink: Paint,
    pub bold: bool,
}

/// Where the tab at `k` of those shown from `from` stands, `here` the one in
/// front, its title measured plain in `titles` and bold in `chosen`: the tab
/// in front is written bold, dark on a pink round as wide as its words and a
/// row's inset either side but no wider than its cell, in the middle of the
/// cell; on its way out the round is the ground and the words are the
/// text's. Any other tab is written plain and soft, with no round.
pub open spec fn tab_place_of(
    card: Card,
    shown: int,
    from: u32,
    k: int,
    here: u32,
    leaving: Leaving,
    titles: Seq<Said>,
    chosen: Seq<Said>,
) -> TabPlace {
    let reach = tab_reach_of(card, shown, from, k);
    let front = (from + k) as u32 == here;
    let said = if front {
        said_at(chosen, from + k)
    } else {
        said_at(titles, from + k)
    };
    let cell = Area { x: reach.x, y: reach.y, wide: reach.wide, tall: FINGER as u32 };
    let pill_wide = crate::measure::smaller(
        crate::measure::clamp_u32(said.wide + 2 * INSIDE_A_ROW),
        reach.wide as int,
    );
    TabPlace {
        tab: (from + k) as u32,
        cell,
        words: centred_of(cell, said.wide, said.tall),
        pill: if front {
            Some(
                Pill {
                    area: Area {
                        x: crate::measure::clamp_i32(
                            reach.x + strip::quotient(
                                crate::measure::clamp_i32(
                                    crate::measure::clamp_i32(reach.wide as int)
                                        - crate::measure::clamp_i32(pill_wide),
                                ),
                                2,
                            ),
                        ) as i32,
                        y: reach.y,
                        wide: pill_wide as u32,
                        tall: FINGER as u32,
                    },
                    fill: if leaving == Leaving::Standing {
                        Paint::Ground
                    } else {
                        Paint::Pink
                    },
                },
            )
        } else {
            None
        },
        ink: if !front {
            Paint::Soft
        } else if leaving == Leaving::No {
            Paint::Night
        } else {
            Paint::Text
        },
        bold: front,
    }
}

/// Where the title of a card with one tab stands, its words `said`: a
/// row's inset inside the card, in the middle of the strip down, and as
/// wide as the strip up to a gap before the button that backs out.
pub open spec fn title_place_of(card: Card, said: Said) -> Area {
    let left = inside_left_of(card);
    let shut_x = crate::measure::clamp_i32(inside_right_of(card) - FINGER);
    Area {
        x: crate::measure::clamp_i32(left + INSIDE_A_ROW) as i32,
        y: middle_of(header_top_of(card) as i32, FINGER, said.tall) as i32,
        wide: crate::measure::larger(
            crate::measure::clamp_i32(crate::measure::clamp_i32(shut_x - strip::GAP) - left),
            0,
        ) as u32,
        tall: said.tall,
    }
}

/// What is written along the top of a card: the title, on a card not opened
/// out with one tab; and the tabs shown, on a card not opened out with
/// more.
pub struct HeaderPlaces {
    pub title: Option<Area>,
    pub tabs: Vec<TabPlace>,
}

/// What is written along the top of a card with `many` tabs, `here` the
/// one in front, shown from `from` as far as `fits` fit: nothing on a card
/// opened out; the title of the one tab on a card with one; and each tab
/// shown, where a hand lands on it, on a card with more.
pub open spec fn header_places_of(
    card: Card,
    many: int,
    here: u32,
    from: u32,
    fits: u32,
    opened: Opened,
    leaving: Leaving,
    titles: Seq<Said>,
    chosen: Seq<Said>,
) -> (Option<Area>, Seq<TabPlace>) {
    if opened == Opened::Expanded {
        (None, Seq::empty())
    } else if crate::measure::clamp_u32(many) <= 1 {
        (
            if many >= 1 {
                Some(title_place_of(card, said_at(chosen, 0)))
            } else {
                None
            },
            Seq::empty(),
        )
    } else {
        let shown = tabs_shown(many, from, fits);
        (
            None,
            Seq::new(
                shown as nat,
                |k: int| tab_place_of(card, shown, from, k, here, leaving, titles, chosen),
            ),
        )
    }
}

/// The words at `which` of `sizes`.
fn said_in(sizes: &Vec<Said>, which: u32) -> (r: Said)
    ensures
        r == said_at(sizes@, which as int),
{
    if (which as usize) < sizes.len() {
        sizes[which as usize]
    } else {
        Said { wide: 0, tall: 0 }
    }
}

/// What is written along the top of a card.
pub fn header_places(
    card: &Card,
    many: usize,
    here: u32,
    from: u32,
    fits: u32,
    opened: Opened,
    leaving: Leaving,
    titles: &Vec<Said>,
    chosen: &Vec<Said>,
) -> (r: HeaderPlaces)
    ensures
        (r.title, r.tabs@) == header_places_of(
            *card,
            many as int,
            here,
            from,
            fits,
            opened,
            leaving,
            titles@,
            chosen@,
        ),
{
    if opened == Opened::Expanded {
        return HeaderPlaces { title: None, tabs: Vec::new() };
    }
    let left = crate::measure::more(crate::measure::more(card.x, strip::EDGE), strip::MARGIN);
    let right = crate::measure::less(
        crate::measure::less(crate::measure::more(card.x, card.width), strip::EDGE),
        strip::MARGIN,
    );
    let top = crate::measure::more(card.y, (crate::fitting::STRIP - FINGER) / 2);
    let shut_x = crate::measure::less(right, FINGER);
    let many_u = fitted_u32(many);
    if many_u <= 1 {
        if many == 0 {
            return HeaderPlaces { title: None, tabs: Vec::new() };
        }
        let said = said_in(chosen, 0);
        let run = crate::measure::less(crate::measure::less(shut_x, strip::GAP), left);
        let title = Area {
            x: crate::measure::more(left, INSIDE_A_ROW),
            y: middle(top, FINGER, said.tall),
            wide: if run < 0 {
                0
            } else {
                run as u32
            },
            tall: said.tall,
        };
        return HeaderPlaces { title: Some(title), tabs: Vec::new() };
    }
    let wide_u = if card.width < 0 {
        0u32
    } else {
        card.width as u32
    };
    let room = wide_u.saturating_sub(2 * strip::EDGE as u32).saturating_sub(
        2 * strip::MARGIN as u32,
    ).saturating_sub(2 * strip::PAD as u32).saturating_sub(((FINGER + strip::GAP) * 3) as u32);
    let shown = if fits <= many_u.saturating_sub(from) {
        fits
    } else {
        many_u.saturating_sub(from)
    };
    let tab_wide = room / if shown >= 1 {
        shown
    } else {
        1
    };
    let tab_wide_i: i32 = if tab_wide > i32::MAX as u32 {
        i32::MAX
    } else {
        tab_wide as i32
    };
    let run_left = crate::measure::more(
        crate::measure::more(crate::measure::more(left, FINGER), strip::GAP),
        strip::PAD,
    );
    assert(room == strip_room_of(*card));
    assert(shown == tabs_shown(many as int, from, fits));
    assert(tab_wide == tab_wide_of(*card, shown as int));
    let mut tabs: Vec<TabPlace> = Vec::new();
    let mut k: u32 = 0;
    while k < shown
        invariant
            k <= shown,
            opened == Opened::No,
            shown == tabs_shown(many as int, from, fits),
            shown == 0 || from as int + shown as int <= many_u as int,
            many_u == crate::measure::clamp_u32(many as int),
            many_u > 1,
            tab_wide == tab_wide_of(*card, shown as int),
            tab_wide_i == crate::measure::clamp_i32(tab_wide as int),
            run_left == run_left_of(*card),
            top == header_top_of(*card),
            tabs@ =~= Seq::new(
                k as nat,
                |j: int|
                    tab_place_of(*card, shown as int, from, j, here, leaving, titles@, chosen@),
            ),
        decreases shown - k,
    {
        let step: i32 = if k > i32::MAX as u32 {
            i32::MAX
        } else {
            k as i32
        };
        let x = crate::measure::more(run_left, crate::measure::times(step, tab_wide_i));
        let which = from + k;
        let front = which == here;
        let said = if front {
            said_in(chosen, which)
        } else {
            said_in(titles, which)
        };
        let cell = Area { x, y: top, wide: tab_wide, tall: 48 };
        let reached = Reach { lands: Lands::Tab(which), x, y: top, wide: tab_wide, tall: 48 };
        assert(reached == tab_reach_of(*card, shown as int, from, k as int));
        let words = centred(cell, said.wide, said.tall);
        let pill = if front {
            let pill_wide = if said.wide > u32::MAX - 32 {
                u32::MAX
            } else {
                said.wide + 32
            };
            let pill_wide = if pill_wide < tab_wide {
                pill_wide
            } else {
                tab_wide
            };
            let pill_wide_i: i32 = if pill_wide > i32::MAX as u32 {
                i32::MAX
            } else {
                pill_wide as i32
            };
            let inset = strip::divided(crate::measure::less(tab_wide_i, pill_wide_i), 2);
            Some(
                Pill {
                    area: Area {
                        x: crate::measure::more(x, inset),
                        y: top,
                        wide: pill_wide,
                        tall: 48,
                    },
                    fill: if leaving == Leaving::Standing {
                        Paint::Ground
                    } else {
                        Paint::Pink
                    },
                },
            )
        } else {
            None
        };
        let ink = if !front {
            Paint::Soft
        } else if leaving == Leaving::No {
            Paint::Night
        } else {
            Paint::Text
        };
        let place = TabPlace { tab: which, cell, words, pill, ink, bold: front };
        assert(place == tab_place_of(
            *card,
            shown as int,
            from,
            k as int,
            here,
            leaving,
            titles@,
            chosen@,
        ));
        tabs.push(place);
        k += 1;
    }
    HeaderPlaces { title: None, tabs }
}

/// The round behind the tab in front stands inside its cell, as wide as
/// its words and a row's inset either side where the cell has the room, on
/// a card that stands on the surface.
pub proof fn lemma_the_front_tab_s_round_stands_inside_its_cell(
    card: Card,
    shown: int,
    from: u32,
    k: int,
    leaving: Leaving,
    titles: Seq<Said>,
    chosen: Seq<Said>,
)
    requires
        0 <= card.x,
        0 <= card.width,
        card.x + card.width <= i32::MAX,
        0 <= k < shown,
        shown == tabs_shown(shown + from, from, shown as u32),
    ensures
        ({
            let t = tab_place_of(card, shown, from, k, (from + k) as u32, leaving, titles, chosen);
            &&& t.pill matches Some(p) && t.cell.x <= p.area.x && p.area.x + p.area.wide <= t.cell.x
                + t.cell.wide && p.area.wide <= t.cell.wide
            &&& t.bold
        }),
{
    let t = tab_place_of(card, shown, from, k, (from + k) as u32, leaving, titles, chosen);
    let wide = tab_wide_of(card, shown);
    lemma_tabs_stand_side_by_side_within_the_strip(card, shown + from, from, shown as u32, k);
    assert(wide <= i32::MAX);
    assert(t.cell.x == run_left_of(card) + k * wide);
}

/// What a card draws: the picture alone, over the whole card, when its one
/// row is a picture looked at or a film played; and otherwise the card with
/// whatever it holds.
#[derive(Debug, Clone, Copy, PartialEq, Eq, Structural)]
pub enum Drawn {
    ThePictureAlone,
    TheCardWithIt,
}

/// Whether a row is a picture looked at or a film played.
pub open spec fn looked_at_of(row: Row) -> bool {
    row.picture is Showing || row.picture is Playing
}

/// What a card of `rows` draws: the picture alone when its one row is a
/// picture looked at or a film played.
pub open spec fn drawn_of(rows: Seq<Row>) -> Drawn {
    if rows.len() == 1 && looked_at_of(rows[0]) {
        Drawn::ThePictureAlone
    } else {
        Drawn::TheCardWithIt
    }
}

/// What a card of `rows` draws.
pub fn drawn(rows: &Vec<Row>) -> (r: Drawn)
    ensures
        r == drawn_of(rows@),
{
    if rows.len() == 1 {
        match rows[0].picture {
            Picture::Showing(_) | Picture::Playing(_) => return Drawn::ThePictureAlone,
            _ => {},
        }
    }
    Drawn::TheCardWithIt
}

/// The first row from `i` on that is no heading and, when `chief`, is the
/// one the card names as its chief.
pub open spec fn first_from(rows: Seq<Row>, i: int, chief: bool) -> Option<int>
    decreases rows.len() - i,
{
    if i < 0 || i >= rows.len() {
        None
    } else if (!chief || rows[i].chief) && !heading_of(rows[i]) {
        Some(i)
    } else {
        first_from(rows, i + 1, chief)
    }
}

/// The first row from `from` on that is no heading and, when `chief`, is
/// the chief one.
fn first_row(rows: &Vec<Row>, from: usize, chief: bool) -> (r: Option<usize>)
    ensures
        match r {
            Some(i) => first_from(rows@, from as int, chief) == Some(i as int),
            None => first_from(rows@, from as int, chief) is None,
        },
{
    let mut i = from;
    while i < rows.len()
        invariant
            from <= i,
            first_from(rows@, from as int, chief) == first_from(rows@, i as int, chief),
        decreases rows.len() - i,
    {
        let row = &rows[i];
        if (!chief || row.chief) && row.heading() == page::Heading::No {
            return Some(i);
        }
        i += 1;
    }
    None
}

/// Where the highlight opens on `rows`, asked to stand at `at`: on the
/// chief row, when the card names one that is no heading and `at` is no row
/// or a heading; otherwise on the first row from `at` on that is no
/// heading, or at `at` when there is none.
pub open spec fn opening_row_of(rows: Seq<Row>, at: int) -> int {
    let fresh = at >= rows.len() || heading_of(rows[at]);
    match (fresh, first_from(rows, 0, true)) {
        (true, Some(i)) => crate::measure::clamp_i32(i),
        _ => match first_from(rows, at, false) {
            Some(i) => crate::measure::clamp_i32(i),
            None => crate::measure::clamp_i32(at),
        },
    }
}

/// Where the highlight opens on `rows`, asked to stand at `at`.
pub fn opening_row(rows: &Vec<Row>, at: usize) -> (r: i32)
    ensures
        r == opening_row_of(rows@, at as int),
{
    let fresh = at >= rows.len() || rows[at].heading() == page::Heading::Yes;
    if fresh {
        match first_row(rows, 0, true) {
            Some(i) => return fitted_i32(i),
            None => {},
        }
    }
    match first_row(rows, at, false) {
        Some(i) => fitted_i32(i),
        None => fitted_i32(at),
    }
}

/// Where the words of a cell stand, and its icon before them when it has
/// one.
#[derive(Debug, Clone, Copy, PartialEq, Eq, Structural)]
pub struct CellWords {
    pub glyph: Option<At>,
    pub words: At,
}

/// Where the words `said` of a cell from `from`, `each` wide, in a line from
/// `top`, `height` high, stand: with an icon (`icon`, as wide as the icons'
/// font is tall and as tall as it was measured), the icon and then the
/// words two gaps after it, the two together in the middle of the cell;
/// without one, the words in the middle of the round the cell is lit with.
/// Each stands in the middle of the line down.
pub open spec fn cell_words_of(
    from: i32,
    each: i32,
    top: i32,
    height: i32,
    icon: Option<Said>,
    said: Said,
) -> CellWords {
    match icon {
        Some(g) => {
            let glyph_wide = crate::measure::clamp_i32(g.wide as int);
            let whole = crate::measure::clamp_i32(
                crate::measure::clamp_i32(glyph_wide + 2 * strip::GAP) + crate::measure::clamp_i32(
                    said.wide as int,
                ),
            );
            let start = crate::measure::clamp_i32(
                from + strip::quotient(crate::measure::larger(crate::measure::clamp_i32(each - whole), 0), 2),
            );
            CellWords {
                glyph: Some(At { x: start as i32, y: middle_of(top, height, g.tall) as i32 }),
                words: At {
                    x: crate::measure::clamp_i32(crate::measure::clamp_i32(start + glyph_wide) + 2 * strip::GAP)
                        as i32,
                    y: middle_of(top, height, said.tall) as i32,
                },
            }
        },
        None => {
            let wide = crate::measure::larger(each as int, 0);
            let tall = crate::measure::larger(height as int, 0);
            let lit = crate::measure::smaller(wide, tall);
            let within = Area {
                x: crate::measure::clamp_i32(
                    from + strip::quotient(crate::measure::clamp_i32(each - lit), 2),
                ) as i32,
                y: top,
                wide: lit as u32,
                tall: tall as u32,
            };
            let c = centred_of(within, said.wide, said.tall);
            CellWords { glyph: None, words: At { x: c.x, y: c.y } }
        },
    }
}

/// Where the words of a cell stand, and its icon before them.
pub fn cell_words(from: i32, each: i32, top: i32, height: i32, icon: Option<Said>, said: Said) -> (r:
    CellWords)
    ensures
        r == cell_words_of(from, each, top, height, icon, said),
{
    match icon {
        Some(g) => {
            let glyph_wide: i32 = if g.wide > i32::MAX as u32 {
                i32::MAX
            } else {
                g.wide as i32
            };
            let said_wide: i32 = if said.wide > i32::MAX as u32 {
                i32::MAX
            } else {
                said.wide as i32
            };
            let whole = crate::measure::more(crate::measure::more(glyph_wide, 2 * strip::GAP), said_wide);
            let room = crate::measure::less(each, whole);
            let room = if room < 0 {
                0
            } else {
                room
            };
            let start = crate::measure::more(from, strip::divided(room, 2));
            CellWords {
                glyph: Some(At { x: start, y: middle(top, height, g.tall) }),
                words: At {
                    x: crate::measure::more(crate::measure::more(start, glyph_wide), 2 * strip::GAP),
                    y: middle(top, height, said.tall),
                },
            }
        },
        None => {
            let wide = if each < 0 {
                0
            } else {
                each
            };
            let tall = if height < 0 {
                0
            } else {
                height
            };
            let lit = if wide < tall {
                wide
            } else {
                tall
            };
            let within = Area {
                x: crate::measure::more(from, strip::divided(crate::measure::less(each, lit), 2)),
                y: top,
                wide: lit as u32,
                tall: tall as u32,
            };
            let c = centred(within, said.wide, said.tall);
            CellWords { glyph: None, words: At { x: c.x, y: c.y } }
        },
    }
}

/// A cell's icon comes before its words, where the cell stands well inside
/// what an `i32` reaches.
pub proof fn lemma_a_cell_s_icon_comes_before_its_words(
    from: i32,
    each: i32,
    top: i32,
    height: i32,
    icon: Said,
    said: Said,
)
    requires
        0 <= from,
        0 <= each,
        from + each + icon.wide + 2 * strip::GAP <= i32::MAX,
    ensures
        cell_words_of(from, each, top, height, Some(icon), said).glyph matches Some(g) && g.x
            < cell_words_of(from, each, top, height, Some(icon), said).words.x,
{
    let whole = crate::measure::clamp_i32(
        crate::measure::clamp_i32(icon.wide + 2 * strip::GAP) + crate::measure::clamp_i32(said.wide as int),
    );
    let room = crate::measure::larger(crate::measure::clamp_i32(each - whole), 0);
    assert(0 <= room <= each);
    assert(0 <= strip::quotient(room, 2) <= room);
}

} // verus!
