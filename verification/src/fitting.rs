//! How much room the panel has, and how much of it a whole number of rows
//! fills.
//!
//! The surface is anchored to all four edges and claims no exclusive zone of
//! its own, so what the compositor grants is the screen less whatever else has
//! taken a piece of it. The panel is measured against that room rather than
//! against the screen, so it never has to know what took the rest.

use vstd::prelude::*;

use crate::measure::{clamp_i32, larger, smaller, less, more, times};
use crate::shape::{self, share_of};

verus! {

/// The room kept clear above and below a card: eight ninths of an em.
pub const BREATH: i32 = 16;

/// What a card spends on everything under its rows: a hundred and seven
/// eighteenths of an em.
pub const UNDER: i32 = 107;

/// The height of one row: twenty-six ninths of an em.
pub const ROW: i32 = 52;

/// What is left of the room under the rows once two rows are taken from it.
pub const EDGES: i32 = 3;

/// The height of the strip of tabs: forty-one ninths of an em.
pub const STRIP: i32 = 82;

/// The least a picture is ever drawn at, however crowded the card:
/// thirty-two ninths of an em.
pub const SMALLEST: i32 = 64;

/// Whether the strip of tabs is drawn.
#[derive(Debug, Clone, Copy, PartialEq, Eq, Structural)]
pub enum TabBar {
    Shown,
    Hidden,
}

/// The room the compositor granted, and the monitor's own height.
#[derive(Debug, Clone, Copy, PartialEq, Eq, Structural)]
pub struct Room {
    pub granted: i32,
    pub monitor: i32,
}

/// What a card's height is made of.
#[derive(Debug, Clone, Copy, PartialEq, Eq, Structural)]
pub struct Tall {
    pub frame: i32,
    pub row: i32,
    pub ceiling: i32,
}

/// What the strip takes from the card's height.
pub open spec fn band_of(strip: TabBar) -> int {
    match strip {
        TabBar::Shown => STRIP as int,
        TabBar::Hidden => 0,
    }
}

/// A count held in an `i32`: one past what it holds is the most it holds.
pub open spec fn rows_held(under: u32) -> int {
    smaller(under as int, i32::MAX as int)
}

/// The height a picture is drawn at on a card `card` tall, with the strip
/// shown or not and `under` rows beneath it.
pub open spec fn showing_height(card: int, strip: TabBar, under: u32) -> int {
    larger(
        clamp_i32(
            clamp_i32(clamp_i32(card - band_of(strip)) - EDGES) - clamp_i32(
                rows_held(under) * ROW,
            ),
        ),
        SMALLEST as int,
    )
}

/// The height a picture is drawn at: whatever the card has left once the
/// strip, the rows under it and the edges are taken, and never less than
/// `SMALLEST`.
pub fn showing(card: i32, strip: TabBar, under: u32) -> (r: i32)
    ensures
        r == showing_height(card as int, strip, under),
        r >= SMALLEST,
{
    let band = match strip {
        TabBar::Shown => STRIP,
        TabBar::Hidden => 0,
    };
    let rows: i32 = if under > i32::MAX as u32 {
        i32::MAX
    } else {
        under as i32
    };
    let left = less(less(less(card, band), EDGES), times(rows, ROW));
    if left >= SMALLEST {
        left
    } else {
        SMALLEST
    }
}

/// The room a card is measured against: what was granted, or the monitor
/// while nothing has been granted yet.
pub open spec fn measured_against(room: Room) -> int {
    if room.granted > 1 {
        room.granted as int
    } else {
        room.monitor as int
    }
}

/// How wide a card is in the room it was given.
pub fn x(room: Room) -> (r: i32)
    ensures
        r == share_of(measured_against(room), shape::PART as int),
{
    shape::part_of(
        if room.granted > 1 {
            room.granted
        } else {
            room.monitor
        },
    )
}

/// The most a card may be: its share of the monitor, and no more than the
/// room granted less the breath above and below it.
pub open spec fn ceiling_of(room: Room) -> int {
    let wanted = share_of(room.monitor as int, shape::TALL as int);
    if room.granted > 1 {
        smaller(wanted, clamp_i32(room.granted - 2 * BREATH))
    } else {
        wanted
    }
}

/// The most a card may be.
pub fn ceiling(room: Room) -> (r: i32)
    ensures
        r == ceiling_of(room),
{
    let wanted = shape::tall_part_of(room.monitor);
    if room.granted > 1 {
        let kept = less(room.granted, 2 * BREATH);
        if wanted <= kept {
            wanted
        } else {
            kept
        }
    } else {
        wanted
    }
}

/// How tall a card is: its frame, and whichever is more of one row and what
/// the ceiling leaves over the frame.
pub open spec fn tall_enough_of(tall: Tall) -> int {
    clamp_i32(tall.frame + larger(tall.row as int, clamp_i32(tall.ceiling - tall.frame)))
}

/// How tall a card is: as tall as its ceiling, and never too short for a row.
pub fn tall_enough(tall: Tall) -> (r: i32)
    ensures
        r == tall_enough_of(tall),
{
    let over = less(tall.ceiling, tall.frame);
    let most = if tall.row >= over {
        tall.row
    } else {
        over
    };
    more(tall.frame, most)
}

} // verus!
