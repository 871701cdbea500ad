//! How big the things that take the screen are.
//!
//! The menu, the settings and the guide are the same kind of thing: something
//! that comes up over the desktop, is driven by the same buttons, and goes away
//! again. So they are one share of the room rather than a number of points,
//! asked again whenever the room changes, and they all get it from here.

use vstd::prelude::*;

verus! {

/// How much of the room's width a card takes, in hundredths.
pub const PART: i32 = 93;

/// How much of the screen's height a card may take, in hundredths.
pub const TALL: i32 = 80;

/// `part` hundredths of `room`, to the nearest whole point, a half going away
/// from nought.
pub open spec fn share_of(room: int, part: int) -> int {
    let n = room * part;
    if n >= 0 {
        (n + 50) / 100
    } else {
        -((-n + 50) / 100)
    }
}

/// `part` hundredths of `room`, to the nearest whole point.
fn share(room: i32, part: i32) -> (r: i32)
    requires
        0 <= part <= 100,
    ensures
        r == share_of(room as int, part as int),
{
    assert(-0x8000_0000 * 100 <= (room as int) * (part as int) <= 0x7fff_ffff * 100)
        by (nonlinear_arith)
        requires
            i32::MIN <= room <= i32::MAX,
            0 <= part <= 100,
    ;
    let n = (room as i64) * (part as i64);
    let r = if n >= 0 {
        (n + 50) / 100
    } else {
        -((-n + 50) / 100)
    };
    r as i32
}

/// The width of a card in a room this wide.
pub fn part_of(room: i32) -> (r: i32)
    ensures
        r == share_of(room as int, PART as int),
{
    share(room, PART)
}

/// The most a card may be in a screen this tall.
pub fn tall_part_of(screen: i32) -> (r: i32)
    ensures
        r == share_of(screen as int, TALL as int),
{
    share(screen, TALL)
}

} // verus!
