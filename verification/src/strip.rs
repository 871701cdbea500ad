//! Which tabs the strip has room for.
//!
//! The card is one width whatever is written on its tabs, so a strip of five
//! long words cannot ask for more than the card was going to be. What will not
//! fit is reached with the arrows at either end, which are the shoulders said
//! in the other language.

use vstd::prelude::*;

use crate::measure::{clamp_i32, larger, smaller, less, more};

verus! {

/// The gap between two tabs: two ninths of an em.
pub const GAP: i32 = 4;

/// The margin inside the card's edge: seven ninths of an em.
pub const MARGIN: i32 = 14;

/// The padding inside a tab: a third of an em.
pub const PAD: i32 = 6;

/// The side of the square at the front of a row: sixteen ninths of an em.
pub const PICTURE: i32 = 32;

/// The side of a sleeve beside what it is about: eighty-eight ninths of an em.
pub const SLEEVE: i32 = 176;

/// The width of an answer to a question: twenty-five thirds of an em.
pub const ANSWER: i32 = 150;

/// The side of a button pressed on a card: five thirds of an em.
pub const PRESSED: i32 = 30;

/// The width of the card's edge: a sixth of an em.
pub const EDGE: i32 = 3;

/// A card's width and what is already spent of it.
#[derive(Debug, Clone, Copy, PartialEq, Eq, Structural)]
pub struct Card {
    pub width: i32,
    pub spent: i32,
}

/// The width of the widest tab.
#[derive(Debug, Clone, Copy, PartialEq, Eq, Structural)]
pub struct Cell(pub i32);

/// How many tabs there are, which one is in front, where the run shown last
/// time started, and how many fit.
#[derive(Debug, Clone, Copy, PartialEq, Eq, Structural)]
pub struct Tabs {
    pub many: u32,
    pub here: u32,
    pub from: u32,
    pub fits: u32,
}

/// What the strip has for tabs: the card less its edges, margins, padding and
/// whatever is spent.
pub open spec fn room_of(card: Card) -> int {
    clamp_i32(
        clamp_i32(clamp_i32(clamp_i32(card.width - 2 * EDGE) - 2 * MARGIN) - 2 * PAD)
            - card.spent,
    )
}

/// The room the strip has for tabs.
pub fn room(card: Card) -> (r: i32)
    ensures
        r == room_of(card),
{
    less(less(less(less(card.width, 2 * EDGE), 2 * MARGIN), 2 * PAD), card.spent)
}

/// `a / b` as `i32::saturating_div` gives it: toward nought, with the one
/// quotient past the end held at the end.
pub open spec fn quotient(a: int, b: int) -> int {
    let q = if (a >= 0) == (b > 0) {
        (if a >= 0 { a } else { -a }) / (if b > 0 { b } else { -b })
    } else {
        -((if a >= 0 { a } else { -a }) / (if b > 0 { b } else { -b }))
    };
    clamp_i32(q)
}

/// How many tabs of width `cell` fit in `room`, a gap between each two, and
/// always at least one.
pub open spec fn fits_of(room: int, cell: Cell) -> int {
    let each = clamp_i32(cell.0 + GAP);
    if each > 0 {
        larger(quotient(clamp_i32(room + GAP), each), 1)
    } else {
        1
    }
}

/// `a / b` toward nought, held in an `i32`.
pub(crate) fn divided(a: i32, b: i32) -> (r: i32)
    requires
        b != 0,
    ensures
        r == quotient(a as int, b as int),
{
    let x = a as i64;
    let y = b as i64;
    let ax: i64 = if x >= 0 {
        x
    } else {
        -x
    };
    let ay: i64 = if y >= 0 {
        y
    } else {
        -y
    };
    let q = ax / ay;
    let s = if (x >= 0) == (y > 0) {
        q
    } else {
        -q
    };
    assert(0 <= q <= ax) by (nonlinear_arith)
        requires
            ay >= 1,
            ax >= 0,
            q == ax / ay,
    ;
    crate::measure::held_i32(s)
}

/// How many tabs fit in the room, a gap between each two.
pub fn fits(room: i32, cell: Cell) -> (r: u32)
    requires
        clamp_i32(cell.0 + GAP) != 0,
    ensures
        r == fits_of(room as int, cell),
        r >= 1,
{
    let each = more(cell.0, GAP);
    let many = divided(more(room, GAP), each);
    let many = if many >= 1 {
        many
    } else {
        1
    };
    if each > 0 {
        many as u32
    } else {
        1
    }
}

/// As many tabs fit as there is room for with a gap between each two, and
/// not one more: `n` tabs of width `w` take `n * w + (n - 1) * GAP`. Where not
/// even one fits, one is shown all the same.
pub proof fn lemma_as_many_tabs_fit_as_there_is_room_for(room: int, cell: Cell)
    requires
        cell.0 > 0,
        i32::MIN <= room <= i32::MAX - GAP,
    ensures
        fits_of(room, cell) >= 1,
        room >= cell.0 ==> fits_of(room, cell) * cell.0 + (fits_of(room, cell) - 1) * GAP <= room,
        room < (fits_of(room, cell) + 1) * cell.0 + fits_of(room, cell) * GAP,
        room < cell.0 ==> fits_of(room, cell) == 1,
{
    let c = cell.0 as int;
    let each = clamp_i32(c + GAP);
    let a = clamp_i32(room + GAP);
    assert(a == room + GAP);
    assert(each > 0);
    if room >= c {
        assert(each == c + GAP);
        let q = a / each;
        assert(1 <= q <= a && q * each <= a < (q + 1) * each) by (nonlinear_arith)
            requires
                a >= each,
                each > 0,
                q == a / each,
        ;
        assert(quotient(a, each) == q);
        assert(fits_of(room, cell) == q);
        assert(q * c + (q - 1) * GAP <= room && room < (q + 1) * c + q * GAP) by (nonlinear_arith)
            requires
                q * each <= a < (q + 1) * each,
                each == c + GAP,
                a == room + GAP,
                GAP == 4,
        ;
    } else {
        assert(a <= each);
        if a >= 0 {
            assert(a / each <= 1) by (nonlinear_arith)
                requires
                    0 <= a <= each,
                    each > 0,
            ;
        } else {
            assert((-a) / each >= 0) by (nonlinear_arith)
                requires
                    -a > 0,
                    each > 0,
            ;
        }
        assert(quotient(a, each) <= 1);
        let n = fits_of(room, cell);
        assert(n == 1);
        assert(room < (n + 1) * c + n * GAP) by (nonlinear_arith)
            requires
                n == 1,
                room < c,
                c > 0,
                GAP == 4,
        ;
    }
}

/// Where the run of tabs shown starts: as near where it started last time as
/// will still show the tab in front, and never past the end.
pub open spec fn first_shown(tabs: Tabs) -> int {
    let least = larger(smaller(tabs.here + 1, u32::MAX as int) - tabs.fits, 0);
    let first = larger(smaller(tabs.from as int, tabs.here as int), least);
    smaller(first, larger(tabs.many - tabs.fits, 0))
}

/// The tabs the strip shows.
pub fn showing(tabs: Tabs) -> (r: std::ops::Range<u32>)
    ensures
        tabs.fits >= tabs.many ==> r.start == 0 && r.end == tabs.many,
        tabs.fits < tabs.many ==> r.start == first_shown(tabs) && r.end == r.start + tabs.fits,
{
    if tabs.fits >= tabs.many {
        return 0..tabs.many;
    }
    let least = tabs.here.saturating_add(1).saturating_sub(tabs.fits);
    let first = if tabs.from <= tabs.here {
        tabs.from
    } else {
        tabs.here
    };
    let first = if first >= least {
        first
    } else {
        least
    };
    let last = tabs.many - tabs.fits;
    let first = if first <= last {
        first
    } else {
        last
    };
    first..first + tabs.fits
}

/// The run of tabs shown never hangs off either end, is as long as the strip
/// has room for, and holds the tab in front.
pub proof fn lemma_the_run_holds_the_tab_in_front(tabs: Tabs)
    requires
        tabs.fits < tabs.many,
        tabs.here < tabs.many,
        tabs.fits >= 1,
    ensures
        0 <= first_shown(tabs),
        first_shown(tabs) + tabs.fits <= tabs.many,
        first_shown(tabs) <= tabs.here < first_shown(tabs) + tabs.fits,
{
}

/// Where a shoulder can stand: on a tab, or on the way out past the last one.
#[derive(Clone, Copy, Debug, PartialEq, Eq, Structural)]
pub enum Stop {
    Tab(u32),
    Outside,
}

/// Where a walk along `tabs` tabs from `from`, `step` at a time, stands: held
/// at the first tab and at the way out past the last.
pub open spec fn along_of(tabs: u32, from: Stop, step: i32) -> Stop {
    let out = smaller(tabs as int, i32::MAX as int);
    let at = match from {
        Stop::Tab(index) => smaller(smaller(index as int, i32::MAX as int), out),
        Stop::Outside => out,
    };
    let going = smaller(larger(clamp_i32(at + step), 0), out);
    if going == out {
        Stop::Outside
    } else {
        Stop::Tab(going as u32)
    }
}

/// Where a shoulder pressed `step` times from `from` stands.
pub fn along(tabs: u32, from: Stop, step: i32) -> (r: Stop)
    ensures
        r == along_of(tabs, from, step),
{
    let out: i32 = if tabs > i32::MAX as u32 {
        i32::MAX
    } else {
        tabs as i32
    };
    let at = match from {
        Stop::Tab(index) => {
            let index: i32 = if index > i32::MAX as u32 {
                i32::MAX
            } else {
                index as i32
            };
            if index <= out {
                index
            } else {
                out
            }
        },
        Stop::Outside => out,
    };
    let going = more(at, step);
    let going = if going < 0 {
        0
    } else {
        going
    };
    let going = if going <= out {
        going
    } else {
        out
    };
    if going == out {
        Stop::Outside
    } else {
        Stop::Tab(going as u32)
    }
}

/// A walk never stands anywhere but on a tab there is, or on the way out.
pub proof fn lemma_along_stays_on_the_strip(tabs: u32, from: Stop, step: i32)
    ensures
        match along_of(tabs, from, step) {
            Stop::Tab(i) => i < tabs,
            Stop::Outside => true,
        },
{
}

} // verus!
