//! The room a panel was given last time it was up.
//!
//! A panel opens before the compositor has granted it anything, so the only
//! answer available then is the size of the screen. What was granted last time
//! is a much better guess, so it is written down, as two numbers on a line, and
//! read back at the next opening. Reading and writing the note is the
//! program's around this.

use vstd::prelude::*;

use crate::decimal::{self, digits, parse_i32, signed_digits};
use crate::text::{self, is_white_space, trim_start};

verus! {

/// The name of the note the room is kept in.
pub const ROOM: &'static str = "room";

/// A width and a height.
#[derive(Debug, Clone, Copy, PartialEq, Eq, Structural)]
pub struct Size {
    pub wide: i32,
    pub tall: i32,
}

/// No room at all: what a panel that has not been up was given.
pub open spec fn no_room() -> Size {
    Size { wide: 0, tall: 0 }
}

/// No room at all.
pub fn none() -> (r: Size)
    ensures
        r == no_room(),
{
    Size { wide: 0, tall: 0 }
}

/// What is written for a room: its width and height on a line.
pub open spec fn said_of(room: Size) -> Seq<char> {
    signed_digits(room.wide as int) + seq![' '] + signed_digits(room.tall as int) + seq!['\n']
}

/// What is written for a room.
pub fn said(room: Size) -> (r: String)
    ensures
        r@ == said_of(room),
{
    let mut s = decimal::written_signed(room.wide);
    s.push(' ');
    text::extend(&mut s, &decimal::written_signed(room.tall));
    s.push('\n');
    text::text(&s)
}

/// Where the first white space in `s` is, or its end.
pub open spec fn word_end(s: Seq<char>) -> int
    decreases s.len(),
{
    if s.len() == 0 || is_white_space(s[0]) {
        0
    } else {
        1 + word_end(s.drop_first())
    }
}

/// The first word of `s` and what follows it.
pub open spec fn next_word(s: Seq<char>) -> (Seq<char>, Seq<char>) {
    let t = trim_start(s);
    (t.take(word_end(t)), t.skip(word_end(t)))
}

/// What a word is read as: a number, or nought.
pub open spec fn number_of(word: Seq<char>) -> i32 {
    match parse_i32(word) {
        Some(n) => n,
        None => 0,
    }
}

/// What a note is read as: the room it names, when both numbers are more
/// than one, and no room otherwise.
pub open spec fn read_of(held: Seq<char>) -> Size {
    let (first, rest) = next_word(held);
    let (second, _) = next_word(rest);
    let wide = number_of(first);
    let tall = number_of(second);
    if wide > 1 && tall > 1 {
        Size { wide, tall }
    } else {
        no_room()
    }
}

/// The first word of `s`, from position `from`, and where it ends.
fn word_from(s: &Vec<char>, from: usize) -> (r: (Vec<char>, usize))
    requires
        from <= s.len(),
    ensures
        r.1 <= s.len(),
        r.0@ == next_word(s@.skip(from as int)).0,
        s@.skip(r.1 as int) == next_word(s@.skip(from as int)).1,
{
    let ghost t0 = s@.skip(from as int);
    let mut i = from;
    while i < s.len() && text::white(s[i])
        invariant
            from <= i <= s.len(),
            trim_start(t0) == trim_start(s@.skip(i as int)),
        decreases s.len() - i,
    {
        assert(s@.skip(i as int).drop_first() =~= s@.skip(i + 1));
        assert(s@.skip(i as int)[0] == s@[i as int]);
        i += 1;
    }
    let ghost t = s@.skip(i as int);
    assert(trim_start(t) == t);
    let start = i;
    while i < s.len() && !text::white(s[i])
        invariant
            start <= i <= s.len(),
            t == s@.skip(start as int),
            word_end(t) == (i - start) + word_end(s@.skip(i as int)),
        decreases s.len() - i,
    {
        assert(s@.skip(i as int).drop_first() =~= s@.skip(i + 1));
        assert(s@.skip(i as int)[0] == s@[i as int]);
        i += 1;
    }
    assert(word_end(s@.skip(i as int)) == 0);
    let w = text::slice(s, start, i);
    assert(w@ =~= t.take(i - start));
    assert(s@.skip(i as int) =~= t.skip(i - start));
    (w, i)
}

/// What a word is read as.
fn number(word: &Vec<char>) -> (n: i32)
    ensures
        n == number_of(word@),
{
    match decimal::parsed_i32(word) {
        Some(n) => n,
        None => 0,
    }
}

/// The room a note names.
pub fn read(held: &str) -> (r: Size)
    ensures
        r == read_of(held@),
{
    let s = text::letters(held);
    assert(s@.skip(0) =~= s@);
    let (first, at) = word_from(&s, 0);
    let (second, _) = word_from(&s, at);
    let wide = number(&first);
    let tall = number(&second);
    if wide > 1 && tall > 1 {
        Size { wide, tall }
    } else {
        Size { wide: 0, tall: 0 }
    }
}

/// The room to write down, given what was remembered and what was granted
/// now: the larger of the two each way, unless that is too small to be real
/// or is what was remembered already.
pub open spec fn keep_of(before: Size, room: Size) -> Option<Size> {
    let kept = Size {
        wide: if room.wide >= before.wide { room.wide } else { before.wide },
        tall: if room.tall >= before.tall { room.tall } else { before.tall },
    };
    if kept.wide <= 1 || kept.tall <= 1 || kept == before {
        None
    } else {
        Some(kept)
    }
}

/// The room a panel's note says it was last given: what it says, or no room
/// at all when there is no note.
pub fn last(held: Option<&str>) -> (r: Size)
    ensures
        r == (match held {
            Some(h) => read_of(h@),
            None => no_room(),
        }),
{
    match held {
        Some(h) => read(h),
        None => none(),
    }
}

/// The room to write down, if any.
pub fn keep(before: Size, room: Size) -> (r: Option<Size>)
    ensures
        r == keep_of(before, room),
{
    let kept = Size {
        wide: if room.wide >= before.wide {
            room.wide
        } else {
            before.wide
        },
        tall: if room.tall >= before.tall {
            room.tall
        } else {
            before.tall
        },
    };
    if kept.wide <= 1 || kept.tall <= 1 || kept == before {
        None
    } else {
        Some(kept)
    }
}

/// What is written down is never narrower nor shorter than either room: it
/// is as wide as the wider and as tall as the taller. Nothing is written when
/// that is what was remembered already, or is not more than a point either way.
pub proof fn lemma_the_room_kept_is_the_larger_each_way(before: Size, room: Size)
    ensures
        match keep_of(before, room) {
            Some(k) => {
                &&& k.wide >= before.wide && k.wide >= room.wide
                &&& (k.wide == before.wide || k.wide == room.wide)
                &&& k.tall >= before.tall && k.tall >= room.tall
                &&& (k.tall == before.tall || k.tall == room.tall)
                &&& k != before && k.wide > 1 && k.tall > 1
            },
            None => {
                ||| (room.wide <= before.wide && room.tall <= before.tall)
                ||| (room.wide <= 1 && before.wide <= 1)
                ||| (room.tall <= 1 && before.tall <= 1)
            },
        },
{
}

/// No white space in a number written out, and no sign in front of one that
/// is not below nought.
proof fn lemma_digits_solid(n: nat)
    ensures
        forall|i: int| 0 <= i < digits(n).len() ==> !is_white_space(#[trigger] digits(n)[i]),
        digits(n).len() >= 1,
{
    decimal::lemma_digits(n);
    assert forall|i: int| 0 <= i < digits(n).len() implies !is_white_space(#[trigger] digits(n)[i]) by {
        assert(decimal::is_digit(digits(n)[i]));
    }
}

/// A run with no white space in it, then white space, ends its first word
/// where the white space starts.
proof fn lemma_word_end(a: Seq<char>, b: Seq<char>)
    requires
        forall|i: int| 0 <= i < a.len() ==> !is_white_space(#[trigger] a[i]),
        b.len() > 0,
        is_white_space(b[0]),
    ensures
        word_end(a + b) == a.len(),
    decreases a.len(),
{
    if a.len() > 0 {
        assert((a + b).drop_first() =~= a.drop_first() + b);
        lemma_word_end(a.drop_first(), b);
    } else {
        assert(a + b =~= b);
    }
}

/// What was written is what is read: a room more than one point each way,
/// written down and read back, is the same room.
pub proof fn lemma_read_said(room: Size)
    requires
        room.wide > 1,
        room.tall > 1,
    ensures
        read_of(said_of(room)) == room,
{
    let w = digits(room.wide as nat);
    let t = digits(room.tall as nat);
    lemma_digits_solid(room.wide as nat);
    lemma_digits_solid(room.tall as nat);
    let s = said_of(room);
    assert(s =~= w + (seq![' '] + t + seq!['\n']));
    assert(trim_start(s) == s);
    lemma_word_end(w, seq![' '] + t + seq!['\n']);
    assert(s.take(w.len() as int) =~= w);
    let rest = s.skip(w.len() as int);
    assert(rest =~= seq![' '] + t + seq!['\n']);
    assert(is_white_space(' '));
    assert(rest.drop_first() =~= t + seq!['\n']);
    assert(trim_start(rest) == trim_start(rest.drop_first()));
    assert(trim_start(t + seq!['\n']) == t + seq!['\n']) by {
        assert((t + seq!['\n'])[0] == t[0]);
    }
    assert(is_white_space('\n'));
    lemma_word_end(t, seq!['\n']);
    assert((t + seq!['\n']).take(t.len() as int) =~= t);
    decimal::lemma_parse_i32_digits(room.wide);
    decimal::lemma_parse_i32_digits(room.tall);
}

} // verus!
