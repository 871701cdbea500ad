//! A panel saying what it drew, and where, so a check can press it.
//!
//! A surface can be up, the right size, on the right layer and the right
//! colour, and still be a thing nobody can use: a mark drawn for nothing, or
//! drawn past the edge of the glass. So the panel writes down what it put on
//! the screen: what each row says, and the rectangle of every part of it a
//! hand could land on. That is enough to ask whether the mark is there and
//! whether it is on the screen, with no compositor at all.
//!
//! Each line also says where the highlight is: on the row, beside it on what
//! else that row offers, or nowhere.
//!
//! Which file is written, and writing it, are the program's around this;
//! what a line says and what is read back from one are here.

use vstd::prelude::*;

use crate::decimal::{digits, signed_digits};
use crate::text::{self, join};

verus! {

/// Whether a part scrolls with the rows, so that its place down the card is
/// wherever the thumb takes it.
#[derive(Clone, Copy, Debug, PartialEq, Eq, Structural)]
pub enum Scrolls {
    Yes,
    No,
}

/// A part of the card a hand could land on: its name, where it is and how
/// big, and whether it scrolls.
#[derive(Debug, PartialEq, Eq)]
pub struct Spot {
    pub name: String,
    pub at: (i32, i32),
    pub big: (i32, i32),
    pub scrolls: Scrolls,
}

impl Clone for Spot {
    fn clone(&self) -> (r: Spot)
        ensures
            r == *self,
    {
        Spot { name: self.name.clone(), at: self.at, big: self.big, scrolls: self.scrolls }
    }
}

/// `a / b` rounded toward nought, as Rust divides.
pub open spec fn halved(a: int) -> int {
    if a >= 0 {
        a / 2
    } else {
        -((-a) / 2)
    }
}

/// The middle of a part: its corner and half its size, stopped at the ends
/// of an `i32`.
pub open spec fn middle_of(spot: Spot) -> (int, int) {
    (
        crate::measure::clamp_i32(spot.at.0 + halved(spot.big.0 as int)),
        crate::measure::clamp_i32(spot.at.1 + halved(spot.big.1 as int)),
    )
}

impl Spot {
    /// Where a press lands on this part: its middle.
    pub fn middle(&self) -> (r: (i32, i32))
        ensures
            (r.0 as int, r.1 as int) == middle_of(*self),
    {
        (
            crate::measure::more(self.at.0, self.big.0 / 2),
            crate::measure::more(self.at.1, self.big.1 / 2),
        )
    }
}

/// Whether a hand can reach a part.
#[derive(Clone, Copy, Debug, PartialEq, Eq, Structural)]
pub enum Reachable {
    Yes,
    No,
}

/// Whether a hand can reach a part on a screen of `room`: it has a size,
/// and lies across the screen from its left edge to its right; down the
/// screen too, unless the thumb can scroll it there.
pub open spec fn reachable_of(spot: Spot, room: (i32, i32)) -> bool {
    let right = crate::measure::clamp_i32(spot.at.0 + spot.big.0);
    let bottom = crate::measure::clamp_i32(spot.at.1 + spot.big.1);
    let across = spot.big.0 > 0 && spot.at.0 >= 0 && right <= room.0;
    let down = match spot.scrolls {
        Scrolls::Yes => spot.big.1 > 0,
        Scrolls::No => spot.big.1 > 0 && spot.at.1 >= 0 && bottom <= room.1,
    };
    across && down
}

/// Whether a hand can reach a part on a screen of `room`.
pub fn reachable(spot: &Spot, room: (i32, i32)) -> (r: Reachable)
    ensures
        r == (if reachable_of(*spot, room) {
            Reachable::Yes
        } else {
            Reachable::No
        }),
{
    let right = crate::measure::more(spot.at.0, spot.big.0);
    let bottom = crate::measure::more(spot.at.1, spot.big.1);
    let across = spot.big.0 > 0 && spot.at.0 >= 0 && right <= room.0;
    let down = match spot.scrolls {
        Scrolls::Yes => spot.big.1 > 0,
        Scrolls::No => spot.big.1 > 0 && spot.at.1 >= 0 && bottom <= room.1,
    };
    if across && down {
        Reachable::Yes
    } else {
        Reachable::No
    }
}

/// Whether a row offers something behind Y.
#[derive(Clone, Copy, Debug, PartialEq, Eq, Structural)]
pub enum Offers {
    Yes,
    No,
}

/// Whether a row asked to wear no marks.
#[derive(Clone, Copy, Debug, PartialEq, Eq, Structural)]
pub enum Bare {
    Yes,
    No,
}

/// Where the highlight is on a row: on it, beside it, or not there.
#[derive(Clone, Copy, Debug, PartialEq, Eq, Structural)]
pub enum Standing {
    On,
    Beside,
    No,
}

/// What a row drawn says: where it is in the list, its two lines, whether
/// it offers something and asked for no marks, where the highlight is on
/// it, and the parts of it a hand could land on.
#[derive(Clone, Debug, PartialEq, Eq)]
pub struct Line {
    pub at: usize,
    pub says: String,
    pub aside: String,
    pub offers: Offers,
    pub bare: Bare,
    pub standing: Standing,
    pub spots: Vec<Spot>,
}

/// Whether the part at `k` of `spots` is the first drawn under `name`.
pub open spec fn first_named(spots: Seq<Spot>, name: Seq<char>, k: int) -> bool {
    &&& 0 <= k < spots.len()
    &&& spots[k].name@ == name
    &&& forall|j: int| 0 <= j < k ==> #[trigger] spots[j].name@ != name
}

/// The first part of `spots` drawn under `name`, if there is one.
fn first_spot<'a>(spots: &'a Vec<Spot>, name: &str) -> (r: Option<&'a Spot>)
    ensures
        match r {
            Some(s) => exists|k: int| first_named(spots@, name@, k) && *s == spots@[k],
            None => forall|k: int| 0 <= k < spots@.len() ==> #[trigger] spots@[k].name@ != name@,
        },
{
    let wanted = text::letters(name);
    let mut i: usize = 0;
    while i < spots.len()
        invariant
            i <= spots@.len(),
            wanted@ == name@,
            forall|j: int| 0 <= j < i ==> #[trigger] spots@[j].name@ != name@,
        decreases spots.len() - i,
    {
        if text::same(&text::letters(spots[i].name.as_str()), &wanted) {
            assert(first_named(spots@, name@, i as int));
            return Some(&spots[i]);
        }
        i += 1;
    }
    None
}

impl Line {
    /// The first part of this row drawn under `name`.
    pub fn wearing(&self, name: &str) -> (r: Option<&Spot>)
        ensures
            match r {
                Some(s) => exists|k: int| first_named(self.spots@, name@, k) && *s == self.spots@[k],
                None => forall|k: int|
                    0 <= k < self.spots@.len() ==> #[trigger] self.spots@[k].name@ != name@,
            },
    {
        first_spot(&self.spots, name)
    }
}

/// Whether a panel is opened out over the whole screen.
#[derive(Clone, Copy, Debug, PartialEq, Eq, Structural)]
pub enum Out {
    Yes,
    No,
}

/// What one draw of a panel says: which panel, which tab, whether it is
/// opened out, how big the screen is, the rows drawn, and the parts of the
/// card itself a hand could land on.
#[derive(Debug, PartialEq, Eq)]
pub struct Told {
    pub panel: String,
    pub tab: String,
    pub out: Out,
    pub room: (i32, i32),
    pub lines: Vec<Line>,
    pub spots: Vec<Spot>,
}

impl Clone for Told {
    fn clone(&self) -> (r: Told) {
        Told {
            panel: self.panel.clone(),
            tab: self.tab.clone(),
            out: self.out,
            room: self.room,
            lines: self.lines.clone(),
            spots: self.spots.clone(),
        }
    }
}

/// The parts of every row of `lines`, row after row.
pub open spec fn spots_of_lines(lines: Seq<Line>) -> Seq<Spot>
    decreases lines.len(),
{
    if lines.len() == 0 {
        Seq::empty()
    } else {
        spots_of_lines(lines.drop_last()) + lines.last().spots@
    }
}

/// Every part a hand could land on: the card's own, then each row's.
pub open spec fn every_spot_of(told: Told) -> Seq<Spot> {
    told.spots@ + spots_of_lines(told.lines@)
}

/// Whether the row at `k` of `lines` is the first saying `said`.
pub open spec fn first_saying(lines: Seq<Line>, said: Seq<char>, k: int) -> bool {
    &&& 0 <= k < lines.len()
    &&& lines[k].says@ == said
    &&& forall|j: int| 0 <= j < k ==> #[trigger] lines[j].says@ != said
}

impl Told {
    /// Every part a hand could land on.
    pub fn every_spot(&self) -> (r: Vec<&Spot>)
        ensures
            r@.len() == every_spot_of(*self).len(),
            forall|k: int| 0 <= k < r@.len() ==> *r@[k] == #[trigger] every_spot_of(*self)[k],
    {
        let mut every: Vec<&Spot> = Vec::new();
        let mut i: usize = 0;
        while i < self.spots.len()
            invariant
                i <= self.spots@.len(),
                every@.len() == i,
                forall|k: int| 0 <= k < i ==> *every@[k] == #[trigger] self.spots@[k],
            decreases self.spots.len() - i,
        {
            every.push(&self.spots[i]);
            i += 1;
        }
        let mut l: usize = 0;
        while l < self.lines.len()
            invariant
                l <= self.lines@.len(),
                every@.len() == self.spots@.len() + spots_of_lines(self.lines@.take(l as int)).len(),
                forall|k: int|
                    0 <= k < every@.len() ==> *every@[k] == #[trigger] (self.spots@
                        + spots_of_lines(self.lines@.take(l as int)))[k],
            decreases self.lines.len() - l,
        {
            let ghost before = self.spots@ + spots_of_lines(self.lines@.take(l as int));
            assert(self.lines@.take(l + 1).drop_last() =~= self.lines@.take(l as int));
            let line = &self.lines[l];
            let mut j: usize = 0;
            while j < line.spots.len()
                invariant
                    j <= line.spots@.len(),
                    every@.len() == before.len() + j,
                    forall|k: int|
                        0 <= k < every@.len() ==> *every@[k] == #[trigger] (before
                            + line.spots@)[k],
                decreases line.spots.len() - j,
            {
                every.push(&line.spots[j]);
                j += 1;
            }
            assert(before + line.spots@ =~= self.spots@ + spots_of_lines(
                self.lines@.take(l + 1),
            ));
            l += 1;
        }
        assert(self.lines@.take(l as int) =~= self.lines@);
        every
    }

    /// The first part of the whole card drawn under `name`.
    pub fn wearing(&self, name: &str) -> (r: Option<&Spot>)
        ensures
            match r {
                Some(s) => exists|k: int|
                    first_named(every_spot_of(*self), name@, k) && *s == every_spot_of(*self)[k],
                None => forall|k: int|
                    0 <= k < every_spot_of(*self).len() ==> #[trigger] every_spot_of(
                        *self,
                    )[k].name@ != name@,
            },
    {
        let every = self.every_spot();
        let wanted = text::letters(name);
        let mut i: usize = 0;
        while i < every.len()
            invariant
                i <= every@.len(),
                wanted@ == name@,
                every@.len() == every_spot_of(*self).len(),
                forall|k: int| 0 <= k < every@.len() ==> *every@[k] == #[trigger] every_spot_of(*self)[k],
                forall|j: int| 0 <= j < i ==> #[trigger] every_spot_of(*self)[j].name@ != name@,
            decreases every.len() - i,
        {
            let spot: &Spot = every[i];
            assert(*every@[i as int] == every_spot_of(*self)[i as int]);
            if text::same(&text::letters(spot.name.as_str()), &wanted) {
                assert(first_named(every_spot_of(*self), name@, i as int));
                return Some(spot);
            }
            i += 1;
        }
        None
    }

    /// The first row drawn saying `said`.
    pub fn line_saying(&self, said: &str) -> (r: Option<&Line>)
        ensures
            match r {
                Some(l) => exists|k: int| first_saying(self.lines@, said@, k) && *l == self.lines@[k],
                None => forall|k: int|
                    0 <= k < self.lines@.len() ==> #[trigger] self.lines@[k].says@ != said@,
            },
    {
        let wanted = text::letters(said);
        let mut i: usize = 0;
        while i < self.lines.len()
            invariant
                i <= self.lines@.len(),
                wanted@ == said@,
                forall|j: int| 0 <= j < i ==> #[trigger] self.lines@[j].says@ != said@,
            decreases self.lines.len() - i,
        {
            if text::same(&text::letters(self.lines[i].says.as_str()), &wanted) {
                assert(first_saying(self.lines@, said@, i as int));
                return Some(&self.lines[i]);
            }
            i += 1;
        }
        None
    }
}

/// The names of every part a hand is offered, which a check walks looking
/// for.
pub const OFFERED: [&'static str; 7] = ["tab", "shut", "more", "step", "else", "press", "answer"];

/// A hexadecimal digit, as JSON writes one: `0` to `9`, then `a` to `f`.
pub open spec fn hex_digit(n: int) -> char {
    if n < 10 {
        ('0' as int + n) as char
    } else {
        ('a' as int + n - 10) as char
    }
}

/// How JSON writes one character of a string: a quote and a backslash
/// behind a backslash, the five control characters with a letter of their
/// own by that letter, every other control character by its number, and
/// any other character as it is.
pub open spec fn json_char(c: char) -> Seq<char> {
    if c == '"' {
        seq!['\\', '"']
    } else if c == '\\' {
        seq!['\\', '\\']
    } else if c == '\u{8}' {
        seq!['\\', 'b']
    } else if c == '\t' {
        seq!['\\', 't']
    } else if c == '\n' {
        seq!['\\', 'n']
    } else if c == '\u{c}' {
        seq!['\\', 'f']
    } else if c == '\r' {
        seq!['\\', 'r']
    } else if (c as int) < 0x20 {
        seq!['\\', 'u', '0', '0', hex_digit(c as int / 16), hex_digit(c as int % 16)]
    } else {
        seq![c]
    }
}

/// How JSON writes the characters of a string, one after another.
pub open spec fn json_escaped(s: Seq<char>) -> Seq<char>
    decreases s.len(),
{
    if s.len() == 0 {
        Seq::empty()
    } else {
        json_escaped(s.drop_last()) + json_char(s.last())
    }
}

/// A string as JSON writes it: its characters, written as JSON writes them,
/// between quotes.
pub open spec fn json_quoted(s: Seq<char>) -> Seq<char> {
    seq!['"'] + json_escaped(s) + seq!['"']
}

/// A string as JSON writes it.
///
/// Trusted: `serde_json::Value::String` written out with `to_string`. The
/// contract is the escape table of serde_json's serializer, and how it
/// writes each escape: a string between quotes, each character written as
/// `json_char` says.
#[verifier::external_body]
fn quoted(said: &str) -> (r: String)
    ensures
        r@ == json_quoted(said@),
{
    serde_json::Value::String(said.to_string()).to_string()
}

/// `true` or `false`, as JSON writes them.
pub open spec fn truth(b: bool) -> Seq<char> {
    if b {
        "true"@
    } else {
        "false"@
    }
}

/// Two numbers, as a JSON list.
pub open spec fn pair_said(p: (i32, i32)) -> Seq<char> {
    seq!['['] + signed_digits(p.0 as int) + seq![','] + signed_digits(p.1 as int) + seq![']']
}

/// A part a hand could land on, as a line says it.
pub open spec fn spot_said(spot: Spot) -> Seq<char> {
    "{\"name\":"@ + json_quoted(spot.name@) + ",\"at\":"@ + pair_said(spot.at) + ",\"big\":"@
        + pair_said(spot.big) + ",\"scrolls\":"@ + truth(spot.scrolls == Scrolls::Yes) + seq!['}']
}

/// A list of parts, as a line says it.
pub open spec fn spots_said(spots: Seq<Spot>) -> Seq<char> {
    seq!['['] + join(spots.map_values(|spot: Spot| spot_said(spot)), ',') + seq![']']
}

/// Where the highlight is, as a line says it.
pub open spec fn standing_said(standing: Standing) -> Seq<char> {
    match standing {
        Standing::On => "\"on\""@,
        Standing::Beside => "\"beside\""@,
        Standing::No => "\"no\""@,
    }
}

/// A row drawn, as a line says it.
pub open spec fn line_said(line: Line) -> Seq<char> {
    "{\"at\":"@ + digits(line.at as nat) + ",\"says\":"@ + json_quoted(line.says@) + ",\"aside\":"@
        + json_quoted(line.aside@) + ",\"offers\":"@ + truth(line.offers == Offers::Yes)
        + ",\"bare\":"@ + truth(line.bare == Bare::Yes) + ",\"standing\":"@ + standing_said(
        line.standing,
    ) + ",\"spots\":"@ + spots_said(line.spots@) + seq!['}']
}

/// A draw, as one line of JSON says it.
pub open spec fn said_of(told: Told) -> Seq<char> {
    "{\"panel\":"@ + json_quoted(told.panel@) + ",\"tab\":"@ + json_quoted(told.tab@)
        + ",\"out\":"@ + truth(told.out == Out::Yes) + ",\"room\":"@ + pair_said(told.room)
        + ",\"spots\":"@ + spots_said(told.spots@) + ",\"lines\":["@ + join(
        told.lines@.map_values(|line: Line| line_said(line)),
        ',',
    ) + seq![']', '}']
}

/// Appends the characters of `s` to `v`.
fn put(v: &mut Vec<char>, s: &str)
    ensures
        final(v)@ == old(v)@ + s@,
{
    text::extend(v, &text::letters(s));
}

/// `true` or `false`.
fn put_truth(v: &mut Vec<char>, b: bool)
    ensures
        final(v)@ == old(v)@ + truth(b),
{
    if b {
        put(v, "true");
        proof {
            reveal_strlit("true");
        }
    } else {
        put(v, "false");
        proof {
            reveal_strlit("false");
        }
    }
}

/// Two numbers, as a JSON list.
fn put_pair(v: &mut Vec<char>, p: (i32, i32))
    ensures
        final(v)@ == old(v)@ + pair_said(p),
{
    let ghost was = v@;
    v.push('[');
    text::extend(v, &crate::decimal::written_signed(p.0));
    v.push(',');
    text::extend(v, &crate::decimal::written_signed(p.1));
    v.push(']');
    assert(v@ =~= was + pair_said(p));
}

/// A part a hand could land on.
fn spot_text(spot: &Spot) -> (r: Vec<char>)
    ensures
        r@ == spot_said(*spot),
{
    let mut v: Vec<char> = Vec::new();
    put(&mut v, "{\"name\":");
    text::extend(&mut v, &text::letters(quoted(spot.name.as_str()).as_str()));
    put(&mut v, ",\"at\":");
    put_pair(&mut v, spot.at);
    put(&mut v, ",\"big\":");
    put_pair(&mut v, spot.big);
    put(&mut v, ",\"scrolls\":");
    put_truth(&mut v, spot.scrolls == Scrolls::Yes);
    v.push('}');
    assert(v@ =~= spot_said(*spot));
    v
}

/// A list of parts.
fn spots_text(spots: &Vec<Spot>) -> (r: Vec<char>)
    ensures
        r@ == spots_said(spots@),
{
    let mut each: Vec<Vec<char>> = Vec::new();
    let mut i: usize = 0;
    while i < spots.len()
        invariant
            i <= spots@.len(),
            each@.map_values(|v: Vec<char>| v@) == spots@.take(i as int).map_values(
                |spot: Spot| spot_said(spot),
            ),
        decreases spots.len() - i,
    {
        let ghost before = each@.map_values(|v: Vec<char>| v@);
        each.push(spot_text(&spots[i]));
        assert(each@.map_values(|v: Vec<char>| v@) =~= before.push(spot_said(spots@[i as int])));
        assert(spots@.take(i + 1).map_values(|spot: Spot| spot_said(spot)) =~= spots@.take(
            i as int,
        ).map_values(|spot: Spot| spot_said(spot)).push(spot_said(spots@[i as int])));
        i += 1;
    }
    assert(spots@.take(i as int) =~= spots@);
    let mut v: Vec<char> = Vec::new();
    v.push('[');
    text::extend(&mut v, &text::join_with(&each, ','));
    v.push(']');
    assert(v@ =~= spots_said(spots@));
    v
}

/// Where the highlight is.
fn put_standing(v: &mut Vec<char>, standing: Standing)
    ensures
        final(v)@ == old(v)@ + standing_said(standing),
{
    match standing {
        Standing::On => {
            put(v, "\"on\"");
            proof {
                reveal_strlit("\"on\"");
            }
        },
        Standing::Beside => {
            put(v, "\"beside\"");
            proof {
                reveal_strlit("\"beside\"");
            }
        },
        Standing::No => {
            put(v, "\"no\"");
            proof {
                reveal_strlit("\"no\"");
            }
        },
    }
}

/// A row drawn.
fn line_text(line: &Line) -> (r: Vec<char>)
    ensures
        r@ == line_said(*line),
{
    let mut v: Vec<char> = Vec::new();
    put(&mut v, "{\"at\":");
    text::extend(&mut v, &crate::decimal::written(line.at as u64));
    put(&mut v, ",\"says\":");
    text::extend(&mut v, &text::letters(quoted(line.says.as_str()).as_str()));
    put(&mut v, ",\"aside\":");
    text::extend(&mut v, &text::letters(quoted(line.aside.as_str()).as_str()));
    put(&mut v, ",\"offers\":");
    put_truth(&mut v, line.offers == Offers::Yes);
    put(&mut v, ",\"bare\":");
    put_truth(&mut v, line.bare == Bare::Yes);
    put(&mut v, ",\"standing\":");
    put_standing(&mut v, line.standing);
    put(&mut v, ",\"spots\":");
    text::extend(&mut v, &spots_text(&line.spots));
    v.push('}');
    assert(v@ =~= line_said(*line));
    v
}

/// A draw, as one line of JSON.
pub fn said(told: &Told) -> (r: String)
    ensures
        r@ == said_of(*told),
{
    let mut each: Vec<Vec<char>> = Vec::new();
    let mut i: usize = 0;
    while i < told.lines.len()
        invariant
            i <= told.lines@.len(),
            each@.map_values(|v: Vec<char>| v@) == told.lines@.take(i as int).map_values(
                |line: Line| line_said(line),
            ),
        decreases told.lines.len() - i,
    {
        let ghost before = each@.map_values(|v: Vec<char>| v@);
        each.push(line_text(&told.lines[i]));
        assert(each@.map_values(|v: Vec<char>| v@) =~= before.push(
            line_said(told.lines@[i as int]),
        ));
        assert(told.lines@.take(i + 1).map_values(|line: Line| line_said(line)) =~= told.lines@.take(
            i as int,
        ).map_values(|line: Line| line_said(line)).push(line_said(told.lines@[i as int])));
        i += 1;
    }
    assert(told.lines@.take(i as int) =~= told.lines@);
    let mut v: Vec<char> = Vec::new();
    put(&mut v, "{\"panel\":");
    text::extend(&mut v, &text::letters(quoted(told.panel.as_str()).as_str()));
    put(&mut v, ",\"tab\":");
    text::extend(&mut v, &text::letters(quoted(told.tab.as_str()).as_str()));
    put(&mut v, ",\"out\":");
    put_truth(&mut v, told.out == Out::Yes);
    put(&mut v, ",\"room\":");
    put_pair(&mut v, told.room);
    put(&mut v, ",\"spots\":");
    text::extend(&mut v, &spots_text(&told.spots));
    put(&mut v, ",\"lines\":[");
    text::extend(&mut v, &text::join_with(&each, ','));
    v.push(']');
    v.push('}');
    assert(v@ =~= said_of(*told));
    text::text(&v)
}

/// The JSON outside type.
#[verifier::external_type_specification]
#[verifier::external_body]
pub struct ExValue(serde_json::Value);

/// A JSON value, as a line is read: what each kind of value holds that the
/// reading looks at. A number holds what it is as an `i64` and as a `u64`,
/// where it is one; an object holds its members, each name once.
#[derive(Debug, PartialEq, Eq)]
pub enum Json {
    Null,
    Bool(bool),
    Number(Option<i64>, Option<u64>),
    Text(String),
    List(Vec<Json>),
    Object(Vec<(String, Json)>),
}

/// The JSON value a text is, if it is one.
pub uninterp spec fn json_of(said: Seq<char>) -> Option<Json>;

/// A JSON value in the library's own terms.
///
/// Trusted: one `serde_json::Value` variant for one `Json` variant, with a
/// number's `as_i64` and `as_u64` and an object's members in the order its
/// map gives them. It claims nothing, and only `parsed` calls it.
#[verifier::external_body]
fn json(held: &serde_json::Value) -> Json {
    match held {
        serde_json::Value::Null => Json::Null,
        serde_json::Value::Bool(b) => Json::Bool(*b),
        serde_json::Value::Number(n) => Json::Number(n.as_i64(), n.as_u64()),
        serde_json::Value::String(t) => Json::Text(t.clone()),
        serde_json::Value::Array(every) => Json::List(every.iter().map(json).collect()),
        serde_json::Value::Object(members) => Json::Object(
            members.iter().map(|(name, held)| (name.clone(), json(held))).collect(),
        ),
    }
}

/// Whether a member holds the words `s`.
pub open spec fn text_json(held: Option<Json>, s: Seq<char>) -> bool {
    held matches Some(Json::Text(t)) && t@ == s
}

/// Whether a member holds `b`.
pub open spec fn bool_json(held: Option<Json>, b: bool) -> bool {
    held == Some(Json::Bool(b))
}

/// Whether a value is a whole number that is `n` as an `i64`.
pub open spec fn int_json(held: Json, n: i32) -> bool {
    held matches Json::Number(Some(i), _) && i == n
}

/// Whether a member is a list of the two numbers of `p`.
pub open spec fn pair_json(held: Option<Json>, p: (i32, i32)) -> bool {
    held matches Some(Json::List(v)) && v@.len() == 2 && int_json(v@[0], p.0) && int_json(
        v@[1],
        p.1,
    )
}

/// Whether a value is the object a part is written as.
pub open spec fn spot_json(held: Json, spot: SpotSeen) -> bool {
    &&& text_json(member(held, "name"@), spot.name)
    &&& pair_json(member(held, "at"@), spot.at)
    &&& pair_json(member(held, "big"@), spot.big)
    &&& bool_json(member(held, "scrolls"@), spot.scrolls == Scrolls::Yes)
}

/// Whether a member is the list `spots` are written as.
pub open spec fn spots_json(held: Option<Json>, spots: Seq<SpotSeen>) -> bool {
    held matches Some(Json::List(v)) && v@.len() == spots.len() && forall|i: int|
        0 <= i < spots.len() ==> spot_json(#[trigger] v@[i], spots[i])
}

/// The word a place of the highlight is written as.
pub open spec fn standing_word(standing: Standing) -> Seq<char> {
    match standing {
        Standing::On => "on"@,
        Standing::Beside => "beside"@,
        Standing::No => "no"@,
    }
}

/// Whether a value is the object a row drawn is written as.
pub open spec fn line_json(held: Json, line: LineSeen) -> bool {
    &&& member(held, "at"@) matches Some(Json::Number(_, Some(u))) && u == line.at
    &&& text_json(member(held, "says"@), line.says)
    &&& text_json(member(held, "aside"@), line.aside)
    &&& bool_json(member(held, "offers"@), line.offers == Offers::Yes)
    &&& bool_json(member(held, "bare"@), line.bare == Bare::Yes)
    &&& text_json(member(held, "standing"@), standing_word(line.standing))
    &&& spots_json(member(held, "spots"@), line.spots)
}

/// Whether a value is the object a draw is written as: each of its members
/// holding what the draw says, read back as JSON reads what was written.
pub open spec fn draw_json(held: Json, told: ToldSeen) -> bool {
    &&& text_json(member(held, "panel"@), told.panel)
    &&& text_json(member(held, "tab"@), told.tab)
    &&& bool_json(member(held, "out"@), told.out == Out::Yes)
    &&& pair_json(member(held, "room"@), told.room)
    &&& spots_json(member(held, "spots"@), told.spots)
    &&& member(held, "lines"@) matches Some(Json::List(v)) && v@.len() == told.lines.len()
        && forall|k: int| 0 <= k < told.lines.len() ==> line_json(#[trigger] v@[k], told.lines[k])
}

/// The JSON value a text is, or what serde_json said was wrong with it.
///
/// Trusted: `serde_json::from_str` into a `serde_json::Value`. The contract
/// names the value, which is a function of the text alone, and says that a
/// text is refused exactly when it names none; what is said of a refusal is
/// serde_json's message and is not stated. It also says what serde_json's
/// parser makes of a line this file writes: a quoted string is read back as
/// the string that was quoted, `true` and `false` as themselves, a whole
/// number as that number, a list as its values and an object as its members
/// by name, so the line a draw is written as is read as the object
/// `draw_json` describes.
#[verifier::external_body]
fn parsed(said: &str) -> (r: Result<Json, String>)
    ensures
        match r {
            Ok(j) => json_of(said@) == Some(j) && forall|told: Told| #[trigger] said_of(told)
                == said@ ==> draw_json(j, told@),
            Err(_) => json_of(said@) is None && forall|told: Told| #[trigger] said_of(told)
                != said@,
        },
{
    match serde_json::from_str::<serde_json::Value>(said) {
        Ok(held) => Ok(json(&held)),
        Err(fault) => Err(fault.to_string()),
    }
}

/// Whether the member at `k` of `members` is the first named `name`.
pub open spec fn first_member(members: Seq<(String, Json)>, name: Seq<char>, k: int) -> bool {
    &&& 0 <= k < members.len()
    &&& members[k].0@ == name
    &&& forall|j: int| 0 <= j < k ==> #[trigger] members[j].0@ != name
}

/// The member of an object named `name`, if it has one: the first, though
/// an object read from a text names each member once.
pub open spec fn member(held: Json, name: Seq<char>) -> Option<Json> {
    match held {
        Json::Object(members) => if exists|k: int| first_member(members@, name, k) {
            Some(members@[choose|k: int| first_member(members@, name, k)].1)
        } else {
            None
        },
        _ => None,
    }
}

/// Two members that are each the first with a name are one member.
proof fn lemma_first_member_once(members: Seq<(String, Json)>, name: Seq<char>, i: int, k: int)
    requires
        first_member(members, name, i),
        first_member(members, name, k),
    ensures
        i == k,
{
    if i < k {
        assert(members[i].0@ != name);
    } else if k < i {
        assert(members[k].0@ != name);
    }
}

/// The member of an object named `name`.
fn get<'a>(held: &'a Json, name: &str) -> (r: Option<&'a Json>)
    ensures
        match r {
            Some(j) => member(*held, name@) == Some(*j),
            None => member(*held, name@) is None,
        },
{
    match held {
        Json::Object(members) => {
            let wanted = text::letters(name);
            let mut i: usize = 0;
            while i < members.len()
                invariant
                    *held == Json::Object(*members),
                    i <= members@.len(),
                    wanted@ == name@,
                    forall|j: int| 0 <= j < i ==> #[trigger] members@[j].0@ != name@,
                decreases members.len() - i,
            {
                if text::same(&text::letters(members[i].0.as_str()), &wanted) {
                    assert(first_member(members@, name@, i as int));
                    proof {
                        let k = choose|k: int| first_member(members@, name@, k);
                        lemma_first_member_once(members@, name@, i as int, k);
                    }
                    return Some(&members[i].1);
                }
                i += 1;
            }
            assert(!exists|k: int| first_member(members@, name@, k));
            None
        },
        _ => None,
    }
}

/// A part a hand could land on, with its name as characters.
pub struct SpotSeen {
    pub name: Seq<char>,
    pub at: (i32, i32),
    pub big: (i32, i32),
    pub scrolls: Scrolls,
}

impl View for Spot {
    type V = SpotSeen;

    open spec fn view(&self) -> SpotSeen {
        SpotSeen { name: self.name@, at: self.at, big: self.big, scrolls: self.scrolls }
    }
}

/// A row drawn, with its words as characters.
pub struct LineSeen {
    pub at: usize,
    pub says: Seq<char>,
    pub aside: Seq<char>,
    pub offers: Offers,
    pub bare: Bare,
    pub standing: Standing,
    pub spots: Seq<SpotSeen>,
}

/// The views of each of `spots`.
pub open spec fn spots_seen(spots: Seq<Spot>) -> Seq<SpotSeen> {
    spots.map_values(|spot: Spot| spot@)
}

impl View for Line {
    type V = LineSeen;

    open spec fn view(&self) -> LineSeen {
        LineSeen {
            at: self.at,
            says: self.says@,
            aside: self.aside@,
            offers: self.offers,
            bare: self.bare,
            standing: self.standing,
            spots: spots_seen(self.spots@),
        }
    }
}

/// A draw, with its words as characters.
pub struct ToldSeen {
    pub panel: Seq<char>,
    pub tab: Seq<char>,
    pub out: Out,
    pub room: (i32, i32),
    pub lines: Seq<LineSeen>,
    pub spots: Seq<SpotSeen>,
}

impl View for Told {
    type V = ToldSeen;

    open spec fn view(&self) -> ToldSeen {
        ToldSeen {
            panel: self.panel@,
            tab: self.tab@,
            out: self.out,
            room: self.room,
            lines: self.lines@.map_values(|line: Line| line@),
            spots: spots_seen(self.spots@),
        }
    }
}

/// The words a member holds, or nothing when it holds none.
pub open spec fn words_read(held: Option<Json>) -> Seq<char> {
    match held {
        Some(Json::Text(t)) => t@,
        _ => Seq::empty(),
    }
}

/// Whether a member holds `true`.
pub open spec fn true_read(held: Option<Json>) -> bool {
    held == Some(Json::Bool(true))
}

/// The number a value holds, held inside what an `i32` holds, when it holds
/// a whole number an `i64` holds.
pub open spec fn number_read(held: Option<Json>) -> Option<i32> {
    match held {
        Some(Json::Number(Some(n), _)) => Some(crate::measure::clamp_i32(n as int) as i32),
        _ => None,
    }
}

/// The values of a member that is a list.
pub open spec fn list_read(held: Option<Json>) -> Option<Seq<Json>> {
    match held {
        Some(Json::List(every)) => Some(every@),
        _ => None,
    }
}

/// The two numbers the member `called` holds, when it is a list beginning
/// with two whole numbers.
pub open spec fn pair_read(held: Json, called: Seq<char>) -> Option<(i32, i32)> {
    match list_read(member(held, called)) {
        Some(every) => match (
            number_read(if every.len() > 0 {
                Some(every[0])
            } else {
                None
            }),
            number_read(if every.len() > 1 {
                Some(every[1])
            } else {
                None
            }),
        ) {
            (Some(across), Some(down)) => Some((across, down)),
            _ => None,
        },
        None => None,
    }
}

/// The part a value says, when it names one and says where it is and how
/// big: scrolling only when it says it does.
pub open spec fn spot_read(held: Json) -> Option<SpotSeen> {
    match member(held, "name"@) {
        Some(Json::Text(name)) => match (pair_read(held, "at"@), pair_read(held, "big"@)) {
            (Some(at), Some(big)) => Some(
                SpotSeen {
                    name: name@,
                    at,
                    big,
                    scrolls: if true_read(member(held, "scrolls"@)) {
                        Scrolls::Yes
                    } else {
                        Scrolls::No
                    },
                },
            ),
            _ => None,
        },
        _ => None,
    }
}

/// The parts a list of values says, leaving out every value that says none.
pub open spec fn spots_kept(every: Seq<Json>) -> Seq<SpotSeen>
    decreases every.len(),
{
    if every.len() == 0 {
        Seq::empty()
    } else {
        spots_kept(every.drop_last()) + match spot_read(every.last()) {
            Some(spot) => seq![spot],
            None => Seq::empty(),
        }
    }
}

/// The parts the member `spots` of a value says, or none.
pub open spec fn spots_read(held: Json) -> Seq<SpotSeen> {
    match list_read(member(held, "spots"@)) {
        Some(every) => spots_kept(every),
        None => Seq::empty(),
    }
}

/// The row a value at `at` of the list says: where it says it is, or `at`.
pub open spec fn line_read(at: int, held: Json) -> LineSeen {
    LineSeen {
        at: match member(held, "at"@) {
            Some(Json::Number(_, Some(n))) => if n > usize::MAX {
                usize::MAX
            } else {
                n as usize
            },
            _ => at as usize,
        },
        says: words_read(member(held, "says"@)),
        aside: words_read(member(held, "aside"@)),
        offers: if true_read(member(held, "offers"@)) {
            Offers::Yes
        } else {
            Offers::No
        },
        bare: if true_read(member(held, "bare"@)) {
            Bare::Yes
        } else {
            Bare::No
        },
        standing: if words_read(member(held, "standing"@)) == "on"@ {
            Standing::On
        } else if words_read(member(held, "standing"@)) == "beside"@ {
            Standing::Beside
        } else {
            Standing::No
        },
        spots: spots_read(held),
    }
}

/// The draw a value says, or why it says none: it says no room, or no rows.
pub open spec fn told_read(held: Json) -> Result<ToldSeen, Seq<char>> {
    match pair_read(held, "room"@) {
        None => Err("no room"@),
        Some(room) => match list_read(member(held, "lines"@)) {
            None => Err("no lines"@),
            Some(lines) => Ok(
                ToldSeen {
                    panel: words_read(member(held, "panel"@)),
                    tab: words_read(member(held, "tab"@)),
                    out: if true_read(member(held, "out"@)) {
                        Out::Yes
                    } else {
                        Out::No
                    },
                    room,
                    lines: Seq::new(lines.len(), |k: int| line_read(k, lines[k])),
                    spots: spots_read(held),
                },
            ),
        },
    }
}

/// What an optional member is, as a value that may not be there.
pub open spec fn held_of(held: Option<&Json>) -> Option<Json> {
    match held {
        Some(j) => Some(*j),
        None => None,
    }
}

/// The words a member holds, or nothing.
fn words(held: Option<&Json>) -> (r: String)
    ensures
        r@ == words_read(held_of(held)),
{
    match held {
        Some(Json::Text(t)) => t.clone(),
        _ => String::new(),
    }
}

/// Whether a member holds `true`.
fn truth_held(held: Option<&Json>) -> (r: bool)
    ensures
        r == true_read(held_of(held)),
{
    match held {
        Some(Json::Bool(b)) => *b,
        _ => false,
    }
}

/// The number a member holds.
fn number(held: Option<&Json>) -> (r: Option<i32>)
    ensures
        r == number_read(held_of(held)),
{
    match held {
        Some(Json::Number(Some(n), _)) => Some(
            if *n < i32::MIN as i64 {
                i32::MIN
            } else if *n > i32::MAX as i64 {
                i32::MAX
            } else {
                *n as i32
            },
        ),
        _ => None,
    }
}

/// The values of a member that is a list.
fn list(held: Option<&Json>) -> (r: Option<&Vec<Json>>)
    ensures
        match r {
            Some(v) => list_read(held_of(held)) == Some(v@),
            None => list_read(held_of(held)) is None,
        },
{
    match held {
        Some(Json::List(every)) => Some(every),
        _ => None,
    }
}

/// The two numbers the member `called` holds.
fn pair(held: &Json, called: &str) -> (r: Option<(i32, i32)>)
    ensures
        r == pair_read(*held, called@),
{
    let every = match list(get(held, called)) {
        Some(every) => every,
        None => return None,
    };
    let across = number(if every.len() > 0 {
        Some(&every[0])
    } else {
        None
    });
    let down = number(if every.len() > 1 {
        Some(&every[1])
    } else {
        None
    });
    match (across, down) {
        (Some(across), Some(down)) => Some((across, down)),
        _ => None,
    }
}

/// The part a value says.
fn spot_of(held: &Json) -> (r: Option<Spot>)
    ensures
        match r {
            Some(spot) => spot_read(*held) == Some(spot@),
            None => spot_read(*held) is None,
        },
{
    proof {
        reveal_strlit("name");
        reveal_strlit("at");
        reveal_strlit("big");
        reveal_strlit("scrolls");
    }
    let name = match get(held, "name") {
        Some(Json::Text(name)) => name,
        _ => return None,
    };
    let at = match pair(held, "at") {
        Some(at) => at,
        None => return None,
    };
    let big = match pair(held, "big") {
        Some(big) => big,
        None => return None,
    };
    let scrolls = if truth_held(get(held, "scrolls")) {
        Scrolls::Yes
    } else {
        Scrolls::No
    };
    Some(Spot { name: name.clone(), at, big, scrolls })
}

/// The parts the member `spots` of a value says.
fn spots(held: &Json) -> (r: Vec<Spot>)
    ensures
        spots_seen(r@) == spots_read(*held),
{
    proof {
        reveal_strlit("spots");
    }
    let every = match list(get(held, "spots")) {
        Some(every) => every,
        None => {
            let none: Vec<Spot> = Vec::new();
            assert(spots_seen(none@) =~= Seq::<SpotSeen>::empty());
            return none;
        },
    };
    let mut kept: Vec<Spot> = Vec::new();
    let mut i: usize = 0;
    while i < every.len()
        invariant
            i <= every@.len(),
            spots_seen(kept@) == spots_kept(every@.take(i as int)),
        decreases every.len() - i,
    {
        let ghost before = spots_seen(kept@);
        assert(every@.take(i + 1).drop_last() =~= every@.take(i as int));
        assert(every@.take(i + 1).last() == every@[i as int]);
        match spot_of(&every[i]) {
            Some(spot) => {
                kept.push(spot);
                assert(spots_seen(kept@) =~= before + seq![spot@]);
            },
            None => {
                assert(before + Seq::<SpotSeen>::empty() =~= before);
            },
        }
        i += 1;
    }
    assert(every@.take(i as int) =~= every@);
    kept
}

/// The row a value at `at` of the list says.
fn line_of(at: usize, held: &Json) -> (r: Line)
    ensures
        r@ == line_read(at as int, *held),
{
    proof {
        reveal_strlit("at");
        reveal_strlit("says");
        reveal_strlit("aside");
        reveal_strlit("offers");
        reveal_strlit("bare");
        reveal_strlit("standing");
        reveal_strlit("on");
        reveal_strlit("beside");
    }
    let place = match get(held, "at") {
        Some(Json::Number(_, Some(n))) => if *n > usize::MAX as u64 {
            usize::MAX
        } else {
            *n as usize
        },
        _ => at,
    };
    let standing = words(get(held, "standing"));
    let standing = text::letters(standing.as_str());
    let standing = if text::same(&standing, &text::letters("on")) {
        Standing::On
    } else if text::same(&standing, &text::letters("beside")) {
        Standing::Beside
    } else {
        Standing::No
    };
    Line {
        at: place,
        says: words(get(held, "says")),
        aside: words(get(held, "aside")),
        offers: if truth_held(get(held, "offers")) {
            Offers::Yes
        } else {
            Offers::No
        },
        bare: if truth_held(get(held, "bare")) {
            Bare::Yes
        } else {
            Bare::No
        },
        standing,
        spots: spots(held),
    }
}

/// The draw a value says, or why it says none.
pub fn told_of_json(held: &Json) -> (r: Result<Told, String>)
    ensures
        match r {
            Ok(t) => told_read(*held) == Ok::<ToldSeen, Seq<char>>(t@),
            Err(e) => told_read(*held) == Err::<ToldSeen, Seq<char>>(e@),
        },
{
    proof {
        reveal_strlit("room");
        reveal_strlit("lines");
        reveal_strlit("panel");
        reveal_strlit("tab");
        reveal_strlit("out");
        reveal_strlit("no room");
        reveal_strlit("no lines");
    }
    let room = match pair(held, "room") {
        Some(room) => room,
        None => return Err(text::text(&text::letters("no room"))),
    };
    let every = match list(get(held, "lines")) {
        Some(every) => every,
        None => return Err(text::text(&text::letters("no lines"))),
    };
    let mut lines: Vec<Line> = Vec::new();
    let mut i: usize = 0;
    while i < every.len()
        invariant
            i <= every@.len(),
            lines@.len() == i,
            forall|k: int| 0 <= k < i ==> #[trigger] lines@[k]@ == line_read(k, every@[k]),
        decreases every.len() - i,
    {
        lines.push(line_of(i, &every[i]));
        i += 1;
    }
    let told = Told {
        panel: words(get(held, "panel")),
        tab: words(get(held, "tab")),
        out: if truth_held(get(held, "out")) {
            Out::Yes
        } else {
            Out::No
        },
        room,
        lines,
        spots: spots(held),
    };
    assert(told@.lines =~= Seq::new(every@.len(), |k: int| line_read(k, every@[k])));
    Ok(told)
}

/// What a text read as a draw gives: the draw it says, or why it says none.
pub open spec fn read_of(said: Seq<char>, r: Result<ToldSeen, Seq<char>>) -> bool {
    match json_of(said) {
        Some(held) => r == told_read(held),
        None => r matches Err(e) && exists|fault: Seq<char>| e == fault + ": "@ + said,
    }
}

/// The draw one line of JSON says, or why it says none: it is not JSON, and
/// what serde_json said of it then, or it says no room, or no rows. What was
/// drawn survives the trip through a file: a line written for a draw is
/// read back as that draw.
pub fn read(said: &str) -> (r: Result<Told, String>)
    ensures
        read_of(
            said@,
            match r {
                Ok(t) => Ok(t@),
                Err(e) => Err(e@),
            },
        ),
        forall|told: Told| #[trigger] said_of(told) == said@ ==> (r matches Ok(back) && back@ == told@),
{
    match parsed(said) {
        Ok(held) => {
            let r = told_of_json(&held);
            assert forall|told: Told| #[trigger] said_of(told) == said@ implies (r matches Ok(
                back,
            ) && back@ == told@) by {
                lemma_a_draw_is_read_back(held, told@);
            }
            r
        },
        Err(fault) => {
            assert forall|told: Told| #[trigger] said_of(told) != said@ by {}
            let mut e = text::letters(fault.as_str());
            text::extend(&mut e, &text::letters(": "));
            text::extend(&mut e, &text::letters(said));
            proof {
                reveal_strlit(": ");
            }
            assert(e@ == fault@ + ": "@ + said@);
            Err(text::text(&e))
        },
    }
}

/// A line as `str::lines` gives it: without the carriage return before its
/// line feed.
pub open spec fn unreturned(piece: Seq<char>) -> Seq<char> {
    if piece.len() > 0 && piece.last() == '\r' {
        piece.drop_last()
    } else {
        piece
    }
}

/// The lines of a text, as `str::lines` splits it: at each line feed, with
/// a carriage return before it taken off too.
pub open spec fn lines_of(said: Seq<char>) -> Seq<Seq<char>> {
    let pieces = text::split(said, '\n');
    Seq::new(
        pieces.len(),
        |k: int|
            if k + 1 < pieces.len() {
                unreturned(pieces[k])
            } else {
                pieces[k]
            },
    )
}

/// The lines of `lines` that are not only white space.
pub open spec fn not_blank(lines: Seq<Seq<char>>) -> Seq<Seq<char>>
    decreases lines.len(),
{
    if lines.len() == 0 {
        Seq::empty()
    } else {
        not_blank(lines.drop_last()) + if text::trim(lines.last()).len() > 0 {
            seq![lines.last()]
        } else {
            Seq::empty()
        }
    }
}

/// The lines of a text that are not only white space.
pub open spec fn lines_kept(said: Seq<char>) -> Seq<Seq<char>> {
    not_blank(lines_of(said))
}

/// What is kept of the first lines is the start of what is kept of them
/// all.
proof fn lemma_not_blank_prefix(lines: Seq<Seq<char>>, i: int)
    requires
        0 <= i <= lines.len(),
    ensures
        not_blank(lines.take(i)).len() <= not_blank(lines).len(),
        forall|k: int|
            0 <= k < not_blank(lines.take(i)).len() ==> #[trigger] not_blank(lines.take(i))[k]
                == not_blank(lines)[k],
    decreases lines.len() - i,
{
    if i < lines.len() {
        lemma_not_blank_prefix(lines, i + 1);
        assert(lines.take(i + 1).drop_last() =~= lines.take(i));
        let short = not_blank(lines.take(i));
        let long = not_blank(lines.take(i + 1));
        assert(long == short + (if text::trim(lines.take(i + 1).last()).len() > 0 {
            seq![lines.take(i + 1).last()]
        } else {
            Seq::empty()
        }));
        assert forall|k: int| 0 <= k < short.len() implies #[trigger] short[k] == not_blank(
            lines,
        )[k] by {
            assert(short[k] == long[k]);
        }
    } else {
        assert(lines.take(i) =~= lines);
    }
}

/// Whether a line reads as a draw.
pub open spec fn reads(line: Seq<char>) -> bool {
    json_of(line) matches Some(held) && told_read(held) is Ok
}

/// Every draw of a run of them, one line of JSON each, blank lines left
/// out: the draws, when every line reads as one, and otherwise why the first
/// that does not.
pub fn every(said: &str) -> (r: Result<Vec<Told>, String>)
    ensures
        match r {
            Ok(v) => v@.len() == lines_kept(said@).len() && forall|k: int|
                0 <= k < v@.len() ==> read_of(lines_kept(said@)[k], Ok(#[trigger] v@[k]@)),
            Err(e) => exists|k: int|
                0 <= k < lines_kept(said@).len() && (forall|j: int|
                    0 <= j < k ==> reads(#[trigger] lines_kept(said@)[j])) && read_of(
                    lines_kept(said@)[k],
                    Err(e@),
                ),
        },
{
    let pieces = text::split_on(&text::letters(said), '\n');
    let ghost p = pieces@.map_values(|v: Vec<char>| v@);
    let ghost whole = lines_of(said@);
    assert(p == text::split(said@, '\n'));
    let mut every: Vec<Told> = Vec::new();
    let mut i: usize = 0;
    while i < pieces.len()
        invariant
            i <= pieces@.len(),
            p == pieces@.map_values(|v: Vec<char>| v@),
            p == text::split(said@, '\n'),
            whole == lines_of(said@),
            whole.len() == p.len(),
            every@.len() == not_blank(whole.take(i as int)).len(),
            forall|k: int|
                0 <= k < every@.len() ==> read_of(
                    not_blank(whole.take(i as int))[k],
                    Ok(#[trigger] every@[k]@),
                ),
        decreases pieces.len() - i,
    {
        let piece = &pieces[i];
        let line: Vec<char> = if i + 1 < pieces.len() && piece.len() > 0 && piece[piece.len() - 1]
            == '\r' {
            text::slice(piece, 0, piece.len() - 1)
        } else {
            piece.clone()
        };
        assert(line@ == whole[i as int]) by {
            if i + 1 < pieces.len() && piece@.len() > 0 && piece@.last() == '\r' {
                assert(piece@.subrange(0, piece@.len() - 1) =~= piece@.drop_last());
            }
        }
        assert(whole.take(i + 1).drop_last() =~= whole.take(i as int));
        assert(whole.take(i + 1).last() == whole[i as int]);
        let ghost before = not_blank(whole.take(i as int));
        if text::trimmed(&line).len() > 0 {
            assert(not_blank(whole.take(i + 1)) == before.push(line@));
            match read(text::text(&line).as_str()) {
                Ok(told) => {
                    every.push(told);
                },
                Err(e) => {
                    proof {
                        let k = before.len() as int;
                        lemma_not_blank_prefix(whole, i + 1);
                        let upto = not_blank(whole.take(i + 1));
                        assert(upto[k] == line@);
                        assert(upto[k] == not_blank(whole)[k]);
                        assert(lines_kept(said@)[k] == line@);
                        assert forall|j: int| 0 <= j < k implies reads(
                            #[trigger] lines_kept(said@)[j],
                        ) by {
                            assert(upto[j] == before[j]);
                            assert(upto[j] == not_blank(whole)[j]);
                            assert(lines_kept(said@)[j] == before[j]);
                            assert(read_of(before[j], Ok(every@[j]@)));
                        }
                    }
                    return Err(e);
                },
            }
        } else {
            assert(not_blank(whole.take(i + 1)) =~= before);
        }
        i += 1;
    }
    assert(whole.take(i as int) =~= whole);
    Ok(every)
}

/// A list of two numbers written for `p` is read as `p`.
proof fn lemma_pair_read(held: Json, called: Seq<char>, p: (i32, i32))
    requires
        pair_json(member(held, called), p),
    ensures
        pair_read(held, called) == Some(p),
{
}

/// A part written as JSON is read back as itself.
proof fn lemma_spot_read(held: Json, spot: SpotSeen)
    requires
        spot_json(held, spot),
    ensures
        spot_read(held) == Some(spot),
{
    lemma_pair_read(held, "at"@, spot.at);
    lemma_pair_read(held, "big"@, spot.big);
}

/// Parts written as JSON are read back as themselves, every one of them.
proof fn lemma_spots_kept(every: Seq<Json>, spots: Seq<SpotSeen>)
    requires
        every.len() == spots.len(),
        forall|i: int| 0 <= i < spots.len() ==> spot_json(#[trigger] every[i], spots[i]),
    ensures
        spots_kept(every) == spots,
    decreases every.len(),
{
    if every.len() > 0 {
        let n = every.len() - 1;
        assert forall|i: int| 0 <= i < n implies spot_json(
            #[trigger] every.drop_last()[i],
            spots.drop_last()[i],
        ) by {
            assert(spot_json(every[i], spots[i]));
        }
        lemma_spots_kept(every.drop_last(), spots.drop_last());
        assert(spot_json(every[n], spots[n]));
        lemma_spot_read(every.last(), spots.last());
        assert(spots =~= spots.drop_last() + seq![spots.last()]);
    }
}

/// The member `spots` written as JSON is read back as the parts written.
proof fn lemma_spots_read(held: Json, spots: Seq<SpotSeen>)
    requires
        spots_json(member(held, "spots"@), spots),
    ensures
        spots_read(held) == spots,
{
    let every = list_read(member(held, "spots"@))->0;
    lemma_spots_kept(every, spots);
}

/// A row written as JSON is read back as itself, wherever in the list.
proof fn lemma_line_read(at: int, held: Json, line: LineSeen)
    requires
        line_json(held, line),
    ensures
        line_read(at, held) == line,
{
    reveal_strlit("on");
    reveal_strlit("beside");
    reveal_strlit("no");
    lemma_spots_read(held, line.spots);
    assert("no"@ != "on"@) by {
        assert("no"@[1] != "on"@[1]);
    }
    assert("no"@ != "beside"@) by {
        assert("no"@.len() != "beside"@.len());
    }
    assert("beside"@ != "on"@) by {
        assert("beside"@.len() != "on"@.len());
    }
}

/// What a draw is written as is read back as that draw.
pub proof fn lemma_a_draw_is_read_back(held: Json, told: ToldSeen)
    requires
        draw_json(held, told),
    ensures
        told_read(held) == Ok::<ToldSeen, Seq<char>>(told),
{
    lemma_pair_read(held, "room"@, told.room);
    lemma_spots_read(held, told.spots);
    let lines = list_read(member(held, "lines"@))->0;
    assert forall|k: int| 0 <= k < lines.len() implies #[trigger] line_read(k, lines[k])
        == told.lines[k] by {
        lemma_line_read(k, lines[k], told.lines[k]);
    }
    assert(Seq::new(lines.len(), |k: int| line_read(k, lines[k])) =~= told.lines);
}

} // verus!
